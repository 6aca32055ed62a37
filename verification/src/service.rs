//! Run states of batches and jobs, and how a batch settles from its jobs.

use vstd::prelude::*;

use crate::formats::{EstimateRequest, SecurityReportEntry, SecurityReportFile};

verus! {

/// Maximum number of jobs that may be queued or running at once.
pub const MAX_QUEUED_JOBS: usize = 2000;

/// Service configuration, as plain values.
#[derive(Clone, Debug)]
pub struct AppConfig {
    pub bind: String,
    pub database_path: String,
    pub estimator_url: String,
    pub poll_after_seconds: u64,
    pub api_token: Option<String>,
    pub approximation_model_path: Option<String>,
}

/// A setting that is set and not empty.
pub open spec fn present(value: Option<String>) -> Option<Seq<char>> {
    match value {
        Some(v) => if v@.len() > 0 {
            Some(v@)
        } else {
            None
        },
        None => None,
    }
}

fn non_empty(value: Option<String>) -> (r: Option<String>)
    ensures
        match r {
            Some(v) => present(value) == Some(v@),
            None => present(value) is None,
        },
{
    match value {
        Some(v) => if v.as_str().unicode_len() > 0 {
            Some(v)
        } else {
            None
        },
        None => None,
    }
}

impl AppConfig {
    /// The configuration from the environment's settings, with the defaults
    /// for those not set; an empty token or model path counts as unset.
    pub fn from_values(
        bind: Option<String>,
        database_path: Option<String>,
        estimator_url: Option<String>,
        api_token: Option<String>,
        approximation_model_path: Option<String>,
    ) -> (r: Self)
        ensures
            r.bind@ == match bind {
                Some(b) => b@,
                None => "127.0.0.1:8080"@,
            },
            r.database_path@ == match database_path {
                Some(d) => d@,
                None => "/var/lib/lattice-security/lattice-security.db"@,
            },
            r.estimator_url@ == match estimator_url {
                Some(u) => u@,
                None => "http://estimator-api:8000/"@,
            },
            r.poll_after_seconds == 1,
            match r.api_token {
                Some(t) => present(api_token) == Some(t@),
                None => present(api_token) is None,
            },
            match r.approximation_model_path {
                Some(p) => present(approximation_model_path) == Some(p@),
                None => present(approximation_model_path) is None,
            },
    {
        AppConfig {
            bind: match bind {
                Some(b) => b,
                None => String::from_str("127.0.0.1:8080"),
            },
            database_path: match database_path {
                Some(d) => d,
                None => String::from_str("/var/lib/lattice-security/lattice-security.db"),
            },
            estimator_url: match estimator_url {
                Some(u) => u,
                None => String::from_str("http://estimator-api:8000/"),
            },
            poll_after_seconds: 1,
            api_token: non_empty(api_token),
            approximation_model_path: non_empty(approximation_model_path),
        }
    }
}

#[derive(Debug, PartialEq, Eq)]
pub enum RunState {
    Pending { staged_at: String },
    Queued { queued_at: String },
    Running { started_at: String, heartbeat_at: String },
    CancelRequested { requested_at: String },
    Cancelled { finished_at: String },
    Completed { finished_at: String },
    Partial { finished_at: String },
    TimedOut { finished_at: String },
    Interrupted { interrupted_at: String },
    Failed { finished_at: String, code: String, message: String },
}

impl Clone for RunState {
    fn clone(&self) -> (r: Self)
        ensures
            r == *self,
    {
        match self {
            RunState::Pending { staged_at } => RunState::Pending { staged_at: staged_at.clone() },
            RunState::Queued { queued_at } => RunState::Queued { queued_at: queued_at.clone() },
            RunState::Running { started_at, heartbeat_at } => RunState::Running {
                started_at: started_at.clone(),
                heartbeat_at: heartbeat_at.clone(),
            },
            RunState::CancelRequested { requested_at } => RunState::CancelRequested {
                requested_at: requested_at.clone(),
            },
            RunState::Cancelled { finished_at } => RunState::Cancelled {
                finished_at: finished_at.clone(),
            },
            RunState::Completed { finished_at } => RunState::Completed {
                finished_at: finished_at.clone(),
            },
            RunState::Partial { finished_at } => RunState::Partial {
                finished_at: finished_at.clone(),
            },
            RunState::TimedOut { finished_at } => RunState::TimedOut {
                finished_at: finished_at.clone(),
            },
            RunState::Interrupted { interrupted_at } => RunState::Interrupted {
                interrupted_at: interrupted_at.clone(),
            },
            RunState::Failed { finished_at, code, message } => RunState::Failed {
                finished_at: finished_at.clone(),
                code: code.clone(),
                message: message.clone(),
            },
        }
    }
}

/// The snake-case name of a state, as stored and shown.
pub open spec fn state_kind(state: RunState) -> Seq<char> {
    match state {
        RunState::Pending { .. } => "pending"@,
        RunState::Queued { .. } => "queued"@,
        RunState::Running { .. } => "running"@,
        RunState::CancelRequested { .. } => "cancel_requested"@,
        RunState::Cancelled { .. } => "cancelled"@,
        RunState::Completed { .. } => "completed"@,
        RunState::Partial { .. } => "partial"@,
        RunState::TimedOut { .. } => "timed_out"@,
        RunState::Interrupted { .. } => "interrupted"@,
        RunState::Failed { .. } => "failed"@,
    }
}

/// Finished states: nothing more will happen to a run in one of them.
pub open spec fn is_terminal(state: RunState) -> bool {
    state is Cancelled || state is Completed || state is Partial || state is TimedOut
        || state is Failed
}

impl RunState {
    pub fn kind(&self) -> (r: &'static str)
        ensures
            r@ == state_kind(*self),
    {
        match self {
            RunState::Pending { .. } => "pending",
            RunState::Queued { .. } => "queued",
            RunState::Running { .. } => "running",
            RunState::CancelRequested { .. } => "cancel_requested",
            RunState::Cancelled { .. } => "cancelled",
            RunState::Completed { .. } => "completed",
            RunState::Partial { .. } => "partial",
            RunState::TimedOut { .. } => "timed_out",
            RunState::Interrupted { .. } => "interrupted",
            RunState::Failed { .. } => "failed",
        }
    }

    pub fn terminal(&self) -> (r: bool)
        ensures
            r == is_terminal(*self),
    {
        match self {
            RunState::Cancelled { .. } | RunState::Completed { .. } | RunState::Partial { .. }
            | RunState::TimedOut { .. } | RunState::Failed { .. } => true,
            _ => false,
        }
    }
}

#[derive(Clone, Debug)]
pub struct BatchSnapshot {
    pub batch_id: String,
    pub state: RunState,
    pub revision: u64,
    pub created_at: String,
    pub updated_at: String,
    pub poll_after_seconds: u64,
    pub job_ids: Vec<String>,
    pub report: Option<SecurityReportFile>,
}

#[derive(Clone, Debug)]
pub struct JobSnapshot {
    pub job_id: String,
    pub batch_id: String,
    pub case_id: String,
    pub case_index: usize,
    pub state: RunState,
    pub revision: u64,
    pub attempts: u32,
    pub created_at: String,
    pub updated_at: String,
}

/// A job that still waits or runs keeps its batch open; an interrupted job
/// does not.
pub open spec fn keeps_batch_open(state: RunState) -> bool {
    !is_terminal(state) && !(state is Interrupted)
}

/// The kind of state a batch settles in once none of its jobs keeps it open:
/// completed when every job completed, else timed out when one timed out,
/// else partial when some report exists, else cancelled when one was
/// cancelled, else failed.
pub open spec fn settled_batch_state(states: Seq<RunState>, has_reports: bool) -> Seq<char> {
    if forall|i: int| 0 <= i < states.len() ==> #[trigger] states[i] is Completed {
        "completed"@
    } else if exists|i: int| 0 <= i < states.len() && #[trigger] states[i] is TimedOut {
        "timed_out"@
    } else if has_reports {
        "partial"@
    } else if exists|i: int| 0 <= i < states.len() && #[trigger] states[i] is Cancelled {
        "cancelled"@
    } else {
        "failed"@
    }
}

/// When a finished state was reached.
pub open spec fn finished_at_of(state: RunState) -> Option<Seq<char>> {
    match state {
        RunState::Cancelled { finished_at } => Some(finished_at@),
        RunState::Completed { finished_at } => Some(finished_at@),
        RunState::Partial { finished_at } => Some(finished_at@),
        RunState::TimedOut { finished_at } => Some(finished_at@),
        RunState::Failed { finished_at, .. } => Some(finished_at@),
        _ => None,
    }
}

/// The state a batch takes from the states of its jobs, if it settles.
pub fn settle_batch(states: &Vec<RunState>, has_reports: bool, timestamp: &str) -> (r: Option<
    RunState,
>)
    ensures
        r is None <==> exists|i: int| 0 <= i < states@.len() && keeps_batch_open(#[trigger] states@[i]),
        r matches Some(state) ==> state_kind(state) == settled_batch_state(states@, has_reports),
        r matches Some(state) ==> (state matches RunState::Failed { code, message, .. } ==> code@
            == "batch_failed"@ && message@ == "no case produced a report"@),
        r matches Some(state) ==> finished_at_of(state) == Some(timestamp@),
{
    let mut all_completed = true;
    let mut any_timed_out = false;
    let mut any_cancelled = false;
    let mut i: usize = 0;
    while i < states.len()
        invariant
            i <= states.len(),
            forall|k: int| 0 <= k < i ==> !keeps_batch_open(#[trigger] states@[k]),
            all_completed == forall|k: int| 0 <= k < i ==> #[trigger] states@[k] is Completed,
            any_timed_out == exists|k: int| 0 <= k < i && #[trigger] states@[k] is TimedOut,
            any_cancelled == exists|k: int| 0 <= k < i && #[trigger] states@[k] is Cancelled,
        decreases states.len() - i,
    {
        let state = &states[i];
        let open = !state.terminal() && !matches!(state, RunState::Interrupted { .. });
        if open {
            return None;
        }
        let completed = matches!(state, RunState::Completed { .. });
        let timed_out = matches!(state, RunState::TimedOut { .. });
        let cancelled = matches!(state, RunState::Cancelled { .. });
        proof {
            if !completed {
                assert(!(states@[i as int] is Completed));
            }
            if timed_out {
                assert(states@[i as int] is TimedOut);
            }
            if cancelled {
                assert(states@[i as int] is Cancelled);
            }
        }
        all_completed = all_completed && completed;
        any_timed_out = any_timed_out || timed_out;
        any_cancelled = any_cancelled || cancelled;
        i = i + 1;
    }
    let at = String::from_str(timestamp);
    if all_completed {
        Some(RunState::Completed { finished_at: at })
    } else if any_timed_out {
        Some(RunState::TimedOut { finished_at: at })
    } else if has_reports {
        Some(RunState::Partial { finished_at: at })
    } else if any_cancelled {
        Some(RunState::Cancelled { finished_at: at })
    } else {
        Some(
            RunState::Failed {
                finished_at: at,
                code: String::from_str("batch_failed"),
                message: String::from_str("no case produced a report"),
            },
        )
    }
}

/// The name of a batch report: from the request's name when it has one.
pub open spec fn batch_report_name(batch_id: Seq<char>, name: Option<String>) -> Seq<char> {
    match name {
        Some(n) => n@ + " security report"@,
        None => "Security report "@ + batch_id,
    }
}

/// The exportable report of a settled batch: present only when some case
/// produced an entry.
pub fn batch_report(batch_id: &str, request: &EstimateRequest, reports: Vec<SecurityReportEntry>) -> (r: Option<
    SecurityReportFile,
>)
    ensures
        r is Some <==> reports@.len() > 0,
        r matches Some(file) ==> {
            &&& file.format@ == "lattice-security/security-report"@
            &&& file.version == 1
            &&& file.id@ == batch_id@ + "-report"@
            &&& file.name@ == batch_report_name(batch_id@, request.name)
            &&& file.parameter_set_id == request.parameter_set_id
            &&& file.reports@ == reports@
        },
{
    if reports.len() == 0 {
        return None;
    }
    let mut id = String::from_str(batch_id);
    id.append("-report");
    let name = match &request.name {
        Some(n) => {
            let mut text = n.clone();
            text.append(" security report");
            text
        },
        None => {
            let mut text = String::from_str("Security report ");
            text.append(batch_id);
            text
        },
    };
    let parameter_set_id = match &request.parameter_set_id {
        Some(p) => Some(p.clone()),
        None => None,
    };
    Some(
        SecurityReportFile {
            format: String::from_str("lattice-security/security-report"),
            version: 1,
            id,
            name,
            parameter_set_id,
            reports,
        },
    )
}

} // verus!
