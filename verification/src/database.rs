//! The store's rules: queue admission, the state a new job starts in,
//! cancellation, deletion and parameter-set versions, and the records the
//! store hands out.

use vstd::prelude::*;

use crate::error::ServiceError;
use crate::formats::{EstimateRequest, ParameterCase};
use crate::service::{is_terminal, state_kind, RunState, MAX_QUEUED_JOBS};
use crate::text::text_equals;

verus! {

/// A claimed job: its case, the request it belongs to and how often it was
/// attempted, this attempt included.
#[derive(Debug)]
pub struct JobWork {
    pub job_id: String,
    pub batch_id: String,
    pub case_index: usize,
    pub case: ParameterCase,
    pub request: EstimateRequest,
    pub attempts: u32,
}

/// The id and version under which a parameter set was stored.
#[derive(Clone, Debug, PartialEq, Eq)]
pub struct ImportedParameterSet {
    pub id: String,
    pub version: u64,
}

#[derive(Clone, Debug, PartialEq, Eq)]
pub struct ParameterSetSummary {
    pub id: String,
    pub name: String,
    pub version: u64,
    pub case_count: usize,
    pub created_at: String,
}

/// The kind a transition gives.
pub open spec fn kind_is(r: Option<&'static str>, kind: Seq<char>) -> bool {
    r matches Some(k) && k@ == kind
}

/// Kinds of finished runs, as stored.
pub open spec fn finished_kind(kind: Seq<char>) -> bool {
    kind == "completed"@ || kind == "partial"@ || kind == "timed_out"@ || kind == "cancelled"@
        || kind == "failed"@
}

/// The stored kinds are distinct texts.
proof fn lemma_kinds_distinct()
    ensures
        "pending"@.len() == 7 && "pending"@[0] == 'p' && "pending"@[1] == 'e',
        "queued"@.len() == 6 && "queued"@[0] == 'q',
        "running"@.len() == 7 && "running"@[0] == 'r',
        "cancel_requested"@.len() == 16 && "cancel_requested"@[0] == 'c',
        "cancelled"@.len() == 9 && "cancelled"@[0] == 'c' && "cancelled"@[1] == 'a',
        "completed"@.len() == 9 && "completed"@[0] == 'c' && "completed"@[1] == 'o',
        "partial"@.len() == 7 && "partial"@[0] == 'p' && "partial"@[1] == 'a',
        "timed_out"@.len() == 9 && "timed_out"@[0] == 't',
        "interrupted"@.len() == 11 && "interrupted"@[0] == 'i',
        "failed"@.len() == 6 && "failed"@[0] == 'f',
{
    reveal_strlit("pending");
    reveal_strlit("queued");
    reveal_strlit("running");
    reveal_strlit("cancel_requested");
    reveal_strlit("cancelled");
    reveal_strlit("completed");
    reveal_strlit("partial");
    reveal_strlit("timed_out");
    reveal_strlit("interrupted");
    reveal_strlit("failed");
}

/// A stored kind is finished exactly when its state is terminal.
pub proof fn lemma_finished_kinds_are_terminal(state: RunState)
    ensures
        finished_kind(state_kind(state)) == is_terminal(state),
{
    lemma_kinds_distinct();
}

/// Distinct kinds of state are stored under distinct texts: a state's kind
/// tells its variant.
pub proof fn lemma_state_kinds_distinct(a: RunState, b: RunState)
    requires
        state_kind(a) == state_kind(b),
    ensures
        (a is Pending) == (b is Pending),
        (a is Queued) == (b is Queued),
        (a is Running) == (b is Running),
        (a is CancelRequested) == (b is CancelRequested),
        (a is Cancelled) == (b is Cancelled),
        (a is Completed) == (b is Completed),
        (a is Partial) == (b is Partial),
        (a is TimedOut) == (b is TimedOut),
        (a is Interrupted) == (b is Interrupted),
        (a is Failed) == (b is Failed),
{
    lemma_kinds_distinct();
}

pub fn is_finished_kind(kind: &str) -> (r: bool)
    ensures
        r == finished_kind(kind@),
{
    text_equals(kind, "completed") || text_equals(kind, "partial") || text_equals(kind, "timed_out")
        || text_equals(kind, "cancelled") || text_equals(kind, "failed")
}

/// Only finished batches can be deleted.
pub fn deletion_check(batch_id: &str, kind: &str) -> (r: Result<(), ServiceError>)
    ensures
        r is Ok <==> finished_kind(kind@),
        r matches Err(e) ==> e matches ServiceError::Conflict(m) && m@ == "batch '"@ + batch_id@
            + "' is not finished; cancel it before deleting"@,
{
    if is_finished_kind(kind) {
        Ok(())
    } else {
        let mut m = String::from_str("batch '");
        m.append(batch_id);
        m.append("' is not finished; cancel it before deleting");
        Err(ServiceError::Conflict(m))
    }
}

/// Free queue places when `active` jobs are queued or running.
pub open spec fn free_slots(active: usize) -> usize {
    if active >= MAX_QUEUED_JOBS {
        0
    } else {
        (MAX_QUEUED_JOBS - active) as usize
    }
}

pub fn promotion_slots(active: usize) -> (r: usize)
    ensures
        r == free_slots(active),
{
    if active >= MAX_QUEUED_JOBS {
        0
    } else {
        MAX_QUEUED_JOBS - active
    }
}

/// Admits a batch of `case_count` cases while `active` jobs are queued or
/// running: a batch that does not fit is refused unless it may be staged.
/// Returns the free queue places.
pub fn admit_batch(active: usize, case_count: usize, allow_staging: bool) -> (r: Result<
    usize,
    ServiceError,
>)
    ensures
        !allow_staging && active + case_count > MAX_QUEUED_JOBS ==> (r matches Err(e) && e is QueueFull),
        allow_staging || active + case_count <= MAX_QUEUED_JOBS ==> r == Ok::<usize, ServiceError>(
            free_slots(active),
        ),
{
    if !allow_staging && (active > MAX_QUEUED_JOBS || case_count > MAX_QUEUED_JOBS - active) {
        return Err(ServiceError::QueueFull);
    }
    Ok(promotion_slots(active))
}

/// The state a new job starts in: queued, or pending where a staged batch
/// has no free queue place for it.
pub fn initial_job_state(allow_staging: bool, case_index: usize, queue_slots: usize, timestamp: String) -> (r:
    RunState)
    ensures
        allow_staging && case_index >= queue_slots ==> r == (RunState::Pending { staged_at: timestamp }),
        !(allow_staging && case_index >= queue_slots) ==> r == (RunState::Queued {
            queued_at: timestamp,
        }),
{
    if allow_staging && case_index >= queue_slots {
        RunState::Pending { staged_at: timestamp }
    } else {
        RunState::Queued { queued_at: timestamp }
    }
}

/// The version a parameter set is stored under: one more than the current
/// one, which may be replaced only when asked; one for a new set.
pub fn import_version(external_id: &str, current: Option<i64>, replace: bool) -> (r: Result<
    i64,
    ServiceError,
>)
    requires
        current matches Some(v) ==> v < i64::MAX,
    ensures
        current is Some && !replace ==> (r matches Err(e) && e matches ServiceError::Conflict(m) && m@
            == "parameter set '"@ + external_id@ + "' already exists"@),
        current is None ==> r == Ok::<i64, ServiceError>(1),
        current is Some && replace ==> r == Ok::<i64, ServiceError>((current->0 + 1) as i64),
{
    match current {
        Some(v) => {
            if !replace {
                let mut m = String::from_str("parameter set '");
                m.append(external_id);
                m.append("' already exists");
                return Err(ServiceError::Conflict(m));
            }
            Ok(v + 1)
        },
        None => Ok(1),
    }
}

/// What a cancel request makes of a job: waiting jobs are cancelled,
/// running ones are asked to stop, others stay.
pub fn cancelled_job_kind(kind: &str) -> (r: Option<&'static str>)
    ensures
        (kind@ == "pending"@ || kind@ == "queued"@ || kind@ == "interrupted"@) ==> kind_is(r, "cancelled"@),
        kind@ == "running"@ ==> kind_is(r, "cancel_requested"@),
        !(kind@ == "pending"@ || kind@ == "queued"@ || kind@ == "interrupted"@ || kind@
            == "running"@) ==> r is None,
{
    proof {
        lemma_kinds_distinct();
    }
    if text_equals(kind, "pending") || text_equals(kind, "queued") || text_equals(kind, "interrupted") {
        Some("cancelled")
    } else if text_equals(kind, "running") {
        Some("cancel_requested")
    } else {
        None
    }
}

/// What a restart makes of a job: stop requests become cancellations,
/// a running job is queued again if it has a retry left, else interrupted.
pub fn recovered_job_kind(kind: &str, attempts: i64) -> (r: Option<&'static str>)
    ensures
        kind@ == "cancel_requested"@ ==> kind_is(r, "cancelled"@),
        kind@ == "running"@ && attempts < 2 ==> kind_is(r, "queued"@),
        kind@ == "running"@ && attempts >= 2 ==> kind_is(r, "interrupted"@),
        kind@ != "cancel_requested"@ && kind@ != "running"@ ==> r is None,
{
    proof {
        lemma_kinds_distinct();
    }
    if text_equals(kind, "cancel_requested") {
        Some("cancelled")
    } else if text_equals(kind, "running") {
        if attempts < 2 {
            Some("queued")
        } else {
            Some("interrupted")
        }
    } else {
        None
    }
}

/// What a restart makes of a batch: stop requests become cancellations,
/// a running batch is queued again if one of its jobs is, else interrupted.
pub fn recovered_batch_kind(kind: &str, has_queued_job: bool) -> (r: Option<&'static str>)
    ensures
        kind@ == "cancel_requested"@ ==> kind_is(r, "cancelled"@),
        kind@ == "running"@ && has_queued_job ==> kind_is(r, "queued"@),
        kind@ == "running"@ && !has_queued_job ==> kind_is(r, "interrupted"@),
        kind@ != "cancel_requested"@ && kind@ != "running"@ ==> r is None,
{
    proof {
        lemma_kinds_distinct();
    }
    if text_equals(kind, "cancel_requested") {
        Some("cancelled")
    } else if text_equals(kind, "running") {
        if has_queued_job {
            Some("queued")
        } else {
            Some("interrupted")
        }
    } else {
        None
    }
}

/// A running job's state with a new heartbeat.
pub fn heartbeat_state(current: &RunState, timestamp: String) -> (r: Result<RunState, ServiceError>)
    ensures
        current is Running ==> r == Ok::<RunState, ServiceError>(
            RunState::Running { started_at: current->started_at, heartbeat_at: timestamp },
        ),
        !(current is Running) ==> (r matches Err(e) && e matches ServiceError::Database(m) && m@
            == "running job has inconsistent state payload"@),
{
    match current {
        RunState::Running { started_at, .. } => Ok(
            RunState::Running { started_at: started_at.clone(), heartbeat_at: timestamp },
        ),
        _ => Err(
            ServiceError::Database(String::from_str("running job has inconsistent state payload")),
        ),
    }
}

/// The message of a stored integer that does not fit the type it is read as.
pub open spec fn conversion_message() -> Seq<char> {
    "out of range integral type conversion attempted"@
}

/// What claiming a stored job comes to: nothing unless it is queued; else
/// an error where its case index does not name one of the request's cases
/// or its attempt count does not fit, and otherwise its running state from
/// `now`, the case index and the attempt count one higher.
pub open spec fn claim_outcome(
    state_kind: Seq<char>,
    attempts: i64,
    case_index: i64,
    case_count: usize,
    now: Seq<char>,
    r: Result<Option<(RunState, usize, u32)>, ServiceError>,
) -> bool {
    if state_kind != "queued"@ {
        r matches Ok(None)
    } else if case_index < 0 || case_index > usize::MAX {
        r matches Err(e) && e matches ServiceError::Database(m) && m@ == conversion_message()
    } else if case_index >= case_count {
        r matches Err(e) && e matches ServiceError::Database(m) && m@
            == "stored case index is invalid"@
    } else if attempts + 1 < 0 || attempts + 1 > u32::MAX {
        r matches Err(e) && e matches ServiceError::Database(m) && m@ == conversion_message()
    } else {
        r matches Ok(Some((state, index, count))) && {
            &&& state matches RunState::Running { started_at, heartbeat_at } && started_at@ == now
                && heartbeat_at@ == now
            &&& index == case_index
            &&& count == attempts + 1
        }
    }
}

/// Claims a stored job for running.
pub fn claim_step(state_kind: &str, attempts: i64, case_index: i64, case_count: usize, now: String) -> (r:
    Result<Option<(RunState, usize, u32)>, ServiceError>)
    ensures
        claim_outcome(state_kind@, attempts, case_index, case_count, now@, r),
{
    if !text_equals(state_kind, "queued") {
        return Ok(None);
    }
    if case_index < 0 || case_index as u64 > usize::MAX as u64 {
        return Err(ServiceError::Database(String::from_str("out of range integral type conversion attempted")));
    }
    let index = case_index as usize;
    if index >= case_count {
        return Err(ServiceError::Database(String::from_str("stored case index is invalid")));
    }
    if attempts < -1 || attempts >= 4294967295 {
        return Err(ServiceError::Database(String::from_str("out of range integral type conversion attempted")));
    }
    let count = (attempts + 1) as u32;
    let state = RunState::Running { started_at: now.clone(), heartbeat_at: now };
    Ok(Some((state, index, count)))
}

} // verus!
