//! The command-line client's commands: which HTTP request each command
//! makes, and how ids are written into paths.

use vstd::prelude::*;

use crate::text::{push_char, text_equals};

verus! {

#[derive(Clone, Copy, Debug, PartialEq, Eq, Structural)]
pub enum CliMethod {
    Get,
    Post,
    Delete,
}

/// The request a command makes: method, path below the service's base URL
/// and, where it sends one, the JSON file to send.
#[derive(Debug, PartialEq, Eq)]
pub struct CliCommand {
    pub method: CliMethod,
    pub path: String,
    pub body_file: Option<String>,
    /// Arguments were left over after the command's own.
    pub extra: bool,
}

pub open spec fn usage_text() -> Seq<char> {
    "usage: lattice-security-cli <health|batches|batch ID|cancel ID|rerun ID|delete-batch ID|report ID|estimate FILE|parameter-sets|parameter-set ID|delete-parameter-set ID|import FILE [--replace]>"@
}

pub fn usage() -> (r: String)
    ensures
        r@ == usage_text(),
{
    String::from_str(
        "usage: lattice-security-cli <health|batches|batch ID|cancel ID|rerun ID|delete-batch ID|report ID|estimate FILE|parameter-sets|parameter-set ID|delete-parameter-set ID|import FILE [--replace]>",
    )
}

/// Bytes written as themselves in a path segment.
pub open spec fn unreserved(b: u8) -> bool {
    (65 <= b <= 90) || (97 <= b <= 122) || (48 <= b <= 57) || b == 45 || b == 46 || b == 95 || b == 126
}

/// Upper-case hexadecimal digit of a value below 16.
pub open spec fn upper_hex(d: nat) -> char {
    if d < 10 {
        crate::text::digit_char(d)
    } else if d == 10 {
        'A'
    } else if d == 11 {
        'B'
    } else if d == 12 {
        'C'
    } else if d == 13 {
        'D'
    } else if d == 14 {
        'E'
    } else {
        'F'
    }
}

/// A byte in a path segment: itself when unreserved, else `%` and two
/// upper-case hexadecimal digits.
pub open spec fn encoded_byte(b: u8) -> Seq<char> {
    if unreserved(b) {
        seq![b as char]
    } else {
        seq!['%', upper_hex((b / 16) as nat), upper_hex((b % 16) as nat)]
    }
}

pub open spec fn encoded_bytes(bytes: Seq<u8>) -> Seq<char>
    decreases bytes.len(),
{
    if bytes.len() == 0 {
        Seq::empty()
    } else {
        encoded_bytes(bytes.drop_last()) + encoded_byte(bytes.last())
    }
}

/// Percent-encoding of a text's UTF-8 bytes.
pub open spec fn encoded(value: Seq<char>) -> Seq<char> {
    encoded_bytes(vstd::utf8::encode_utf8(value))
}

fn upper_hex_char(d: u8) -> (c: char)
    requires
        d < 16,
    ensures
        c == upper_hex(d as nat),
{
    if d == 0 {
        '0'
    } else if d == 1 {
        '1'
    } else if d == 2 {
        '2'
    } else if d == 3 {
        '3'
    } else if d == 4 {
        '4'
    } else if d == 5 {
        '5'
    } else if d == 6 {
        '6'
    } else if d == 7 {
        '7'
    } else if d == 8 {
        '8'
    } else if d == 9 {
        '9'
    } else if d == 10 {
        'A'
    } else if d == 11 {
        'B'
    } else if d == 12 {
        'C'
    } else if d == 13 {
        'D'
    } else if d == 14 {
        'E'
    } else {
        'F'
    }
}

/// Writes a text into a path segment.
pub fn encode(value: &str) -> (r: String)
    ensures
        r@ == encoded(value@),
{
    let bytes = value.as_bytes();
    let mut r = String::new();
    let mut i: usize = 0;
    while i < bytes.len()
        invariant
            i <= bytes.len(),
            bytes@ == vstd::utf8::encode_utf8(value@),
            r@ == encoded_bytes(bytes@.take(i as int)),
        decreases bytes.len() - i,
    {
        let b = bytes[i];
        assert(bytes@.take(i + 1).drop_last() =~= bytes@.take(i as int));
        let ghost before = r@;
        if (65 <= b && b <= 90) || (97 <= b && b <= 122) || (48 <= b && b <= 57) || b == 45 || b == 46
            || b == 95 || b == 126 {
            push_char(&mut r, b as char);
        } else {
            push_char(&mut r, '%');
            push_char(&mut r, upper_hex_char(b / 16));
            push_char(&mut r, upper_hex_char(b % 16));
        }
        assert(r@ =~= before + encoded_byte(b));
        i = i + 1;
    }
    assert(bytes@.take(bytes.len() as int) =~= bytes@);
    r
}

/// `prefix/ID` with the id encoded.
pub fn resource(prefix: &str, id: &str) -> (r: String)
    ensures
        r@ == prefix@ + "/"@ + encoded(id@),
{
    let mut r = String::from_str(prefix);
    r.append("/");
    let e = encode(id);
    r.append(e.as_str());
    r
}

/// `prefix/ID/suffix` with the id encoded.
pub fn resource_suffix(prefix: &str, id: &str, suffix: &str) -> (r: String)
    ensures
        r@ == prefix@ + "/"@ + encoded(id@) + "/"@ + suffix@,
{
    let mut r = resource(prefix, id);
    r.append("/");
    r.append(suffix);
    r
}

/// `missing NAME` and the usage.
pub open spec fn missing_text(name: Seq<char>) -> Seq<char> {
    "missing "@ + name + "\n"@ + usage_text()
}

fn missing(name: &str) -> (r: String)
    ensures
        r@ == missing_text(name@),
{
    let mut r = String::from_str("missing ");
    r.append(name);
    r.append("\n");
    let u = usage();
    r.append(u.as_str());
    r
}

/// The commands that take an id and the request each makes: method,
/// collection and, where there is one, the suffix after the id.
pub open spec fn id_command(command: Seq<char>) -> Option<(CliMethod, Seq<char>, Option<Seq<char>>, Seq<char>)> {
    if command == "batch"@ {
        Some((CliMethod::Get, "v1/batches"@, None, "batch id"@))
    } else if command == "cancel"@ {
        Some((CliMethod::Post, "v1/batches"@, Some("cancel"@), "batch id"@))
    } else if command == "rerun"@ {
        Some((CliMethod::Post, "v1/batches"@, Some("rerun"@), "batch id"@))
    } else if command == "delete-batch"@ {
        Some((CliMethod::Delete, "v1/batches"@, None, "batch id"@))
    } else if command == "report"@ {
        Some((CliMethod::Get, "v1/batches"@, Some("export"@), "batch id"@))
    } else if command == "parameter-set"@ {
        Some((CliMethod::Get, "v1/parameter-sets"@, None, "parameter-set id"@))
    } else if command == "delete-parameter-set"@ {
        Some((CliMethod::Delete, "v1/parameter-sets"@, None, "parameter-set id"@))
    } else {
        None
    }
}

/// The commands that take nothing and the path each gets.
pub open spec fn plain_command(command: Seq<char>) -> Option<Seq<char>> {
    if command == "health"@ {
        Some("healthz"@)
    } else if command == "batches"@ {
        Some("v1/batches"@)
    } else if command == "parameter-sets"@ {
        Some("v1/parameter-sets"@)
    } else {
        None
    }
}

/// Position of the first `--replace` among the arguments from `from` on.
pub open spec fn replace_flag_at(args: Seq<Seq<char>>, from: int) -> Option<int> {
    if exists|k: int| from <= k < args.len() && args[k] == "--replace"@ {
        Some(choose|k: int| from <= k < args.len() && args[k] == "--replace"@ && forall|j: int| from <= j < k ==> args[j] != "--replace"@)
    } else {
        None
    }
}

/// A request that a command line asks for: method, path, body file, and
/// whether arguments were left over after it.
pub open spec fn asked(method: CliMethod, path: Seq<char>, body: Option<Seq<char>>, extra: bool) -> Result<(CliMethod, Seq<char>, Option<Seq<char>>, bool), Seq<char>> {
    Ok((method, path, body, extra))
}

/// A command line refused with a message.
pub open spec fn refused(message: Seq<char>) -> Result<(CliMethod, Seq<char>, Option<Seq<char>>, bool), Seq<char>> {
    Err(message)
}

/// What a command line asks for, or the message to print: the command comes
/// first, then its argument if it takes one; `import` scans the rest for
/// `--replace`. Arguments left over are only noted here: they are refused
/// once the request file has been read (see `accept_command`).
pub open spec fn command_result(args: Seq<Seq<char>>) -> Result<(CliMethod, Seq<char>, Option<Seq<char>>, bool), Seq<char>> {
    if args.len() == 0 {
        refused(usage_text())
    } else {
        let command = args[0];
        if plain_command(command) is Some {
            asked(CliMethod::Get, plain_command(command)->0, None, args.len() > 1)
        } else if id_command(command) is Some {
            let (method, prefix, suffix, name) = id_command(command)->0;
            if args.len() < 2 {
                refused(missing_text(name))
            } else {
                let path = match suffix {
                    None => prefix + "/"@ + encoded(args[1]),
                    Some(s) => prefix + "/"@ + encoded(args[1]) + "/"@ + s,
                };
                asked(method, path, None, args.len() > 2)
            }
        } else if command == "estimate"@ {
            if args.len() < 2 {
                refused(missing_text("request file"@))
            } else {
                asked(CliMethod::Post, "v1/estimates"@, Some(args[1]), args.len() > 2)
            }
        } else if command == "import"@ {
            if args.len() < 2 {
                refused(missing_text("parameter-set file"@))
            } else {
                match replace_flag_at(args, 2) {
                    Some(k) => asked(CliMethod::Post, "v1/parameter-sets/import?conflict=replace"@, Some(args[1]), k + 1 < args.len()),
                    None => asked(CliMethod::Post, "v1/parameter-sets/import?conflict=reject"@, Some(args[1]), false),
                }
            }
        } else {
            refused(usage_text())
        }
    }
}

pub open spec fn texts_of(args: Seq<String>) -> Seq<Seq<char>> {
    args.map_values(|a: String| a@)
}

pub open spec fn command_view(r: Result<CliCommand, String>) -> Result<(CliMethod, Seq<char>, Option<Seq<char>>, bool), Seq<char>> {
    match r {
        Ok(c) => Ok((c.method, c.path@, match c.body_file {
            Some(f) => Some(f@),
            None => None,
        }, c.extra)),
        Err(m) => Err(m@),
    }
}

fn id_command_of(command: &str) -> (r: Option<(CliMethod, &'static str, Option<&'static str>, &'static str)>)
    ensures
        match id_command(command@) {
            None => r is None,
            Some(t) => r matches Some(x) && x.0 == t.0 && x.1@ == t.1 && x.3@ == t.3 && match (x.2, t.2) {
                (None, None) => true,
                (Some(a), Some(b)) => a@ == b,
                _ => false,
            },
        },
{
    if text_equals(command, "batch") {
        Some((CliMethod::Get, "v1/batches", None, "batch id"))
    } else if text_equals(command, "cancel") {
        Some((CliMethod::Post, "v1/batches", Some("cancel"), "batch id"))
    } else if text_equals(command, "rerun") {
        Some((CliMethod::Post, "v1/batches", Some("rerun"), "batch id"))
    } else if text_equals(command, "delete-batch") {
        Some((CliMethod::Delete, "v1/batches", None, "batch id"))
    } else if text_equals(command, "report") {
        Some((CliMethod::Get, "v1/batches", Some("export"), "batch id"))
    } else if text_equals(command, "parameter-set") {
        Some((CliMethod::Get, "v1/parameter-sets", None, "parameter-set id"))
    } else if text_equals(command, "delete-parameter-set") {
        Some((CliMethod::Delete, "v1/parameter-sets", None, "parameter-set id"))
    } else {
        None
    }
}

fn plain_command_of(command: &str) -> (r: Option<&'static str>)
    ensures
        match plain_command(command@) {
            None => r is None,
            Some(p) => r matches Some(x) && x@ == p,
        },
{
    if text_equals(command, "health") {
        Some("healthz")
    } else if text_equals(command, "batches") {
        Some("v1/batches")
    } else if text_equals(command, "parameter-sets") {
        Some("v1/parameter-sets")
    } else {
        None
    }
}

/// The request a command line asks for; the arguments follow the program
/// name. Arguments left over are noted in `extra`, not refused here.
pub fn parse_command(args: &Vec<String>) -> (r: Result<CliCommand, String>)
    ensures
        command_view(r) == command_result(texts_of(args@)),
{
    let ghost a = texts_of(args@);
    if args.len() == 0 {
        return Err(usage());
    }
    let command = args[0].as_str();
    assert(a[0] == command@);
    if let Some(path) = plain_command_of(command) {
        return Ok(CliCommand { method: CliMethod::Get, path: String::from_str(path), body_file: None, extra: args.len() > 1 });
    }
    if let Some((method, prefix, suffix, name)) = id_command_of(command) {
        if args.len() < 2 {
            return Err(missing(name));
        }
        assert(a[1] == args@[1]@);
        let path = match suffix {
            None => resource(prefix, args[1].as_str()),
            Some(s) => resource_suffix(prefix, args[1].as_str(), s),
        };
        return Ok(CliCommand { method, path, body_file: None, extra: args.len() > 2 });
    }
    if text_equals(command, "estimate") {
        if args.len() < 2 {
            return Err(missing("request file"));
        }
        return Ok(
            CliCommand {
                method: CliMethod::Post,
                path: String::from_str("v1/estimates"),
                body_file: Some(args[1].clone()),
                extra: args.len() > 2,
            },
        );
    }
    if text_equals(command, "import") {
        if args.len() < 2 {
            return Err(missing("parameter-set file"));
        }
        let file = args[1].clone();
        let mut k: usize = 2;
        while k < args.len()
            invariant
                2 <= k <= args.len(),
                a == texts_of(args@),
                a[0] == "import"@,
                a[0] != "estimate"@,
                plain_command(a[0]) is None,
                id_command(a[0]) is None,
                file@ == a[1],
                forall|j: int| 2 <= j < k ==> a[j] != "--replace"@,
            decreases args.len() - k,
        {
            if text_equals(args[k].as_str(), "--replace") {
                assert(a[k as int] == "--replace"@);
                assert(replace_flag_at(a, 2) == Some(k as int)) by {
                    let c = choose|c: int| 2 <= c < a.len() && a[c] == "--replace"@ && forall|j: int| 2 <= j < c ==> a[j] != "--replace"@;
                    if c < k {
                    } else if c > k {
                        assert(a[k as int] != "--replace"@);
                    }
                }
                return Ok(
                    CliCommand {
                        method: CliMethod::Post,
                        path: String::from_str("v1/parameter-sets/import?conflict=replace"),
                        body_file: Some(file),
                        extra: k + 1 < args.len(),
                    },
                );
            }
            k = k + 1;
        }
        return Ok(
            CliCommand {
                method: CliMethod::Post,
                path: String::from_str("v1/parameter-sets/import?conflict=reject"),
                body_file: Some(file),
                extra: false,
            },
        );
    }
    Err(usage())
}

/// Refuses, with the usage, a command that had arguments left over; the
/// client calls this once the request file, if any, has been read.
pub fn accept_command(command: CliCommand) -> (r: Result<CliCommand, String>)
    ensures
        command.extra ==> (r matches Err(m) && m@ == usage_text()),
        !command.extra ==> r == Ok::<CliCommand, String>(command),
{
    if command.extra {
        Err(usage())
    } else {
        Ok(command)
    }
}

} // verus!
