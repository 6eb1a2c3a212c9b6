//! Startup: which directory is served, whether the user has to confirm it,
//! which file is the entry, on which port the server listens, what it prints,
//! and the host name that Tailscale reports.

use crate::paths::{join_path, joined, parent_of, parent_text, path_within, within};
use crate::serve::MAX_PORT_ATTEMPTS;
use crate::text::{
    chars_are, chars_of, decimal, lowercase_of, push_chars, push_decimal, string_of, trim_chars,
    trimmed,
};
use vstd::prelude::*;
use vstd::string::*;

verus! {

// ---------------------------------------------------------------------------
// The served root
// ---------------------------------------------------------------------------

/// Where the served root comes from.
#[derive(Debug)]
pub enum RootSelection {
    /// The entry lies under the working directory, which is served.
    WorkingDirectory,
    /// The entry lies elsewhere: this directory is served, and the user is
    /// warned and asked.
    Outside { new_root: String },
}

/// The directory that is served for an entry outside the working directory:
/// the entry where it is a directory, else its parent, else the entry itself.
pub open spec fn outside_root(canonical_entry: Seq<char>, entry_is_dir: bool) -> Seq<char> {
    if entry_is_dir {
        canonical_entry
    } else {
        match parent_text(canonical_entry) {
            Some(p) => p,
            None => canonical_entry,
        }
    }
}

/// Selects the served root. Both paths are canonical, so a working directory
/// that is reached through a symbolic link is compared by where it really is.
pub fn select_root(canonical_entry: &str, canonical_cwd: &str, entry_is_dir: bool) -> (r:
    RootSelection)
    ensures
        within(canonical_entry@, canonical_cwd@) ==> r is WorkingDirectory,
        !within(canonical_entry@, canonical_cwd@) ==> (r matches RootSelection::Outside {
            new_root,
        } && new_root@ == outside_root(canonical_entry@, entry_is_dir)),
{
    if path_within(canonical_entry, canonical_cwd) {
        RootSelection::WorkingDirectory
    } else if entry_is_dir {
        RootSelection::Outside { new_root: canonical_entry.to_owned() }
    } else {
        match parent_of(canonical_entry) {
            Some(p) => RootSelection::Outside { new_root: p },
            None => RootSelection::Outside { new_root: canonical_entry.to_owned() },
        }
    }
}

/// The question that a user at a terminal is asked.
pub const CONFIRM_PROMPT: &'static str = "Proceed? [y/N] ";

/// The three lines of the warning for a root outside the working directory.
pub fn outside_root_warning(canonical_root: &str) -> (lines: Vec<String>)
    ensures
        lines.len() == 3,
        lines@[0]@ == "WARNING: Serving files from outside your current working directory."@,
        lines@[1]@ == "serve_root: "@ + canonical_root@,
        lines@[2]@
            == "Any file under this directory may be accessible to others on your network."@,
{
    let mut lines: Vec<String> = Vec::new();
    lines.push("WARNING: Serving files from outside your current working directory.".to_owned());
    let mut second = String::new();
    second.append("serve_root: ");
    second.append(canonical_root);
    proof {
        assert(second@ =~= "serve_root: "@ + canonical_root@);
    }
    lines.push(second);
    lines.push(
        "Any file under this directory may be accessible to others on your network.".to_owned(),
    );
    lines
}

/// What is said when the user does not agree.
pub const ABORTED: &'static str = "Aborted.";

/// What the answer to the question means.
#[derive(Debug, Clone, Copy, PartialEq, Eq, Structural)]
pub enum Confirmation {
    /// Nothing could be read: there is nobody to ask, the server proceeds.
    ProceedUnasked,
    /// The user agreed.
    Proceed,
    /// The user did not agree.
    Abort,
}

/// Whether a lower-cased, trimmed answer agrees.
pub open spec fn agrees(answer: Seq<char>) -> bool {
    answer == "y"@ || answer == "yes"@
}

/// Reads a trimmed and lower-cased answer.
pub fn answer_agrees(answer: &str) -> (r: bool)
    ensures
        r == agrees(answer@),
{
    let a = chars_of(answer);
    chars_are(&a, "y") || chars_are(&a, "yes")
}

/// Reads the answer to the question. `bytes_read` is what reading a line
/// from standard input returned, zero at the end of input.
pub fn confirm(bytes_read: usize, answer: &str) -> (r: Confirmation)
    ensures
        r == if bytes_read == 0 {
            Confirmation::ProceedUnasked
        } else if agrees(lowercase_of(trimmed(answer@))) {
            Confirmation::Proceed
        } else {
            Confirmation::Abort
        },
{
    if bytes_read == 0 {
        return Confirmation::ProceedUnasked;
    }
    let a = chars_of(answer);
    let t = trim_chars(&a);
    let ts = string_of(&t);
    let low = ts.as_str().to_lowercase();
    if answer_agrees(low.as_str()) {
        Confirmation::Proceed
    } else {
        Confirmation::Abort
    }
}

// ---------------------------------------------------------------------------
// The entry file
// ---------------------------------------------------------------------------

/// The message for a directory that holds neither index file.
pub open spec fn no_index_message(dir: Seq<char>) -> Seq<char> {
    "no README.md or index.md found in directory '"@ + dir + "'"@
}

/// The message for an entry that does not exist.
pub open spec fn entry_missing_message(file: Seq<char>, cause: Seq<char>) -> Seq<char> {
    "entry '"@ + file + "' not found: "@ + cause
}

/// Builds the message for an entry that does not exist.
pub fn entry_not_found_message(file: &str, cause: &str) -> (m: String)
    ensures
        m@ == entry_missing_message(file@, cause@),
{
    let mut m = String::new();
    m.append("entry '");
    m.append(file);
    m.append("' not found: ");
    m.append(cause);
    proof {
        assert(m@ =~= entry_missing_message(file@, cause@));
    }
    m
}

/// Selects the entry file: the entry itself where it is a file; for a
/// directory its `README.md`, else its `index.md`, else nothing.
pub fn select_entry_file(
    canonical_entry: &str,
    entry_is_dir: bool,
    readme_is_file: bool,
    index_is_file: bool,
) -> (r: Result<String, String>)
    ensures
        !entry_is_dir ==> (r matches Ok(p) && p@ == canonical_entry@),
        entry_is_dir && readme_is_file ==> (r matches Ok(p) && p@ == joined(
            canonical_entry@,
            "README.md"@,
        )),
        entry_is_dir && !readme_is_file && index_is_file ==> (r matches Ok(p) && p@ == joined(
            canonical_entry@,
            "index.md"@,
        )),
        entry_is_dir && !readme_is_file && !index_is_file ==> (r matches Err(m) && m@
            == no_index_message(canonical_entry@)),
{
    if !entry_is_dir {
        Ok(canonical_entry.to_owned())
    } else if readme_is_file {
        Ok(join_path(canonical_entry, "README.md"))
    } else if index_is_file {
        Ok(join_path(canonical_entry, "index.md"))
    } else {
        let mut m = String::new();
        m.append("no README.md or index.md found in directory '");
        m.append(canonical_entry);
        m.append("'");
        proof {
            assert(m@ =~= no_index_message(canonical_entry@));
        }
        Err(m)
    }
}

// ---------------------------------------------------------------------------
// The port
// ---------------------------------------------------------------------------

/// How an attempt to bind went.
#[derive(Debug, Clone)]
pub enum BindOutcome {
    /// The listener is bound.
    Bound,
    /// The address is in use.
    AddrInUse,
    /// Binding failed for another reason, with the system's message.
    Failed(String),
}

/// What follows an attempt to bind.
#[derive(Debug)]
pub enum BindStep {
    /// The server listens on this port.
    Bound(u16),
    /// Try this port next.
    Retry(u16),
    /// Give up with this message.
    GiveUp(String),
}

/// The port that the attempt with index `attempt` tries: each attempt one
/// higher than the last, wrapping around at the top.
pub open spec fn port_of_attempt(start_port: u16, attempt: u16) -> u16 {
    ((start_port + attempt) % 0x10000) as u16
}

/// Each attempt tries the port above the last one, and the port after the
/// highest is port zero.
pub proof fn lemma_attempts_move_one_port_up(start_port: u16, attempt: u16)
    requires
        attempt < u16::MAX,
    ensures
        port_of_attempt(start_port, (attempt + 1) as u16) == if port_of_attempt(
            start_port,
            attempt,
        ) == u16::MAX {
            0u16
        } else {
            (port_of_attempt(start_port, attempt) + 1) as u16
        },
        port_of_attempt(start_port, 0) == start_port,
{
}

/// The message after every attempt found its port in use.
pub open spec fn exhausted_message(start_port: u16) -> Seq<char> {
    "exhausted "@ + decimal(MAX_PORT_ATTEMPTS as nat) + " port candidates starting at "@
        + decimal(start_port as nat) + "; all ports in use"@
}

/// The message after an attempt failed for a reason other than a busy port.
pub open spec fn bind_failed_message(bind_addr: Seq<char>, port: u16, cause: Seq<char>) -> Seq<char> {
    "bind "@ + bind_addr + ":"@ + decimal(port as nat) + " failed: "@ + cause
}

/// Decides what follows the attempt with index `attempt`, counted from zero,
/// which tried `port`. A busy port leads to the next port until one hundred
/// attempts were made; any other failure ends the search at once.
pub fn bind_step(
    bind_addr: &str,
    start_port: u16,
    attempt: u16,
    port: u16,
    outcome: &BindOutcome,
) -> (r: BindStep)
    ensures
        match *outcome {
            BindOutcome::Bound => r matches BindStep::Bound(p) && p == port,
            BindOutcome::AddrInUse => if attempt + 1 < MAX_PORT_ATTEMPTS {
                r matches BindStep::Retry(p) && p == if port == u16::MAX {
                    0u16
                } else {
                    (port + 1) as u16
                }
            } else {
                r matches BindStep::GiveUp(m) && m@ == exhausted_message(start_port)
            },
            BindOutcome::Failed(cause) => r matches BindStep::GiveUp(m) && m@
                == bind_failed_message(bind_addr@, port, cause@),
        },
{
    match outcome {
        BindOutcome::Bound => BindStep::Bound(port),
        BindOutcome::AddrInUse => {
            if attempt < MAX_PORT_ATTEMPTS - 1 {
                BindStep::Retry(
                    if port == u16::MAX {
                        0
                    } else {
                        port + 1
                    },
                )
            } else {
                let mut m = String::new();
                m.append("exhausted ");
                push_decimal(&mut m, MAX_PORT_ATTEMPTS as u64);
                m.append(" port candidates starting at ");
                push_decimal(&mut m, start_port as u64);
                m.append("; all ports in use");
                proof {
                    assert(m@ =~= exhausted_message(start_port));
                }
                BindStep::GiveUp(m)
            }
        },
        BindOutcome::Failed(cause) => {
            let mut m = String::new();
            m.append("bind ");
            m.append(bind_addr);
            m.append(":");
            push_decimal(&mut m, port as u64);
            m.append(" failed: ");
            m.append(cause.as_str());
            proof {
                assert(m@ =~= bind_failed_message(bind_addr@, port, cause@));
            }
            BindStep::GiveUp(m)
        },
    }
}

// ---------------------------------------------------------------------------
// What the server prints
// ---------------------------------------------------------------------------

/// The one line that the server prints at startup: the bare URL of the entry
/// document, on the Tailscale host where there is one, else on `127.0.0.1`.
pub open spec fn startup_url_text(host: Option<&str>, port: u16, entry_url_path: Seq<char>) -> Seq<
    char,
> {
    "http://"@ + match host {
        Some(h) => h@,
        None => "127.0.0.1"@,
    } + ":"@ + decimal(port as nat) + entry_url_path
}

/// Builds the line that the server prints at startup.
pub fn startup_url(host: Option<&str>, port: u16, entry_url_path: &str) -> (url: String)
    ensures
        url@ == startup_url_text(host, port, entry_url_path@),
{
    let mut url = String::new();
    url.append("http://");
    match host {
        Some(h) => {
            url.append(h);
        },
        None => {
            url.append("127.0.0.1");
        },
    }
    url.append(":");
    push_decimal(&mut url, port as u64);
    url.append(entry_url_path);
    proof {
        assert(url@ =~= startup_url_text(host, port, entry_url_path@));
    }
    url
}

// ---------------------------------------------------------------------------
// Tailscale
// ---------------------------------------------------------------------------

/// What `serde_json` finds in the JSON document `bytes` under the member
/// `inner` of the member `outer`: the text of the string that stands there,
/// or nothing where the document has no such member or the member is no
/// string; for bytes that are no JSON document, the message of the parse
/// error.
pub uninterp spec fn json_text_at(bytes: Seq<u8>, outer: Seq<char>, inner: Seq<char>) -> Result<
    Option<Seq<char>>,
    Seq<char>,
>;

/// A text that was read, or the message of an error, as plain values.
pub open spec fn read_text_view(r: Result<Option<String>, String>) -> Result<
    Option<Seq<char>>,
    Seq<char>,
> {
    match r {
        Ok(Some(t)) => Ok(Some(t@)),
        Ok(None) => Ok(None),
        Err(m) => Err(m@),
    }
}

/// `serde_json::from_slice` for a `Value`, then `Value::get` with `outer`
/// and with `inner`, then `Value::as_str`. An error of the parser is handed
/// out as its `Display` writes it. The result is a function of the bytes and
/// the two names alone.
#[verifier::external_body]
fn read_json_text(bytes: &[u8], outer: &str, inner: &str) -> (r: Result<Option<String>, String>)
    ensures
        read_text_view(r) == json_text_at(bytes@, outer@, inner@),
{
    let value: serde_json::Value = serde_json::from_slice(bytes).map_err(|e| e.to_string())?;
    Ok(value.get(outer).and_then(|o| o.get(inner)).and_then(|d| d.as_str()).map(str::to_owned))
}

/// `s` without the dots at its end.
pub open spec fn without_trailing_dots(s: Seq<char>) -> Seq<char>
    decreases s.len(),
{
    if s.len() > 0 && s.last() == '.' {
        without_trailing_dots(s.drop_last())
    } else {
        s
    }
}

/// The host name in the `DNSName` field of Tailscale's status: the field
/// without the dots at its end. A missing field is the error `no-DNSName`, a
/// field with nothing but dots the error `empty-DNSName`.
pub open spec fn dns_name_of(field: Option<Seq<char>>) -> Result<Seq<char>, Seq<char>> {
    match field {
        None => Err("no-DNSName"@),
        Some(f) => if without_trailing_dots(f).len() == 0 {
            Err("empty-DNSName"@)
        } else {
            Ok(without_trailing_dots(f))
        },
    }
}

/// A name or the message of an error, as plain values.
pub open spec fn name_view(r: Result<String, String>) -> Result<Seq<char>, Seq<char>> {
    match r {
        Ok(n) => Ok(n@),
        Err(m) => Err(m@),
    }
}

/// The text of an optional string slice.
pub open spec fn field_text(field: Option<&str>) -> Option<Seq<char>> {
    match field {
        Some(f) => Some(f@),
        None => None,
    }
}

/// Takes the host name out of the `DNSName` field of Tailscale's status.
pub fn dns_name_from_field(field: Option<&str>) -> (r: Result<String, String>)
    ensures
        name_view(r) == dns_name_of(field_text(field)),
{
    let f = match field {
        Some(f) => f,
        None => {
            return Err("no-DNSName".to_owned());
        },
    };
    let cs = chars_of(f);
    let mut end: usize = cs.len();
    proof {
        assert(cs@.take(end as int) == cs@);
    }
    while end > 0 && cs[end - 1] == '.'
        invariant
            end <= cs.len(),
            without_trailing_dots(cs@) == without_trailing_dots(cs@.take(end as int)),
        decreases end,
    {
        proof {
            assert(cs@.take(end as int).drop_last() == cs@.take(end - 1));
        }
        end -= 1;
    }
    if end == 0 {
        return Err("empty-DNSName".to_owned());
    }
    let mut name = String::new();
    push_chars(&mut name, &cs, 0, end);
    proof {
        assert(cs@.subrange(0, end as int) == cs@.take(end as int));
    }
    Ok(name)
}

/// What `tailscale status --json` says of this machine's host name, given
/// what the JSON reader finds under `Self.DNSName`: output that is not JSON
/// gives an error that starts with `json-parse: `, anything else what the
/// field gives.
pub open spec fn tailscale_name(found: Result<Option<Seq<char>>, Seq<char>>) -> Result<
    Seq<char>,
    Seq<char>,
> {
    match found {
        Err(cause) => Err("json-parse: "@ + cause),
        Ok(field) => dns_name_of(field),
    }
}

/// Reads the host name out of what `tailscale status --json` printed: the
/// `DNSName` of `Self`, without the dot at its end. Output that is not JSON
/// gives an error that starts with `json-parse: `; a missing or empty name
/// gives `no-DNSName` or `empty-DNSName`.
pub fn parse_tailscale_dns_name(output: &[u8]) -> (r: Result<String, String>)
    ensures
        name_view(r) == tailscale_name(json_text_at(output@, "Self"@, "DNSName"@)),
        r matches Ok(name) ==> name@.len() > 0 && name@.last() != '.',
{
    match read_json_text(output, "Self", "DNSName") {
        Err(cause) => {
            let mut m = String::new();
            m.append("json-parse: ");
            m.append(cause.as_str());
            Err(m)
        },
        Ok(field) => {
            let r = match &field {
                Some(f) => dns_name_from_field(Some(f.as_str())),
                None => dns_name_from_field(None),
            };
            proof {
                if let Some(f) = field {
                    lemma_no_trailing_dot(f@);
                }
            }
            r
        },
    }
}

/// What is left when the dots at the end are taken off does not end in a dot.
proof fn lemma_no_trailing_dot(s: Seq<char>)
    ensures
        without_trailing_dots(s).len() > 0 ==> without_trailing_dots(s).last() != '.',
    decreases s.len(),
{
    if s.len() > 0 && s.last() == '.' {
        lemma_no_trailing_dot(s.drop_last());
    }
}

} // verus!
