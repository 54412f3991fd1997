//! Names of an interactive shell session in a pod, and the command that
//! starts it.
use vstd::prelude::*;
use crate::text::{int_repr, views, string_of, append_i64};

verus! {

/// The command run in the container: bash when it has one, else sh.
pub fn shell_command() -> (r: Vec<String>)
    ensures
        views(r@) == seq!["sh"@, "-c"@, "if command -v bash >/dev/null 2>&1; then exec bash; else exec sh; fi"@],
{
    let mut v: Vec<String> = Vec::new();
    v.push(string_of("sh"));
    v.push(string_of("-c"));
    v.push(string_of("if command -v bash >/dev/null 2>&1; then exec bash; else exec sh; fi"));
    assert(views(v@) =~= seq!["sh"@, "-c"@, "if command -v bash >/dev/null 2>&1; then exec bash; else exec sh; fi"@]);
    v
}

/// The id of a session in pod `pod` of namespace `ns` started at Unix
/// time `millis` (milliseconds): `exec-<ns>-<pod>-<millis>`.
pub open spec fn exec_session_text(ns: Seq<char>, pod: Seq<char>, millis: i64) -> Seq<char> {
    "exec-"@ + ns + "-"@ + pod + "-"@ + int_repr(millis as int)
}

/// The session id and the names of its output, input and exit events:
/// the id followed by `-stdout`, `-stdin` and `-exit`.
pub fn exec_session_names(ns: &str, pod: &str, millis: i64) -> (r: (String, String, String, String))
    ensures
        r.0@ == exec_session_text(ns@, pod@, millis),
        r.1@ == exec_session_text(ns@, pod@, millis) + "-stdout"@,
        r.2@ == exec_session_text(ns@, pod@, millis) + "-stdin"@,
        r.3@ == exec_session_text(ns@, pod@, millis) + "-exit"@,
{
    let mut id = string_of("exec-");
    id.append(ns);
    id.append("-");
    id.append(pod);
    id.append("-");
    append_i64(&mut id, millis);
    let mut out = id.clone();
    out.append("-stdout");
    let mut inp = id.clone();
    inp.append("-stdin");
    let mut exit = id.clone();
    exit.append("-exit");
    (id, out, inp, exit)
}

/// What is shown when the shell cannot start: `Failed to exec: <error>`
/// and a line end.
pub fn exec_failure_text(err: &str) -> (r: String)
    ensures
        r@ == "Failed to exec: "@ + err@ + "\r\n"@,
{
    let mut s = string_of("Failed to exec: ");
    s.append(err);
    s.append("\r\n");
    s
}

} // verus!
