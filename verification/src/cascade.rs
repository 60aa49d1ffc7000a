//! The model cascade script in WSL: the command that asks it, what a run
//! means, and whether the script is there.
use vstd::prelude::*;
use crate::process::{strs, ProcessRequest};
use crate::text::{escape_single_quotes, owned, push_str, shell_escape, trim, trimmed, trimmed_is};
use crate::wsl::{self, WslOutput};

verus! {

/// The answer to one question.
#[derive(Debug)]
pub struct CascadeResult {
    pub query: String,
    pub response: String,
    pub model_info: String,
    pub success: bool,
}

/// Whether the cascade script is there.
#[derive(Debug)]
pub struct Status {
    pub available: bool,
}

/// The command line that asks the cascade `query`.
pub open spec fn query_command_text(query: Seq<char>) -> Seq<char> {
    "python3 /home/arjun/fuche-coder/cascade.py '"@ + escape_single_quotes(query) + "'"@
}

/// The command line that asks the cascade `query`.
pub fn query_command(query: &str) -> (r: String)
    ensures
        r@ == query_command_text(query@),
{
    let mut r = owned("python3 /home/arjun/fuche-coder/cascade.py '");
    let e = shell_escape(query);
    push_str(&mut r, e.as_str());
    push_str(&mut r, "'");
    r
}

/// The run of the cascade for `query` in WSL.
pub fn query_request(query: &str) -> (r: ProcessRequest)
    ensures
        r.program@ == "wsl"@,
        strs(r.args@) == seq!["--"@, query_command_text(query@)],
        r.timeout_secs is None,
{
    let c = query_command(query);
    wsl::execute(c.as_str())
}

/// The answer from a run (none: the task running it panicked): the output
/// is the response and the trimmed stderr tells the model; a run that could
/// not start gives an empty response and the reason.
pub fn query_result(query: &str, result: Option<Result<WslOutput, String>>) -> (r: CascadeResult)
    ensures
        r.query@ == query@,
        match result {
            Some(Ok(out)) => r.response == out.stdout && r.model_info@ == trim(out.stderr@)
                && r.success == out.success,
            Some(Err(e)) => r.response@.len() == 0 && r.model_info == e && !r.success,
            None => r.response@.len() == 0 && r.model_info@ == "task panic"@ && !r.success,
        },
{
    let q = owned(query);
    match result {
        Some(Ok(out)) => {
            let info = trimmed(out.stderr.as_str());
            CascadeResult { query: q, response: out.stdout, model_info: info, success: out.success }
        },
        Some(Err(e)) => CascadeResult {
            query: q,
            response: String::new(),
            model_info: e,
            success: false,
        },
        None => CascadeResult {
            query: q,
            response: String::new(),
            model_info: owned("task panic"),
            success: false,
        },
    }
}

/// The probe that `check_status` reads.
pub fn status_probe() -> (r: ProcessRequest)
    ensures
        r.program@ == "wsl"@,
        strs(r.args@) == seq!["--"@, "test -f /home/arjun/fuche-coder/cascade.py && echo 'ok'"@],
        r.timeout_secs is None,
{
    wsl::execute("test -f /home/arjun/fuche-coder/cascade.py && echo 'ok'")
}

/// Available exactly when the probe ran and printed `ok`.
pub fn check_status(probe: &Result<WslOutput, String>) -> (r: Status)
    ensures
        r.available == (probe matches Ok(out) && trim(out.stdout@) == "ok"@),
{
    let available = match probe {
        Ok(out) => trimmed_is(out.stdout.as_str(), "ok"),
        Err(_) => false,
    };
    Status { available }
}

} // verus!
