//! The plain WSL bridge: one command line handed to `wsl --`, its output
//! read back as text.
use vstd::prelude::*;
use vstd::utf8::{decode_utf8, valid_utf8};
use crate::process::{request, strs, ProcessRequest};
use crate::text::{owned, push_str};

verus! {

/// What a finished WSL command left behind.
#[derive(Debug, Clone)]
pub struct WslOutput {
    pub stdout: String,
    pub stderr: String,
    pub exit_code: i32,
    pub success: bool,
}

/// The text that `String::from_utf8_lossy` makes of `bytes`.
pub uninterp spec fn lossy_utf8(bytes: Seq<u8>) -> Seq<char>;

/// `String::from_utf8_lossy(bytes).to_string()`: where `bytes` are valid
/// UTF-8 the text they encode; otherwise each invalid sequence is replaced
/// by U+FFFD, which is left unstated beyond the name `lossy_utf8`.
#[verifier::external_body]
fn text_of_bytes(bytes: &[u8]) -> (s: String)
    ensures
        s@ == lossy_utf8(bytes@),
        valid_utf8(bytes@) ==> s@ == decode_utf8(bytes@),
{
    String::from_utf8_lossy(bytes).to_string()
}

/// `wsl -- command`, waiting as long as it runs.
pub fn execute(command: &str) -> (r: ProcessRequest)
    ensures
        r.program@ == "wsl"@,
        strs(r.args@) == seq!["--"@, command@],
        r.timeout_secs is None,
{
    let mut args: Vec<String> = Vec::new();
    args.push(owned("--"));
    args.push(owned(command));
    assert(strs(args@) =~= seq!["--"@, command@]);
    request("wsl", args, None)
}

/// The error when `wsl` could not be run for `reason`.
pub fn exec_failed(reason: &str) -> (r: String)
    ensures
        r@ == "WSL exec failed: "@ + reason@,
{
    let mut m = owned("WSL exec failed: ");
    push_str(&mut m, reason);
    m
}

/// The output of a finished `wsl` run from its pipes read as text: the
/// exit code (-1 where a signal ended it) and whether it succeeded.
pub fn output_of(stdout: String, stderr: String, code: Option<i32>, success: bool) -> (r: WslOutput)
    ensures
        r.stdout == stdout,
        r.stderr == stderr,
        r.exit_code == (match code {
            Some(c) => c as int,
            None => -1int,
        }),
        r.success == success,
{
    let exit_code = match code {
        Some(c) => c,
        None => -1,
    };
    WslOutput { stdout, stderr, exit_code, success }
}

/// The output of a finished `wsl` run: both pipes read as text (see
/// `output_of`).
pub fn collect_output(stdout: &[u8], stderr: &[u8], code: Option<i32>, success: bool) -> (r: WslOutput)
    ensures
        r.stdout@ == lossy_utf8(stdout@),
        r.stderr@ == lossy_utf8(stderr@),
        valid_utf8(stdout@) ==> r.stdout@ == decode_utf8(stdout@),
        valid_utf8(stderr@) ==> r.stderr@ == decode_utf8(stderr@),
        r.exit_code == (match code {
            Some(c) => c as int,
            None => -1int,
        }),
        r.success == success,
{
    output_of(text_of_bytes(stdout), text_of_bytes(stderr), code, success)
}

/// The probe that `health_check` reads: `echo 'ok'`.
pub fn health_probe() -> (r: ProcessRequest)
    ensures
        r.program@ == "wsl"@,
        strs(r.args@) == seq!["--"@, "echo 'ok'"@],
        r.timeout_secs is None,
{
    execute("echo 'ok'")
}

/// Whether WSL answers: the probe ran and printed `ok`.
pub fn health_check(probe: &Result<WslOutput, String>) -> (r: bool)
    ensures
        r == (probe matches Ok(out) && crate::text::trim(out.stdout@) == "ok"@),
{
    match probe {
        Ok(out) => crate::text::trimmed_is(out.stdout.as_str(), "ok"),
        Err(_) => false,
    }
}

} // verus!
