//! Commands run in the Linux side of Windows through `wsl.exe`, with their
//! output collected from both pipes.
use vstd::prelude::*;
use crate::process::{
    owned_all, printed, probe_printed, request, slices, spawn_failed as spawn_error, strs,
    wait_decision, wait_step as decide, ProcessRequest, WaitAction, WaitEvent,
};
use crate::text::owned;

verus! {

/// What a finished command left behind.
#[derive(Debug, Clone)]
pub struct ShellOutput {
    pub stdout: String,
    pub stderr: String,
    pub exit_code: i32,
    pub success: bool,
}

/// The launcher every command goes through.
pub open spec fn wsl_exe() -> Seq<char> {
    "C:\\Windows\\System32\\wsl.exe"@
}

/// The start of every message of this bridge.
pub open spec fn prefix() -> Seq<char> {
    "WSL "@
}

/// `command` run by a login `bash` in WSL, waiting as long as it runs.
pub fn execute(command: &str) -> (r: ProcessRequest)
    ensures
        r.program@ == wsl_exe(),
        strs(r.args@) == seq!["--"@, "bash"@, "-l"@, "-c"@, command@],
        r.timeout_secs is None,
{
    let mut args: Vec<String> = Vec::new();
    args.push(owned("--"));
    args.push(owned("bash"));
    args.push(owned("-l"));
    args.push(owned("-c"));
    args.push(owned(command));
    assert(strs(args@) =~= seq!["--"@, "bash"@, "-l"@, "-c"@, command@]);
    request("C:\\Windows\\System32\\wsl.exe", args, None)
}

/// The program and arguments `args` run in WSL, killed after `secs` seconds.
pub fn execute_timeout(args: &[&str], secs: u64) -> (r: ProcessRequest)
    ensures
        r.program@ == wsl_exe(),
        strs(r.args@) == seq!["--"@] + slices(args@),
        r.timeout_secs == Some(secs),
{
    let mut all: Vec<String> = Vec::new();
    all.push(owned("--"));
    let mut rest = owned_all(args);
    all.append(&mut rest);
    assert(strs(all@) =~= seq!["--"@] + slices(args@));
    request("C:\\Windows\\System32\\wsl.exe", all, Some(secs))
}

/// One polling decision while a command runs (messages start with `WSL `).
pub fn wait_step(timeout_secs: Option<u64>, event: WaitEvent) -> (r: WaitAction)
    ensures
        wait_decision(prefix(), timeout_secs, event, r),
{
    decide("WSL ", timeout_secs, event)
}

/// The error when `wsl.exe` could not be started for `reason`.
pub fn spawn_failed(reason: &str) -> (r: String)
    ensures
        r@ == prefix() + "spawn failed: "@ + reason@,
{
    spawn_error("WSL ", reason)
}

/// The probe that `health_check` reads: `echo ok`.
pub fn health_probe() -> (r: ProcessRequest)
    ensures
        r.program@ == wsl_exe(),
        strs(r.args@) == seq!["--"@, "bash"@, "-l"@, "-c"@, "echo ok"@],
        r.timeout_secs is None,
{
    execute("echo ok")
}

/// Whether WSL answers: the probe ran and printed `ok`.
pub fn health_check(probe: &Result<ShellOutput, String>) -> (r: bool)
    ensures
        r == probe_printed(*probe, "ok"@),
{
    printed(probe, "ok")
}

} // verus!
