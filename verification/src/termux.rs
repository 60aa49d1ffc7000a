//! The Android bridge: commands run directly by the device's own shell.
//! It shares `ShellOutput` and the polling decisions with the Windows bridge;
//! its messages carry no `WSL ` prefix.
use vstd::prelude::*;
use crate::process::{
    owned_all, printed, probe_printed, request, slices, spawn_failed as spawn_error, strs,
    wait_decision, wait_step as decide, ProcessRequest, WaitAction, WaitEvent,
};
use crate::text::owned;

pub use crate::shell::ShellOutput;

verus! {

/// `command` run by `bash -c`, waiting as long as it runs.
pub fn execute(command: &str) -> (r: ProcessRequest)
    ensures
        r.program@ == "bash"@,
        strs(r.args@) == seq!["-c"@, command@],
        r.timeout_secs is None,
{
    let mut args: Vec<String> = Vec::new();
    args.push(owned("-c"));
    args.push(owned(command));
    assert(strs(args@) =~= seq!["-c"@, command@]);
    request("bash", args, None)
}

/// The program `args[0]` with the arguments that follow it, killed after
/// `secs` seconds. (A call without a program would index out of bounds.)
pub fn execute_timeout(args: &[&str], secs: u64) -> (r: ProcessRequest)
    requires
        args@.len() >= 1,
    ensures
        r.program@ == args@[0]@,
        strs(r.args@) == slices(args@).drop_first(),
        r.timeout_secs == Some(secs),
{
    let all = owned_all(args);
    assert(strs(all@).len() == all@.len());
    assert(slices(args@).len() == args@.len());
    let mut rest: Vec<String> = Vec::new();
    let mut i: usize = 1;
    while i < all.len()
        invariant
            1 <= i <= all@.len(),
            strs(all@) == slices(args@),
            strs(rest@) == strs(all@).subrange(1, i as int),
        decreases all.len() - i,
    {
        let ghost before = rest@;
        rest.push(all[i].clone());
        proof {
            assert(strs(rest@) =~= strs(before).push(all@[i as int]@));
            assert(strs(all@).subrange(1, i + 1) =~= strs(all@).subrange(1, i as int).push(
                all@[i as int]@,
            ));
        }
        i = i + 1;
    }
    assert(strs(all@).subrange(1, all@.len() as int) =~= slices(args@).drop_first());
    assert(strs(all@)[0] == args@[0]@);
    request(all[0].as_str(), rest, Some(secs))
}

/// One polling decision while a command runs (messages carry no prefix).
pub fn wait_step(timeout_secs: Option<u64>, event: WaitEvent) -> (r: WaitAction)
    ensures
        wait_decision(Seq::empty(), timeout_secs, event, r),
{
    let r = decide("", timeout_secs, event);
    proof {
        reveal_strlit("");
        assert(""@ =~= Seq::<char>::empty());
    }
    r
}

/// The error when the program could not be started for `reason`.
pub fn spawn_failed(reason: &str) -> (r: String)
    ensures
        r@ == "spawn failed: "@ + reason@,
{
    let r = spawn_error("", reason);
    proof {
        reveal_strlit("");
        assert(""@ + "spawn failed: "@ =~= "spawn failed: "@);
    }
    r
}

/// The probe that `health_check` reads: `echo ok`.
pub fn health_probe() -> (r: ProcessRequest)
    ensures
        r.program@ == "bash"@,
        strs(r.args@) == seq!["-c"@, "echo ok"@],
        r.timeout_secs is None,
{
    execute("echo ok")
}

/// Whether the shell answers: the probe ran and printed `ok`.
pub fn health_check(probe: &Result<ShellOutput, String>) -> (r: bool)
    ensures
        r == probe_printed(*probe, "ok"@),
{
    printed(probe, "ok")
}

} // verus!
