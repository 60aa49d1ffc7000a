//! What every bridge shares about running a program: the request that names
//! it, the polling decisions while it runs, and the output it leaves.
//! Spawning, polling and reading pipes are the caller's work; each step
//! that decides something is here.
use vstd::prelude::*;
use crate::shell::ShellOutput;
use crate::text::{dec, owned, push_dec, push_str, trim, trimmed_is};

verus! {

/// A program to run, with its arguments, and a limit in whole seconds after
/// which it is killed (none: wait as long as it runs).
#[derive(Debug, Clone)]
pub struct ProcessRequest {
    pub program: String,
    pub args: Vec<String>,
    pub timeout_secs: Option<u64>,
}

/// The views of a sequence of strings.
pub open spec fn strs(v: Seq<String>) -> Seq<Seq<char>> {
    v.map_values(|s: String| s@)
}

/// The views of a sequence of string slices.
pub open spec fn slices(v: Seq<&str>) -> Seq<Seq<char>> {
    v.map_values(|s: &str| s@)
}

/// Owned copies of `v`, in order.
pub fn owned_all(v: &[&str]) -> (r: Vec<String>)
    ensures
        strs(r@) == slices(v@),
{
    let mut r: Vec<String> = Vec::new();
    let mut i: usize = 0;
    while i < v.len()
        invariant
            i <= v@.len(),
            strs(r@) == slices(v@).take(i as int),
        decreases v.len() - i,
    {
        let ghost before = r@;
        let s = owned(v[i]);
        r.push(s);
        proof {
            assert(strs(r@) =~= strs(before).push(s@));
            assert(slices(v@).take(i + 1) =~= slices(v@).take(i as int).push(v@[i as int]@));
        }
        i = i + 1;
    }
    assert(slices(v@).take(v@.len() as int) =~= slices(v@));
    r
}

/// The request to run `program` with `args` and an optional limit.
pub fn request(program: &str, args: Vec<String>, timeout_secs: Option<u64>) -> (r: ProcessRequest)
    ensures
        r.program@ == program@,
        r.args@ == args@,
        r.timeout_secs == timeout_secs,
{
    ProcessRequest { program: owned(program), args, timeout_secs }
}

/// What the caller saw when it last looked at the running program.
pub enum WaitEvent {
    /// It has exited, with this exit code (none: killed by a signal) and
    /// this verdict of `ExitStatus::success`.
    Exited { code: Option<i32>, success: bool },
    /// It is still running; this many whole seconds have passed since it
    /// was started.
    Running { elapsed_secs: u64 },
    /// Waiting for it failed, with this message.
    WaitFailed { message: String },
}

/// What the caller does next.
pub enum WaitAction {
    /// Read both pipes and build the output from this exit status.
    Collect { code: Option<i32>, success: bool },
    /// Kill the program, reap it, and fail with this message.
    KillAndFail { message: String },
    /// Sleep this many milliseconds, then look again.
    Sleep { millis: u64 },
    /// Fail with this message.
    Fail { message: String },
}

/// The text `prefix` + `timeout after {secs}s`.
pub open spec fn timeout_text(prefix: Seq<char>, secs: nat) -> Seq<char> {
    prefix + "timeout after "@ + dec(secs) + seq!['s']
}

/// Whether `action` is the decision after one look at a running program
/// that reported `event`, where `prefix` starts each message (`"WSL "` for
/// the Windows bridge, nothing on Android): collect an exited program; past
/// the limit, kill it; before it, or with no limit, sleep 100 ms; when
/// waiting failed, fail with the reason.
pub open spec fn wait_decision(
    prefix: Seq<char>,
    timeout_secs: Option<u64>,
    event: WaitEvent,
    action: WaitAction,
) -> bool {
    match event {
        WaitEvent::Exited { code, success } => action == WaitAction::Collect { code, success },
        WaitEvent::Running { elapsed_secs } => match timeout_secs {
            Some(t) => if elapsed_secs >= t {
                action matches WaitAction::KillAndFail { message } && message@ == timeout_text(
                    prefix,
                    t as nat,
                )
            } else {
                action == WaitAction::Sleep { millis: 100 }
            },
            None => action == WaitAction::Sleep { millis: 100 },
        },
        WaitEvent::WaitFailed { message } => action matches WaitAction::Fail { message: m }
            && m@ == prefix + "wait failed: "@ + message@,
    }
}

/// One polling decision (see `wait_decision`).
pub fn wait_step(prefix: &str, timeout_secs: Option<u64>, event: WaitEvent) -> (r: WaitAction)
    ensures
        wait_decision(prefix@, timeout_secs, event, r),
{
    match event {
        WaitEvent::Exited { code, success } => WaitAction::Collect { code, success },
        WaitEvent::Running { elapsed_secs } => match timeout_secs {
            Some(t) => if elapsed_secs >= t {
                let mut m = owned(prefix);
                push_str(&mut m, "timeout after ");
                push_dec(&mut m, t);
                m.push('s');
                proof {
                    assert(m@ =~= timeout_text(prefix@, t as nat));
                }
                WaitAction::KillAndFail { message: m }
            } else {
                WaitAction::Sleep { millis: 100 }
            },
            None => WaitAction::Sleep { millis: 100 },
        },
        WaitEvent::WaitFailed { message } => {
            let mut m = owned(prefix);
            push_str(&mut m, "wait failed: ");
            push_str(&mut m, message.as_str());
            proof {
                assert(m@ =~= prefix@ + "wait failed: "@ + message@);
            }
            WaitAction::Fail { message: m }
        },
    }
}

/// `prefix` + `"spawn failed: "` + `reason`: the error when the program
/// could not be started.
pub fn spawn_failed(prefix: &str, reason: &str) -> (r: String)
    ensures
        r@ == prefix@ + "spawn failed: "@ + reason@,
{
    let mut m = owned(prefix);
    push_str(&mut m, "spawn failed: ");
    push_str(&mut m, reason);
    assert(m@ =~= prefix@ + "spawn failed: "@ + reason@);
    m
}

/// The output of a program that exited with `code` (none: killed by a
/// signal, which reads as -1) after writing `stdout` and `stderr`.
pub fn collect_output(stdout: String, stderr: String, code: Option<i32>, success: bool) -> (r: ShellOutput)
    ensures
        r.stdout@ == stdout@,
        r.stderr@ == stderr@,
        r.exit_code == (match code {
            Some(c) => c as int,
            None => -1int,
        }),
        r.success == success,
{
    let exit_code = match code {
        Some(c) => c,
        None => -1,
    };
    ShellOutput { stdout, stderr, exit_code, success }
}

/// Whether a probe ran and printed `expected` (after trimming whitespace).
pub open spec fn probe_printed(probe: Result<ShellOutput, String>, expected: Seq<char>) -> bool {
    probe matches Ok(out) && trim(out.stdout@) == expected
}

/// Whether a probe ran and printed `expected`.
pub fn printed(probe: &Result<ShellOutput, String>, expected: &str) -> (r: bool)
    ensures
        r == probe_printed(*probe, expected@),
{
    match probe {
        Ok(out) => trimmed_is(out.stdout.as_str(), expected),
        Err(_) => false,
    }
}

} // verus!
