//! The `opencode` assistant in WSL: whether it is installed, the command
//! that asks it a question, what a run of that command means, and the
//! history of questions asked.
use vstd::prelude::*;
use crate::process::{strs, ProcessRequest};
use crate::shell::{self, ShellOutput};
use crate::text::{escape_single_quotes, owned, push_str, shell_escape, trim, trimmed};
use crate::wsl::{self, WslOutput};

verus! {

/// One question asked, with what came back and when.
#[derive(Debug)]
pub struct HistoryEntry {
    pub query: String,
    pub stdout: String,
    pub stderr: String,
    pub success: bool,
    pub timestamp: String,
}

/// One run of `opencode`.
#[derive(Debug)]
pub struct Session {
    pub command: String,
    pub stdout: String,
    pub stderr: String,
    pub success: bool,
}

/// Whether `opencode` is installed, its version and where its settings live.
#[derive(Debug)]
pub struct Status {
    pub installed: bool,
    pub version: String,
    pub config_path: String,
}

/// The first line `opencode --version` printed, trimmed; empty where the
/// probe could not run.
pub open spec fn probe_text(probe: Result<WslOutput, String>) -> Seq<char> {
    match probe {
        Ok(out) => trim(out.stdout@),
        Err(_) => Seq::empty(),
    }
}

/// The probe of the installed version.
pub fn version_probe() -> (r: ProcessRequest)
    ensures
        r.program@ == "wsl"@,
        strs(r.args@) == seq!["--"@, "opencode --version"@],
        r.timeout_secs is None,
{
    wsl::execute("opencode --version")
}

/// The probe of the settings file's path.
pub fn config_probe() -> (r: ProcessRequest)
    ensures
        r.program@ == "wsl"@,
        strs(r.args@) == seq!["--"@, "echo $HOME/.config/opencode/config.json"@],
        r.timeout_secs is None,
{
    wsl::execute("echo $HOME/.config/opencode/config.json")
}

fn probe_output(probe: &Result<WslOutput, String>) -> (r: String)
    ensures
        r@ == probe_text(*probe),
{
    match probe {
        Ok(out) => trimmed(out.stdout.as_str()),
        Err(_) => String::new(),
    }
}

/// The status read from the two probes: installed exactly when a version
/// was printed.
pub fn check_status(version: &Result<WslOutput, String>, config: &Result<WslOutput, String>) -> (r: Status)
    ensures
        r.version@ == probe_text(*version),
        r.config_path@ == probe_text(*config),
        r.installed == (probe_text(*version).len() > 0),
{
    let v = probe_output(version);
    let c = probe_output(config);
    let installed = !v.as_str().is_empty();
    Status { installed, version: v, config_path: c }
}

/// The command line that asks `opencode` the question `query`.
pub open spec fn query_command_text(query: Seq<char>) -> Seq<char> {
    "cd ~ && opencode '"@ + escape_single_quotes(query) + "'"@
}

/// The command line that asks `opencode` the question `query`.
pub fn query_command(query: &str) -> (r: String)
    ensures
        r@ == query_command_text(query@),
{
    let mut r = owned("cd ~ && opencode '");
    let e = shell_escape(query);
    push_str(&mut r, e.as_str());
    push_str(&mut r, "'");
    r
}

/// The run of `command` by a login shell, killed after 10 seconds.
pub fn query_request(command: &str) -> (r: ProcessRequest)
    ensures
        r.program@ == crate::shell::wsl_exe(),
        strs(r.args@) == seq!["--"@, "bash"@, "-l"@, "-c"@, command@],
        r.timeout_secs == Some(10u64),
{
    let args: [&str; 4] = ["bash", "-l", "-c", command];
    let r = shell::execute_timeout(&args, 10);
    assert(crate::process::slices(args@) =~= seq!["bash"@, "-l"@, "-c"@, command@]);
    assert(strs(r.args@) =~= seq!["--"@, "bash"@, "-l"@, "-c"@, command@]);
    r
}

/// How a question ended: the command finished (or failed to run), the task
/// running it panicked, or no answer came within the time allowed.
pub enum QueryOutcome {
    Finished(Result<ShellOutput, String>),
    Panicked,
    TimedOut,
}

/// The session that `command` ended in.
pub fn session(command: String, outcome: QueryOutcome) -> (r: Session)
    ensures
        r.command == command,
        match outcome {
            QueryOutcome::Finished(Ok(out)) => r.stdout == out.stdout && r.stderr == out.stderr
                && r.success == out.success,
            QueryOutcome::Finished(Err(e)) => r.stdout@.len() == 0 && r.stderr == e && !r.success,
            QueryOutcome::Panicked => r.stdout@.len() == 0 && r.stderr@ == "task panic"@
                && !r.success,
            QueryOutcome::TimedOut => r.stdout@.len() == 0 && r.stderr@
                == "HALT: opencode query timed out (>10s)"@ && !r.success,
        },
{
    match outcome {
        QueryOutcome::Finished(Ok(out)) => Session {
            command,
            stdout: out.stdout,
            stderr: out.stderr,
            success: out.success,
        },
        QueryOutcome::Finished(Err(e)) => Session {
            command,
            stdout: String::new(),
            stderr: e,
            success: false,
        },
        QueryOutcome::Panicked => Session {
            command,
            stdout: String::new(),
            stderr: owned("task panic"),
            success: false,
        },
        QueryOutcome::TimedOut => Session {
            command,
            stdout: String::new(),
            stderr: owned("HALT: opencode query timed out (>10s)"),
            success: false,
        },
    }
}

/// A copy of `e`.
pub fn copy_entry(e: &HistoryEntry) -> (r: HistoryEntry)
    ensures
        r == *e,
{
    HistoryEntry {
        query: e.query.clone(),
        stdout: e.stdout.clone(),
        stderr: e.stderr.clone(),
        success: e.success,
        timestamp: e.timestamp.clone(),
    }
}

/// Whether `e` records `session` as the answer to `query`, asked at
/// `timestamp`.
pub open spec fn records(e: HistoryEntry, query: Seq<char>, session: Session, timestamp: String) -> bool {
    &&& e.query@ == query
    &&& e.stdout == session.stdout
    &&& e.stderr == session.stderr
    &&& e.success == session.success
    &&& e.timestamp == timestamp
}

/// The questions asked so far, oldest first.
pub struct History {
    entries: Vec<HistoryEntry>,
}

impl View for History {
    type V = Seq<HistoryEntry>;

    closed spec fn view(&self) -> Seq<HistoryEntry> {
        self.entries@
    }
}

impl History {
    /// No questions yet.
    pub fn new() -> (r: History)
        ensures
            r@ == Seq::<HistoryEntry>::empty(),
    {
        History { entries: Vec::new() }
    }

    /// Records the answer `session` to `query`, asked at `timestamp`.
    pub fn record(&mut self, query: &str, session: &Session, timestamp: String)
        ensures
            final(self)@.len() == old(self)@.len() + 1,
            final(self)@.drop_last() == old(self)@,
            records(final(self)@.last(), query@, *session, timestamp),
    {
        let e = HistoryEntry {
            query: owned(query),
            stdout: session.stdout.clone(),
            stderr: session.stderr.clone(),
            success: session.success,
            timestamp,
        };
        self.entries.push(e);
        assert(self.entries@.drop_last() =~= old(self).entries@);
    }

    /// Forgets every question.
    pub fn clear(&mut self)
        ensures
            final(self)@ == Seq::<HistoryEntry>::empty(),
    {
        self.entries.clear();
    }

    /// A copy of the history, oldest first.
    pub fn entries(&self) -> (r: Vec<HistoryEntry>)
        ensures
            r@ == self@,
    {
        let mut r: Vec<HistoryEntry> = Vec::new();
        let mut i: usize = 0;
        while i < self.entries.len()
            invariant
                i <= self.entries@.len(),
                r@ == self.entries@.take(i as int),
            decreases self.entries.len() - i,
        {
            r.push(copy_entry(&self.entries[i]));
            i = i + 1;
            assert(r@ =~= self.entries@.take(i as int));
        }
        assert(self.entries@.take(i as int) =~= self.entries@);
        r
    }
}

} // verus!
