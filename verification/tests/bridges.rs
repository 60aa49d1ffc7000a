use pragya::cascade;
use pragya::opencode::{self, History, QueryOutcome, Session};
use pragya::rag::{self, RunOutcome};
use pragya::shell::ShellOutput;
use pragya::tts;
use pragya::wsl::WslOutput;

fn sh(stdout: &str, stderr: &str, success: bool) -> ShellOutput {
    ShellOutput { stdout: stdout.into(), stderr: stderr.into(), exit_code: if success { 0 } else { 1 }, success }
}

fn w(stdout: &str, stderr: &str, success: bool) -> WslOutput {
    WslOutput { stdout: stdout.into(), stderr: stderr.into(), exit_code: if success { 0 } else { 1 }, success }
}

#[test]
fn tts_command_line() {
    assert_eq!(
        tts::speak_command("it's \"fine\"", "kitten", "jarvis", "1.25", ""),
        "bash -l -c \"fuche-tts 'it'\\''s \\\"fine\\\"' --speed 1.25 --preset jarvis --backend kitten \""
    );
    assert_eq!(
        tts::speak_command("hi", "piper", "calm", "1", "echo"),
        "bash -l -c \"fuche-tts 'hi' --speed 1 --preset calm --backend piper --fx echo\""
    );
    let r = tts::speak_request("hi", "piper", "calm", "1", "");
    assert_eq!(r.program, "wsl");
    assert_eq!(r.args[1], tts::speak_command("hi", "piper", "calm", "1", ""));
}

#[test]
fn tts_results() {
    let ok = tts::speak_result(Ok(w("", "warn", true)), 12);
    assert!(ok.success);
    assert_eq!(ok.message, "OK");
    assert_eq!(ok.elapsed_ms, 12);
    let bad = tts::speak_result(Ok(w("", "no voice", false)), 5);
    assert!(!bad.success);
    assert_eq!(bad.message, "no voice");
    let err = tts::speak_result(Err("WSL exec failed: x".into()), 1);
    assert!(!err.success);
    assert_eq!(err.message, "WSL exec failed: x");
    assert!(tts::health(&Ok(w("1.0", "", true))));
    assert!(!tts::health(&Ok(w("", "", false))));
    assert!(!tts::health(&Err("x".into())));
    let a = tts::unavailable();
    assert!(!a.success);
    assert_eq!(a.message, "no TTS on Android");
}

#[test]
fn opencode_status_from_probes() {
    let s = opencode::check_status(&Ok(w(" 0.3.1\n", "", true)), &Ok(w("/home/u/.config/opencode/config.json\n", "", true)));
    assert!(s.installed);
    assert_eq!(s.version, "0.3.1");
    assert_eq!(s.config_path, "/home/u/.config/opencode/config.json");
    let s = opencode::check_status(&Ok(w("\n", "", false)), &Err("x".into()));
    assert!(!s.installed);
    assert_eq!(s.version, "");
    assert_eq!(s.config_path, "");
}

#[test]
fn opencode_query_and_session() {
    let c = opencode::query_command("what's up");
    assert_eq!(c, "cd ~ && opencode 'what'\\''s up'");
    let r = opencode::query_request(&c);
    assert_eq!(r.args, vec!["--", "bash", "-l", "-c", c.as_str()]);
    assert_eq!(r.timeout_secs, Some(10));
    let s = opencode::session(c.clone(), QueryOutcome::Finished(Ok(sh("answer", "", true))));
    assert_eq!((s.stdout.as_str(), s.success), ("answer", true));
    let s = opencode::session(c.clone(), QueryOutcome::Finished(Err("WSL timeout after 10s".into())));
    assert_eq!((s.stdout.as_str(), s.stderr.as_str(), s.success), ("", "WSL timeout after 10s", false));
    let s = opencode::session(c.clone(), QueryOutcome::Panicked);
    assert_eq!(s.stderr, "task panic");
    let s = opencode::session(c.clone(), QueryOutcome::TimedOut);
    assert_eq!(s.stderr, "HALT: opencode query timed out (>10s)");
    assert_eq!(s.command, c);
}

#[test]
fn history_records_and_clears() {
    let mut h = History::new();
    let s1 = Session { command: "c1".into(), stdout: "o1".into(), stderr: "".into(), success: true };
    let s2 = Session { command: "c2".into(), stdout: "".into(), stderr: "e2".into(), success: false };
    h.record("q1", &s1, "2024-01-01 00:00:00".into());
    h.record("q2", &s2, "2024-01-01 00:00:01".into());
    let e = h.entries();
    assert_eq!(e.len(), 2);
    assert_eq!((e[0].query.as_str(), e[0].stdout.as_str(), e[0].success), ("q1", "o1", true));
    assert_eq!((e[1].query.as_str(), e[1].stderr.as_str(), e[1].timestamp.as_str()), ("q2", "e2", "2024-01-01 00:00:01"));
    h.clear();
    assert!(h.entries().is_empty());
}

#[test]
fn cascade_command_and_results() {
    assert_eq!(cascade::query_command("a'b"), "python3 /home/arjun/fuche-coder/cascade.py 'a'\\''b'");
    let r = cascade::query_result("q", Some(Ok(w("resp", "  model-x \n", true))));
    assert_eq!((r.query.as_str(), r.response.as_str(), r.model_info.as_str(), r.success), ("q", "resp", "model-x", true));
    let r = cascade::query_result("q", Some(Err("WSL exec failed: e".into())));
    assert_eq!((r.response.as_str(), r.model_info.as_str(), r.success), ("", "WSL exec failed: e", false));
    let r = cascade::query_result("q", None);
    assert_eq!(r.model_info, "task panic");
    assert!(cascade::check_status(&Ok(w("ok\n", "", true))).available);
    assert!(!cascade::check_status(&Ok(w("", "", false))).available);
    assert!(!cascade::check_status(&Err("x".into())).available);
}

#[test]
fn rag_commands() {
    assert_eq!(rag::search_command("it's", None), "fuche search --collection default --limit 5 'it'\\''s'");
    assert_eq!(rag::search_command("x", Some(12)), "fuche search --collection default --limit 12 'x'");
    assert_eq!(rag::ingest_command("/a/b c.md"), "fuche ingest '/a/b c.md'");
    assert_eq!(rag::search_request("x", Some(1)).args[4], "fuche search --collection default --limit 1 'x'");
}

#[test]
fn rag_listing_is_read_into_hits() {
    let out = "Results:\n1.  combined=0.520 faiss=0.600 kw=0.400  notes/a.md\n   first line\n\n   second line\n2.  combined=0.4  b.md\nonly\n";
    let hits = rag::parse(out);
    assert_eq!(hits.len(), 2);
    assert_eq!(hits[0].source, "notes/a.md");
    assert_eq!(hits[0].snippet, "first line\nsecond line");
    assert_eq!(hits[1].source, "b.md");
    assert_eq!(hits[1].snippet, "only");
    assert!(rag::parse("").is_empty());
    assert!(rag::parse("no hits here\n").is_empty());
    // Two-digit numbers are not headers.
    let hits = rag::parse("1. a.md\n12. b.md\n");
    assert_eq!(hits.len(), 1);
    assert_eq!(hits[0].snippet, "12. b.md");
}

#[test]
fn rag_results() {
    let r = rag::search_result("q", RunOutcome::Completed(Ok(sh("1. x.md\nbody\n", "", true))));
    assert!(r.success);
    assert_eq!(r.results.len(), 1);
    assert_eq!(r.error, "");
    let r = rag::search_result("q", RunOutcome::Completed(Ok(sh("1. x.md\n", "boom", false))));
    assert!(!r.success && r.results.is_empty());
    assert_eq!(r.error, "boom");
    let r = rag::search_result("q", RunOutcome::Completed(Err("WSL spawn failed: e".into())));
    assert_eq!(r.error, "WSL spawn failed: e");
    let r = rag::search_result("q", RunOutcome::Panicked("cancelled".into()));
    assert_eq!(r.error, "task panic: cancelled");
    let r = rag::ingest_result("/p", RunOutcome::Completed(Ok(sh("", "", true))));
    assert!(r.success && r.error.is_empty() && r.query == "/p");
    let r = rag::ingest_result("/p", RunOutcome::Completed(Ok(sh("", "bad file", false))));
    assert!(!r.success);
    assert_eq!(r.error, "bad file");
    let r = rag::ingest_result("/p", RunOutcome::Panicked("x".into()));
    assert_eq!(r.error, "task panic: x");
}
