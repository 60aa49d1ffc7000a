use pragya::process::{collect_output, WaitAction, WaitEvent};
use pragya::shell::{self, ShellOutput};
use pragya::termux;
use pragya::wsl;

fn out(stdout: &str, success: bool) -> ShellOutput {
    ShellOutput { stdout: stdout.into(), stderr: String::new(), exit_code: 0, success }
}

#[test]
fn windows_requests_go_through_wsl_exe() {
    let r = shell::execute("echo hi");
    assert_eq!(r.program, r"C:\Windows\System32\wsl.exe");
    assert_eq!(r.args, vec!["--", "bash", "-l", "-c", "echo hi"]);
    assert_eq!(r.timeout_secs, None);
    let t = shell::execute_timeout(&["tesseract", "/mnt/c/x.png"], 10);
    assert_eq!(t.args, vec!["--", "tesseract", "/mnt/c/x.png"]);
    assert_eq!(t.timeout_secs, Some(10));
}

#[test]
fn android_requests_run_the_program_directly() {
    let r = termux::execute("ls");
    assert_eq!(r.program, "bash");
    assert_eq!(r.args, vec!["-c", "ls"]);
    let t = termux::execute_timeout(&["tesseract", "a.png", "stdout"], 3);
    assert_eq!(t.program, "tesseract");
    assert_eq!(t.args, vec!["a.png", "stdout"]);
    assert_eq!(t.timeout_secs, Some(3));
}

#[test]
fn polling_decisions() {
    match shell::wait_step(Some(10), WaitEvent::Exited { code: Some(0), success: true }) {
        WaitAction::Collect { code, success } => { assert_eq!(code, Some(0)); assert!(success) }
        _ => panic!("expected collect"),
    }
    match shell::wait_step(Some(10), WaitEvent::Running { elapsed_secs: 9 }) {
        WaitAction::Sleep { millis } => assert_eq!(millis, 100),
        _ => panic!("expected sleep"),
    }
    match shell::wait_step(Some(10), WaitEvent::Running { elapsed_secs: 10 }) {
        WaitAction::KillAndFail { message } => assert_eq!(message, "WSL timeout after 10s"),
        _ => panic!("expected kill"),
    }
    match termux::wait_step(Some(3), WaitEvent::Running { elapsed_secs: 4 }) {
        WaitAction::KillAndFail { message } => assert_eq!(message, "timeout after 3s"),
        _ => panic!("expected kill"),
    }
    match shell::wait_step(None, WaitEvent::WaitFailed { message: "broken".into() }) {
        WaitAction::Fail { message } => assert_eq!(message, "WSL wait failed: broken"),
        _ => panic!("expected fail"),
    }
    match termux::wait_step(None, WaitEvent::WaitFailed { message: "broken".into() }) {
        WaitAction::Fail { message } => assert_eq!(message, "wait failed: broken"),
        _ => panic!("expected fail"),
    }
}

#[test]
fn spawn_errors() {
    assert_eq!(shell::spawn_failed("not found"), "WSL spawn failed: not found");
    assert_eq!(termux::spawn_failed("not found"), "spawn failed: not found");
    assert_eq!(wsl::exec_failed("denied"), "WSL exec failed: denied");
}

#[test]
fn output_of_a_signalled_program_has_code_minus_one() {
    let o = collect_output("a".into(), "b".into(), None, false);
    assert_eq!(o.exit_code, -1);
    assert!(!o.success);
    let o = collect_output("a".into(), "b".into(), Some(3), false);
    assert_eq!((o.stdout.as_str(), o.stderr.as_str(), o.exit_code), ("a", "b", 3));
}

#[test]
fn health_checks_read_ok() {
    assert!(shell::health_check(&Ok(out("ok\n", true))));
    assert!(!shell::health_check(&Ok(out("nope\n", true))));
    assert!(!shell::health_check(&Err("spawn".into())));
    assert!(termux::health_check(&Ok(out("  ok ", false))));
    assert_eq!(shell::health_probe().args[4], "echo ok");
    assert_eq!(wsl::health_probe().args, vec!["--", "echo 'ok'"]);
}

#[test]
fn wsl_output_reads_bytes_as_text() {
    let o = wsl::collect_output("ok\n".as_bytes(), &[0x66, 0xff, 0x6f], Some(0), true);
    assert_eq!(o.stdout, "ok\n");
    assert_eq!(o.stderr, "f\u{fffd}o");
    assert_eq!(o.exit_code, 0);
    let w = wsl::execute("echo 'ok'");
    assert_eq!(w.program, "wsl");
    assert_eq!(w.args, vec!["--", "echo 'ok'"]);
    assert!(wsl::health_check(&Ok(o)));
}
