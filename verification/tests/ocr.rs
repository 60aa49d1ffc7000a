use pragya::ocr;
use pragya::shell::ShellOutput;

fn sh(stdout: &str) -> ShellOutput {
    ShellOutput { stdout: stdout.into(), stderr: String::new(), exit_code: 0, success: true }
}

#[test]
fn windows_paths_as_wsl_sees_them() {
    assert_eq!(ocr::win_to_wsl(r"C:\Users\ACER\shot.png"), "/mnt/c/Users/ACER/shot.png");
    assert_eq!(ocr::win_to_wsl(r"D:\pics\a.jpg"), "/mnt/d/pics/a.jpg");
    assert_eq!(ocr::win_to_wsl(r"E:\x"), "E:/x");
    assert_eq!(ocr::win_to_wsl("/already/unix"), "/already/unix");
    assert_eq!(ocr::win_to_wsl("c:\\lower"), "c:/lower");
}

#[test]
fn control_sequences_are_removed() {
    assert_eq!(ocr::strip_ansi("\x1b[32mgreen\x1b[0m text"), "green text");
    // `?` ends a sequence, so what follows it stays.
    assert_eq!(ocr::strip_ansi("\x1b[?25lspin\x1b[K"), "25lspin");
    assert_eq!(ocr::strip_ansi("plain text"), "plain text");
    assert_eq!(ocr::strip_ansi("a\x1bb"), "a\x1bb");
    assert_eq!(ocr::strip_ansi("end\x1b"), "end\x1b");
    assert_eq!(ocr::strip_ansi("\x1b\x1b[1mx"), "\x1bx");
    assert_eq!(ocr::strip_ansi("open\x1b[12;3"), "open");
}

#[test]
fn ocr_commands() {
    let r = ocr::tesseract_request(r"C:\s\a.png");
    assert_eq!(r.args, vec!["--", "tesseract", "/mnt/c/s/a.png", "stdout", "-l", "eng"]);
    assert_eq!(r.timeout_secs, Some(10));
    let m = ocr::moondream_request(r"C:\s\a.png");
    assert_eq!(m.args, vec!["--", "bash", "-l", "-c", "ollama run moondream 'describe /mnt/c/s/a.png' 2>/dev/null"]);
}

#[test]
fn ocr_text_joins_nonblank_lines_and_cuts_at_500_bytes() {
    let r = Ok(sh("  Hello \n\n world\n   \nend"));
    assert!(ocr::tesseract_cut_ok(&r));
    assert_eq!(ocr::tesseract_text(&r), "  Hello   world end");
    let long = "x".repeat(600);
    let r = Ok(sh(&long));
    assert_eq!(ocr::tesseract_text(&r).len(), 500);
    assert_eq!(ocr::tesseract_text(&Err("WSL timeout after 10s".into())), "");
    // A two-byte character across byte 500 has no cut.
    let bad = format!("{}é", "x".repeat(499));
    assert!(!ocr::tesseract_cut_ok(&Ok(sh(&bad))));
}

#[test]
fn description_is_cleaned_trimmed_and_cut() {
    let r = Ok(sh("\x1b[1G\x1b[K  A cat on a mat.  \n"));
    assert!(ocr::moondream_cut_ok(&r));
    assert_eq!(ocr::moondream_text(&r), "A cat on a mat.");
    let long = "y".repeat(400);
    assert_eq!(ocr::moondream_text(&Ok(sh(&long))).len(), 300);
    assert_eq!(ocr::moondream_text(&Err("x".into())), "");
}

#[test]
fn log_line_escapes_cells() {
    assert_eq!(
        ocr::log_line("2024-01-01 00:00:00", "a.png", "x|y\nz", "desc"),
        "| 2024-01-01 00:00:00 | a.png | x/y z | desc |\n"
    );
}

#[test]
fn screenshot_success_needs_some_text() {
    let r = ocr::screenshot_result("a.png".into(), "".into(), "".into(), "t".into());
    assert!(!r.success);
    let r = ocr::screenshot_result("a.png".into(), "txt".into(), "".into(), "t".into());
    assert!(r.success);
    let r = ocr::screenshot_result("a.png".into(), "".into(), "cat".into(), "t".into());
    assert!(r.success && r.file == "a.png" && r.timestamp == "t");
}

#[test]
fn known_files_come_from_the_second_field() {
    let log = "| 2024-01-01 00:00:00 | a.png | t | d |\nno bars\n| ts |  b.jpg \n|only\n";
    let want: Vec<String> = log.lines().filter_map(|l| l.split('|').nth(1)).map(|s| s.trim().to_string()).collect();
    assert_eq!(ocr::known_files(log), want);
    assert_eq!(ocr::known_files(log), vec!["2024-01-01 00:00:00", "ts", "only"]);
    assert!(ocr::known_files("").is_empty());
}

#[test]
fn image_extensions() {
    for e in ["jpg", "JPG", "jpeg", "JpEg", "png", "PNG"] {
        assert!(ocr::is_image_extension(e), "{}", e);
    }
    for e in ["gif", "", "pngx", "jp", "tiff"] {
        assert!(!ocr::is_image_extension(e), "{}", e);
    }
}

#[test]
fn a_logged_line_reads_back_as_its_timestamp() {
    let line = ocr::log_line("2024-05-01 10:00:00", "shot.png", "some|text\nhere", "a cat");
    assert_eq!(ocr::known_files(&line), vec!["2024-05-01 10:00:00"]);
}

#[test]
fn the_watcher_takes_up_each_image_once() {
    let log = "| a.png | x |\n| a.png | y |\n| b.jpg |\n";
    let mut known = ocr::KnownFiles::from_log(log);
    assert_eq!(known.len(), 2);
    assert!(known.contains("a.png"));
    assert!(!known.take_up("png", "a.png"));
    assert!(known.take_up("PNG", "c.png"));
    assert!(!known.take_up("png", "c.png"));
    assert!(!known.take_up("txt", "d.txt"));
    assert!(!known.contains("d.txt"));
    assert_eq!(known.len(), 3);
    let mut fresh = ocr::KnownFiles::new();
    assert!(fresh.insert("x"));
    assert!(!fresh.insert("x"));
    assert_eq!(fresh.len(), 1);
}

#[test]
fn a_control_sequence_between_texts_leaves_both_texts() {
    let y = "after\x1b[1;31mred\x1b";
    let joined = format!("plain {}{}", "\x1b[12;3m", y);
    assert_eq!(ocr::strip_ansi(&joined), format!("plain {}", ocr::strip_ansi(y)));
    assert_eq!(ocr::strip_ansi(&joined), "plain afterred\x1b");
    assert_eq!(ocr::strip_ansi("x\x1b[Ay"), "xy");
}

#[test]
fn a_run_of_files_takes_up_each_new_image_once() {
    let mut known = ocr::KnownFiles::from_log("| old.png |\n");
    let files = [
        ("png", "old.png"),
        ("jpg", "new.jpg"),
        ("JPEG", "new.jpg"),
        ("txt", "note.txt"),
        ("txt", "note.txt"),
        ("png", "two.png"),
        ("Png", "two.png"),
    ];
    let taken: Vec<bool> = files.iter().map(|(e, n)| known.take_up(e, n)).collect();
    assert_eq!(taken, vec![false, true, false, false, false, true, false]);
    assert_eq!(known.len(), 3);
}
