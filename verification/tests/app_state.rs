use pragya::permits::Permits;
use pragya::recovery::{self, RecoveryStage};
use pragya::settings::Settings;
use pragya::shell::ShellOutput;
use pragya::tray;

fn sh(stdout: &str) -> ShellOutput {
    ShellOutput { stdout: stdout.into(), stderr: String::new(), exit_code: 0, success: true }
}

#[test]
fn default_settings() {
    let s = Settings::default();
    assert!(s.heartbeat_active);
    assert_eq!((s.heartbeat_interval_secs, s.recovery_interval_secs), (30, 60));
    assert_eq!(s.fuche_coder_dir, "~/fuche-coder");
    assert_eq!(s.screenshot_dir, r"C:\Users\ACER\OneDrive\ai-screenshots");
    assert_eq!((s.ollama_port, s.tts_port, s.whisper_port), (11434, 8750, 8760));
}

#[test]
fn permits_bound_concurrency() {
    let mut p = Permits::new(2);
    assert_eq!((p.available(), p.capacity()), (2, 2));
    assert!(p.try_acquire());
    assert!(p.try_acquire());
    assert!(!p.try_acquire());
    assert_eq!(p.available(), 0);
    p.release();
    assert_eq!(p.available(), 1);
    assert!(p.try_acquire());
    p.release();
    p.release();
    assert_eq!(p.available(), 2);
    assert_eq!(p.capacity(), 2);
}

#[test]
fn recovery_round() {
    let s = Settings::default();
    let first = recovery::start(&s);
    assert_eq!(first.args[4], "curl -s -o /dev/null -w '%{http_code}' http://localhost:11434/api/tags 2>/dev/null || echo '000'");
    let step = recovery::recovery_step(&s, RecoveryStage::Ollama, &Ok(sh("000")));
    assert_eq!(step.log.as_deref(), Some("Auto-recovery: starting Ollama..."));
    assert_eq!(step.start.unwrap().args[4], "bash -l -c 'ollama serve > /dev/null 2>&1 &'");
    assert_eq!(step.next, RecoveryStage::SearchDaemon);
    assert_eq!(step.next_probe.unwrap().args[4], "test -S /tmp/search-daemon.sock && echo ok || echo no");
    let step = recovery::recovery_step(&s, RecoveryStage::SearchDaemon, &Ok(sh("no\n")));
    assert_eq!(
        step.start.unwrap().args[4],
        "bash -l -c 'cd ~/fuche-coder && source venv/bin/activate && setsid python3 -u search.py --daemon > /dev/null 2>&1 &'"
    );
    assert_eq!(step.next_probe.unwrap().args[4], "curl -s -o /dev/null -w '%{http_code}' http://localhost:8750 2>/dev/null || echo '000'");
    let step = recovery::recovery_step(&s, RecoveryStage::Tts, &Ok(sh("200\n")));
    assert!(step.log.is_none() && step.start.is_none());
    assert_eq!(step.next, RecoveryStage::Whisper);
    let step = recovery::recovery_step(&s, RecoveryStage::Whisper, &Err("x".into()));
    assert_eq!(step.log.as_deref(), Some("Auto-recovery: whisper.cpp not responding (OK if not needed)"));
    assert!(step.start.is_none());
    assert_eq!(step.next, RecoveryStage::Done);
    assert!(step.next_probe.is_none());
    let step = recovery::recovery_step(&s, RecoveryStage::SearchDaemon, &Ok(sh("ok\n")));
    assert!(step.start.is_none());
}

#[test]
fn tray_icon_decodes_png_or_falls_back() {
    let img = image::RgbaImage::from_raw(2, 1, vec![255, 0, 0, 255, 0, 0, 255, 128]).unwrap();
    let mut png: Vec<u8> = Vec::new();
    image::DynamicImage::ImageRgba8(img)
        .write_to(&mut std::io::Cursor::new(&mut png), image::ImageFormat::Png)
        .unwrap();
    let t = tray::load_tray_png(Some(&png));
    assert_eq!((t.width, t.height), (2, 1));
    assert_eq!(t.pixels, vec![255, 0, 0, 255, 0, 0, 255, 128]);
    let rgb = image::RgbImage::from_raw(1, 1, vec![1, 2, 3]).unwrap();
    let mut png2: Vec<u8> = Vec::new();
    image::DynamicImage::ImageRgb8(rgb)
        .write_to(&mut std::io::Cursor::new(&mut png2), image::ImageFormat::Png)
        .unwrap();
    assert_eq!(tray::load_tray_png(Some(&png2)).pixels, vec![1, 2, 3, 255]);
    let blank = tray::load_tray_png(Some(b"not an image"));
    assert_eq!((blank.width, blank.height, blank.pixels), (1, 1, vec![0, 0, 0, 0]));
    let none = tray::load_tray_png(None);
    assert_eq!(none.pixels, vec![0, 0, 0, 0]);
}

#[test]
fn tray_icon_holds_four_bytes_per_pixel() {
    let img = image::RgbImage::from_raw(3, 2, vec![7; 18]).unwrap();
    let mut png: Vec<u8> = Vec::new();
    image::DynamicImage::ImageRgb8(img)
        .write_to(&mut std::io::Cursor::new(&mut png), image::ImageFormat::Png)
        .unwrap();
    let t = tray::load_tray_png(Some(&png));
    assert_eq!((t.width, t.height), (3, 2));
    assert_eq!(t.pixels.len(), 4 * 3 * 2);
    let blank = tray::load_tray_png(Some(b"\x89PNG broken"));
    assert_eq!(blank.pixels.len() as u32, 4 * blank.width * blank.height);
}
