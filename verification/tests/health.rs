use pragya::cascade;
use pragya::health::{self, GpuHealth, HealthStatus};
use pragya::opencode;
use pragya::report;
use pragya::shell::ShellOutput;

fn sh(stdout: &str) -> ShellOutput {
    ShellOutput { stdout: stdout.into(), stderr: String::new(), exit_code: 0, success: true }
}

#[test]
fn overall_verdict() {
    assert_eq!(health::overall(true, true, HealthStatus::Healthy), HealthStatus::Healthy);
    assert_eq!(health::overall(true, false, HealthStatus::Healthy), HealthStatus::Degraded);
    assert_eq!(health::overall(true, true, HealthStatus::Down), HealthStatus::Degraded);
    assert_eq!(health::overall(false, true, HealthStatus::Healthy), HealthStatus::Down);
    assert_eq!(health::overall_android(HealthStatus::Healthy), HealthStatus::Healthy);
    assert_eq!(health::overall_android(HealthStatus::Down), HealthStatus::Degraded);
}

#[test]
fn services() {
    let s = health::wsl_service(false);
    assert_eq!((s.status, s.label.as_str(), s.detail.as_str()), (HealthStatus::Down, "WSL", "Not reachable"));
    let s = health::tts_service(false);
    assert_eq!((s.status, s.detail.as_str()), (HealthStatus::Degraded, "Binary not found"));
    let st = opencode::Status { installed: true, version: "0.3.1".into(), config_path: "".into() };
    let s = health::opencode_check(&st);
    assert_eq!((s.status, s.detail.as_str()), (HealthStatus::Healthy, "v0.3.1"));
    let s = health::cascade_check(&cascade::Status { available: false });
    assert_eq!((s.status, s.detail.as_str()), (HealthStatus::Degraded, "Not available"));
    let s = health::ollama_check(&Ok(sh("200")));
    assert_eq!((s.status, s.detail.as_str()), (HealthStatus::Healthy, "API responding"));
    let s = health::ollama_check(&Ok(sh("000")));
    assert_eq!(s.status, HealthStatus::Degraded);
    let s = health::not_on_android("TTS");
    assert_eq!((s.status, s.detail.as_str()), (HealthStatus::Down, "Not available on Android"));
}

#[test]
fn gpu_probe_is_read() {
    let g = health::gpu_check(&Ok(sh("NVIDIA GeForce RTX 3060, 1234, 12288\n")));
    assert_eq!(g.status, HealthStatus::Healthy);
    assert_eq!(g.gpu_name, "NVIDIA GeForce RTX 3060");
    assert_eq!((g.vram_used_mb, g.vram_total_mb), (1234, 12288));
    let g = health::gpu_check(&Ok(sh("Card, x, \n")));
    assert_eq!((g.gpu_name.as_str(), g.vram_used_mb, g.vram_total_mb), ("Card", 0, 0));
    let g = health::gpu_check(&Ok(sh("no gpu\n")));
    assert_eq!((g.status, g.gpu_name.as_str()), (HealthStatus::Degraded, "N/A"));
    let g = health::gpu_check(&Err("x".into()));
    assert_eq!(g.status, HealthStatus::Degraded);
    assert!(!g.power_capped);
    let g = health::gpu_check(&Ok(sh("A,, B, 7")));
    let want: Vec<&str> = "A,, B, 7".split(", ").collect();
    assert_eq!(g.gpu_name, want[0]);
    assert_eq!(g.gpu_name, "A,");
    assert_eq!((g.vram_used_mb, g.vram_total_mb), (0, 7));
}

#[test]
fn report_words() {
    assert_eq!(health::status_text(HealthStatus::Degraded), format!("{:?}", HealthStatus::Degraded));
    let g = GpuHealth { status: HealthStatus::Healthy, gpu_name: "RTX".into(), vram_used_mb: 10, vram_total_mb: 20, power_capped: false };
    assert_eq!(health::gpu_detail(&g), "RTX (10 / 20 MB)");
    assert_eq!(report::tray_icon_path(HealthStatus::Down), "icons/tray-red.png");
    assert_eq!(report::tray_icon_path(HealthStatus::Degraded), "icons/tray-amber.png");
    assert_eq!(report::heartbeat_label(HealthStatus::Healthy), "\u{1f7e2}");
}

#[test]
fn health_report_rows() {
    let st = opencode::Status { installed: false, version: "".into(), config_path: "".into() };
    let dh = report::daemon_health(
        true,
        true,
        health::opencode_check(&st),
        health::cascade_check(&cascade::Status { available: true }),
        health::ollama_check(&Ok(sh("200"))),
        health::gpu_unavailable(),
        HealthStatus::Healthy,
        "10.0 / 100.0 GB (90%)".into(),
    );
    assert_eq!(dh.overall, HealthStatus::Degraded);
    let r = report::health_report(&dh);
    assert_eq!(r.overall, "Degraded");
    let labels: Vec<&str> = r.services.iter().map(|s| s.label.as_str()).collect();
    assert_eq!(labels, vec!["WSL", "TTS", "Opencode", "Cascade", "Ollama", "GPU", "Disk"]);
    assert_eq!(r.services[2].status, "Down");
    assert_eq!(r.services[2].detail, "Not installed");
    assert_eq!(r.services[5].detail, "N/A (0 / 0 MB)");
    assert_eq!(r.services[6].detail, "10.0 / 100.0 GB (90%)");
}

#[test]
fn android_health_report() {
    let p = health::ollama_probe_android();
    assert_eq!(p.program, "bash");
    assert_eq!(p.args, vec!["-c", "curl -s -o /dev/null -w '%{http_code}' http://localhost:11434/api/tags || echo '000'"]);
    let d = health::disk_probe_android();
    assert_eq!(d.args, vec!["-c", "df -h /data | tail -1 | awk '{print $2, $4, $5}'"]);
    assert_eq!(d.timeout_secs, None);
    let st = opencode::Status { installed: true, version: "1.0".into(), config_path: "".into() };
    let dh = report::daemon_health_android(
        health::opencode_check(&st),
        health::ollama_check(&Ok(sh("000"))),
        HealthStatus::Healthy,
        "1.0 / 2.0 GB (50%)".into(),
    );
    assert_eq!(dh.overall, HealthStatus::Healthy);
    assert_eq!((dh.wsl.status, dh.wsl.detail.as_str()), (HealthStatus::Down, "Not available on Android"));
    assert_eq!((dh.tts.label.as_str(), dh.cascade.label.as_str()), ("TTS", "Cascade"));
    assert_eq!(dh.cascade.detail, "Not available on Android");
    assert_eq!(dh.gpu.gpu_name, "N/A");
    let r = report::health_report(&dh);
    assert_eq!(r.overall, "Healthy");
    assert_eq!(r.services[0].status, "Down");
    assert_eq!(r.services[4].detail, "Not reachable");
    let st = opencode::Status { installed: false, version: "".into(), config_path: "".into() };
    let dh = report::daemon_health_android(health::opencode_check(&st), health::ollama_check(&Ok(sh("200"))), HealthStatus::Healthy, "".into());
    assert_eq!(dh.overall, HealthStatus::Degraded);
}
