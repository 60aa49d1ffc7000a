//! The health report the window shows, the tray icon and the heartbeat
//! mark for an overall status.
use vstd::prelude::*;
use crate::health::{
    gpu_detail, gpu_detail_text, gpu_unavailable, not_on_android, overall, overall_android,
    overall_of, status_name, status_text, tts_service, wsl_service, GpuHealth, HealthStatus,
    ServiceHealth,
};
use crate::text::owned;

verus! {

/// Everything the checks found. The disk is held as its status and the
/// detail line the caller wrote for it.
#[derive(Debug, Clone)]
pub struct DaemonHealth {
    pub wsl: ServiceHealth,
    pub tts: ServiceHealth,
    pub opencode: ServiceHealth,
    pub cascade: ServiceHealth,
    pub ollama: ServiceHealth,
    pub gpu: GpuHealth,
    pub disk_status: HealthStatus,
    pub disk_detail: String,
    pub overall: HealthStatus,
}

/// One row of the report.
#[derive(Debug, Clone)]
pub struct ServiceReport {
    pub label: String,
    pub status: String,
    pub detail: String,
}

/// The report: the overall status and one row per service.
#[derive(Debug, Clone)]
pub struct HealthReport {
    pub overall: String,
    pub services: Vec<ServiceReport>,
}

/// The health found on Windows: WSL and speech from their probes, the
/// other services as checked, and the overall verdict of `overall_of`.
pub fn daemon_health(
    wsl_ok: bool,
    tts_ok: bool,
    opencode: ServiceHealth,
    cascade: ServiceHealth,
    ollama: ServiceHealth,
    gpu: GpuHealth,
    disk_status: HealthStatus,
    disk_detail: String,
) -> (r: DaemonHealth)
    ensures
        r.overall == overall_of(wsl_ok, tts_ok, opencode.status),
        r.wsl.label@ == "WSL"@,
        wsl_ok ==> r.wsl.status == HealthStatus::Healthy && r.wsl.detail@ == "Responding"@,
        !wsl_ok ==> r.wsl.status == HealthStatus::Down && r.wsl.detail@ == "Not reachable"@,
        r.tts.label@ == "TTS"@,
        tts_ok ==> r.tts.status == HealthStatus::Healthy && r.tts.detail@ == "fuche-tts found"@,
        !tts_ok ==> r.tts.status == HealthStatus::Degraded && r.tts.detail@
            == "Binary not found"@,
        r.opencode == opencode,
        r.cascade == cascade,
        r.ollama == ollama,
        r.gpu == gpu,
        r.disk_status == disk_status,
        r.disk_detail == disk_detail,
{
    let o = overall(wsl_ok, tts_ok, opencode.status);
    DaemonHealth {
        wsl: wsl_service(wsl_ok),
        tts: tts_service(tts_ok),
        opencode,
        cascade,
        ollama,
        gpu,
        disk_status,
        disk_detail,
        overall: o,
    }
}

/// The health found on Android: WSL, speech and cascade are not there,
/// there is no graphics card to ask, and the verdict follows opencode alone.
pub fn daemon_health_android(
    opencode: ServiceHealth,
    ollama: ServiceHealth,
    disk_status: HealthStatus,
    disk_detail: String,
) -> (r: DaemonHealth)
    ensures
        r.overall == (if opencode.status == HealthStatus::Healthy {
            HealthStatus::Healthy
        } else {
            HealthStatus::Degraded
        }),
        r.wsl.status == HealthStatus::Down,
        r.wsl.label@ == "WSL"@,
        r.wsl.detail@ == "Not available on Android"@,
        r.tts.status == HealthStatus::Down,
        r.tts.label@ == "TTS"@,
        r.tts.detail@ == "Not available on Android"@,
        r.cascade.status == HealthStatus::Down,
        r.cascade.label@ == "Cascade"@,
        r.cascade.detail@ == "Not available on Android"@,
        r.gpu.status == HealthStatus::Degraded,
        r.gpu.gpu_name@ == "N/A"@,
        r.gpu.vram_used_mb == 0,
        r.gpu.vram_total_mb == 0,
        !r.gpu.power_capped,
        r.opencode == opencode,
        r.ollama == ollama,
        r.disk_status == disk_status,
        r.disk_detail == disk_detail,
{
    let o = overall_android(opencode.status);
    DaemonHealth {
        wsl: not_on_android("WSL"),
        tts: not_on_android("TTS"),
        opencode,
        cascade: not_on_android("Cascade"),
        ollama,
        gpu: gpu_unavailable(),
        disk_status,
        disk_detail,
        overall: o,
    }
}

/// Whether `row` reads `label`, the name of `status`, and `detail`.
pub open spec fn row(r: ServiceReport, label: Seq<char>, status: HealthStatus, detail: Seq<char>) -> bool {
    &&& r.label@ == label
    &&& r.status@ == status_name(status)
    &&& r.detail@ == detail
}

fn make_row(label: &str, status: HealthStatus, detail: String) -> (r: ServiceReport)
    ensures
        row(r, label@, status, detail@),
{
    ServiceReport { label: owned(label), status: status_text(status), detail }
}

/// The report of `dh`: WSL, TTS, Opencode, Cascade, Ollama, GPU and Disk,
/// in that order, each with its status and detail.
pub fn health_report(dh: &DaemonHealth) -> (r: HealthReport)
    ensures
        r.overall@ == status_name(dh.overall),
        r.services@.len() == 7,
        row(r.services@[0], "WSL"@, dh.wsl.status, dh.wsl.detail@),
        row(r.services@[1], "TTS"@, dh.tts.status, dh.tts.detail@),
        row(r.services@[2], "Opencode"@, dh.opencode.status, dh.opencode.detail@),
        row(r.services@[3], "Cascade"@, dh.cascade.status, dh.cascade.detail@),
        row(r.services@[4], "Ollama"@, dh.ollama.status, dh.ollama.detail@),
        row(r.services@[5], "GPU"@, dh.gpu.status, gpu_detail_text(dh.gpu)),
        row(r.services@[6], "Disk"@, dh.disk_status, dh.disk_detail@),
{
    let mut services: Vec<ServiceReport> = Vec::new();
    services.push(make_row("WSL", dh.wsl.status, dh.wsl.detail.clone()));
    services.push(make_row("TTS", dh.tts.status, dh.tts.detail.clone()));
    services.push(make_row("Opencode", dh.opencode.status, dh.opencode.detail.clone()));
    services.push(make_row("Cascade", dh.cascade.status, dh.cascade.detail.clone()));
    services.push(make_row("Ollama", dh.ollama.status, dh.ollama.detail.clone()));
    services.push(make_row("GPU", dh.gpu.status, gpu_detail(&dh.gpu)));
    services.push(make_row("Disk", dh.disk_status, dh.disk_detail.clone()));
    HealthReport { overall: status_text(dh.overall), services }
}

/// The tray icon for an overall status: green, amber or red.
pub open spec fn tray_icon_text(s: HealthStatus) -> Seq<char> {
    match s {
        HealthStatus::Healthy => "icons/tray-green.png"@,
        HealthStatus::Degraded => "icons/tray-amber.png"@,
        HealthStatus::Down => "icons/tray-red.png"@,
    }
}

/// Icon law: a healthy system shows the green icon, a degraded one the
/// amber icon and a system that is down the red one, so no two statuses
/// share an icon.
pub proof fn lemma_tray_icons(a: HealthStatus, b: HealthStatus)
    ensures
        tray_icon_text(HealthStatus::Healthy) == "icons/tray-green.png"@,
        tray_icon_text(HealthStatus::Degraded) == "icons/tray-amber.png"@,
        tray_icon_text(HealthStatus::Down) == "icons/tray-red.png"@,
        tray_icon_text(a) == tray_icon_text(b) ==> a == b,
{
    reveal_strlit("icons/tray-green.png");
    reveal_strlit("icons/tray-amber.png");
    reveal_strlit("icons/tray-red.png");
    let g = "icons/tray-green.png"@;
    let m = "icons/tray-amber.png"@;
    let r = "icons/tray-red.png"@;
    assert(g[11] != m[11]);
    assert(g[11] != r[11]);
    assert(m[11] != r[11]);
}

/// The tray icon, relative to the resource folder, for an overall status.
pub fn tray_icon_path(s: HealthStatus) -> (r: String)
    ensures
        r@ == tray_icon_text(s),
{
    match s {
        HealthStatus::Healthy => owned("icons/tray-green.png"),
        HealthStatus::Degraded => owned("icons/tray-amber.png"),
        HealthStatus::Down => owned("icons/tray-red.png"),
    }
}

/// The heartbeat mark for an overall status: a green, yellow or red circle.
pub fn heartbeat_label(s: HealthStatus) -> (r: String)
    ensures
        r@ == (match s {
            HealthStatus::Healthy => "\u{1f7e2}"@,
            HealthStatus::Degraded => "\u{1f7e1}"@,
            HealthStatus::Down => "\u{1f534}"@,
        }),
{
    match s {
        HealthStatus::Healthy => owned("\u{1f7e2}"),
        HealthStatus::Degraded => owned("\u{1f7e1}"),
        HealthStatus::Down => owned("\u{1f534}"),
    }
}

} // verus!
