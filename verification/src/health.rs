//! The health of the services the app leans on: how each probe is read, the
//! overall verdict, and the words the report shows.
use vstd::prelude::*;
use crate::cascade;
use crate::opencode;
use crate::process::{printed, probe_printed, strs, ProcessRequest};
use crate::shell::{self, ShellOutput};
use crate::termux;
use crate::text::{
    chars_of, dec, owned, parse_u64, parse_u64_str, push_dec, push_str, str_is, string_of, trim,
    trim_bounds, trimmed,
};

verus! {

/// How a service is doing.
#[derive(Debug, Clone, Copy, PartialEq, Eq, Structural)]
pub enum HealthStatus {
    Healthy,
    Degraded,
    Down,
}

/// The health of one service, with a label and a word of detail.
#[derive(Debug, Clone)]
pub struct ServiceHealth {
    pub status: HealthStatus,
    pub label: String,
    pub detail: String,
}

/// The graphics card: its name and memory in MB.
#[derive(Debug, Clone)]
pub struct GpuHealth {
    pub status: HealthStatus,
    pub gpu_name: String,
    pub vram_used_mb: u64,
    pub vram_total_mb: u64,
    pub power_capped: bool,
}

fn service(status: HealthStatus, label: &str, detail: &str) -> (r: ServiceHealth)
    ensures
        r.status == status,
        r.label@ == label@,
        r.detail@ == detail@,
{
    ServiceHealth { status, label: owned(label), detail: owned(detail) }
}

// ---------------------------------------------------------------------
// The overall verdict
// ---------------------------------------------------------------------

/// Healthy when WSL, speech and opencode all are; else degraded while WSL
/// answers; else down.
pub open spec fn overall_of(wsl_ok: bool, tts_ok: bool, opencode: HealthStatus) -> HealthStatus {
    if wsl_ok && tts_ok && opencode == HealthStatus::Healthy {
        HealthStatus::Healthy
    } else if wsl_ok {
        HealthStatus::Degraded
    } else {
        HealthStatus::Down
    }
}

/// Verdict law: without WSL everything is down, whatever speech and
/// opencode report; the verdict is healthy exactly when WSL, speech and
/// opencode all are; and while WSL answers, anything short of that is
/// degraded.
pub proof fn lemma_overall_verdict(wsl_ok: bool, tts_ok: bool, opencode: HealthStatus)
    ensures
        !wsl_ok ==> overall_of(wsl_ok, tts_ok, opencode) == HealthStatus::Down,
        overall_of(wsl_ok, tts_ok, opencode) == HealthStatus::Healthy <==> (wsl_ok && tts_ok
            && opencode == HealthStatus::Healthy),
        wsl_ok && !(tts_ok && opencode == HealthStatus::Healthy) ==> overall_of(
            wsl_ok,
            tts_ok,
            opencode,
        ) == HealthStatus::Degraded,
{
}

/// The overall verdict (see `overall_of`).
pub fn overall(wsl_ok: bool, tts_ok: bool, opencode: HealthStatus) -> (r: HealthStatus)
    ensures
        r == overall_of(wsl_ok, tts_ok, opencode),
{
    if wsl_ok && tts_ok && opencode == HealthStatus::Healthy {
        HealthStatus::Healthy
    } else if wsl_ok {
        HealthStatus::Degraded
    } else {
        HealthStatus::Down
    }
}

/// On Android, where there is no WSL and no speech: healthy when opencode
/// is, else degraded.
pub fn overall_android(opencode: HealthStatus) -> (r: HealthStatus)
    ensures
        r == (if opencode == HealthStatus::Healthy {
            HealthStatus::Healthy
        } else {
            HealthStatus::Degraded
        }),
{
    if opencode == HealthStatus::Healthy {
        HealthStatus::Healthy
    } else {
        HealthStatus::Degraded
    }
}

// ---------------------------------------------------------------------
// One service each
// ---------------------------------------------------------------------

/// WSL: healthy and `Responding`, or down and `Not reachable`.
pub fn wsl_service(ok: bool) -> (r: ServiceHealth)
    ensures
        r.label@ == "WSL"@,
        ok ==> r.status == HealthStatus::Healthy && r.detail@ == "Responding"@,
        !ok ==> r.status == HealthStatus::Down && r.detail@ == "Not reachable"@,
{
    if ok {
        service(HealthStatus::Healthy, "WSL", "Responding")
    } else {
        service(HealthStatus::Down, "WSL", "Not reachable")
    }
}

/// Speech: healthy with the program found, or degraded without it.
pub fn tts_service(ok: bool) -> (r: ServiceHealth)
    ensures
        r.label@ == "TTS"@,
        ok ==> r.status == HealthStatus::Healthy && r.detail@ == "fuche-tts found"@,
        !ok ==> r.status == HealthStatus::Degraded && r.detail@ == "Binary not found"@,
{
    if ok {
        service(HealthStatus::Healthy, "TTS", "fuche-tts found")
    } else {
        service(HealthStatus::Degraded, "TTS", "Binary not found")
    }
}

/// A service that Android does not have: down, and said so.
pub fn not_on_android(label: &str) -> (r: ServiceHealth)
    ensures
        r.status == HealthStatus::Down,
        r.label@ == label@,
        r.detail@ == "Not available on Android"@,
{
    service(HealthStatus::Down, label, "Not available on Android")
}

/// Opencode: healthy with `v` and its version where installed, else down.
pub fn opencode_check(s: &opencode::Status) -> (r: ServiceHealth)
    ensures
        r.label@ == "Opencode"@,
        s.installed ==> r.status == HealthStatus::Healthy && r.detail@ == "v"@ + s.version@,
        !s.installed ==> r.status == HealthStatus::Down && r.detail@ == "Not installed"@,
{
    if s.installed {
        let mut d = owned("v");
        push_str(&mut d, s.version.as_str());
        ServiceHealth { status: HealthStatus::Healthy, label: owned("Opencode"), detail: d }
    } else {
        service(HealthStatus::Down, "Opencode", "Not installed")
    }
}

/// The cascade: healthy where the script is found, else degraded.
pub fn cascade_check(s: &cascade::Status) -> (r: ServiceHealth)
    ensures
        r.label@ == "Cascade"@,
        s.available ==> r.status == HealthStatus::Healthy && r.detail@ == "cascade.py found"@,
        !s.available ==> r.status == HealthStatus::Degraded && r.detail@ == "Not available"@,
{
    if s.available {
        service(HealthStatus::Healthy, "Cascade", "cascade.py found")
    } else {
        service(HealthStatus::Degraded, "Cascade", "Not available")
    }
}

/// The probe of the Ollama API: its HTTP status code, or `000`.
pub fn ollama_probe() -> (r: ProcessRequest)
    ensures
        r.program@ == shell::wsl_exe(),
        strs(r.args@) == seq![
            "--"@,
            "bash"@,
            "-l"@,
            "-c"@,
            "curl -s -o /dev/null -w '%{http_code}' http://localhost:11434/api/tags 2>/dev/null || echo '000'"@,
        ],
        r.timeout_secs is None,
{
    shell::execute(
        "curl -s -o /dev/null -w '%{http_code}' http://localhost:11434/api/tags 2>/dev/null || echo '000'",
    )
}

/// The probe of the Ollama API on Android, run by the device's shell: its
/// HTTP status code, or `000`.
pub fn ollama_probe_android() -> (r: ProcessRequest)
    ensures
        r.program@ == "bash"@,
        strs(r.args@) == seq![
            "-c"@,
            "curl -s -o /dev/null -w '%{http_code}' http://localhost:11434/api/tags || echo '000'"@,
        ],
        r.timeout_secs is None,
{
    termux::execute(
        "curl -s -o /dev/null -w '%{http_code}' http://localhost:11434/api/tags || echo '000'",
    )
}

/// Ollama: healthy where the probe printed `200`, else degraded.
pub fn ollama_check(probe: &Result<ShellOutput, String>) -> (r: ServiceHealth)
    ensures
        r.label@ == "Ollama"@,
        probe_printed(*probe, "200"@) ==> r.status == HealthStatus::Healthy && r.detail@
            == "API responding"@,
        !probe_printed(*probe, "200"@) ==> r.status == HealthStatus::Degraded && r.detail@
            == "Not reachable"@,
{
    if printed(probe, "200") {
        service(HealthStatus::Healthy, "Ollama", "API responding")
    } else {
        service(HealthStatus::Degraded, "Ollama", "Not reachable")
    }
}

// ---------------------------------------------------------------------
// The graphics card
// ---------------------------------------------------------------------

/// The probe of the graphics card: `name, used, total`, or `no gpu`.
pub fn gpu_probe() -> (r: ProcessRequest)
    ensures
        r.program@ == shell::wsl_exe(),
        strs(r.args@) == seq![
            "--"@,
            "bash"@,
            "-l"@,
            "-c"@,
            "nvidia-smi --query-gpu=name,memory.used,memory.total --format=csv,noheader,nounits 2>/dev/null || echo 'no gpu'"@,
        ],
        r.timeout_secs is None,
{
    shell::execute(
        "nvidia-smi --query-gpu=name,memory.used,memory.total --format=csv,noheader,nounits 2>/dev/null || echo 'no gpu'",
    )
}

/// Splitting at `", "`: the fields closed so far, the field in progress, and
/// whether the last character read was a `,` that may start a separator.
pub type SplitState = (Seq<Seq<char>>, Seq<char>, bool);

/// One character read while splitting at `", "`.
pub open spec fn split_step(st: SplitState, c: char) -> SplitState {
    let (fields, cur, comma) = st;
    if comma {
        if c == ' ' {
            (fields.push(cur), Seq::empty(), false)
        } else if c == ',' {
            (fields, cur.push(','), true)
        } else {
            (fields, cur.push(',').push(c), false)
        }
    } else if c == ',' {
        (fields, cur, true)
    } else {
        (fields, cur.push(c), false)
    }
}

/// The splitter's state after reading `s`.
pub open spec fn split_fold(s: Seq<char>) -> SplitState
    decreases s.len(),
{
    if s.len() == 0 {
        (Seq::empty(), Seq::empty(), false)
    } else {
        split_step(split_fold(s.drop_last()), s.last())
    }
}

/// The fields of `s` between the separators `", "` (`s.split(", ")`).
pub open spec fn split_comma_space(s: Seq<char>) -> Seq<Seq<char>> {
    let (fields, cur, comma) = split_fold(s);
    fields.push(
        if comma {
            cur.push(',')
        } else {
            cur
        },
    )
}

/// The number in field `i`, trimmed; 0 where the field is missing or is no
/// number.
pub open spec fn field_number(fields: Seq<Seq<char>>, i: int) -> u64 {
    if 0 <= i < fields.len() {
        match parse_u64(trim(fields[i])) {
            Some(n) => n,
            None => 0,
        }
    } else {
        0
    }
}

/// The card's name and memory as the probe printed them.
pub open spec fn gpu_fields(stdout: Seq<char>) -> (Seq<char>, u64, u64) {
    let p = split_comma_space(trim(stdout));
    (if p.len() > 0 {
        p[0]
    } else {
        "Unknown"@
    }, field_number(p, 1), field_number(p, 2))
}

fn split_fields(v: &Vec<char>) -> (r: Vec<Vec<char>>)
    ensures
        crate::text::views(r@) == split_comma_space(v@),
{
    let mut fields: Vec<Vec<char>> = Vec::new();
    let mut cur: Vec<char> = Vec::new();
    let mut comma = false;
    let mut i: usize = 0;
    while i < v.len()
        invariant
            i <= v@.len(),
            (crate::text::views(fields@), cur@, comma) == split_fold(v@.take(i as int)),
        decreases v.len() - i,
    {
        let c = v[i];
        let ghost before = crate::text::views(fields@);
        proof {
            assert(v@.take(i + 1).drop_last() =~= v@.take(i as int));
            assert(v@.take(i + 1).last() == c);
        }
        if comma {
            if c == ' ' {
                let done = cur;
                fields.push(done);
                cur = Vec::new();
                comma = false;
                assert(crate::text::views(fields@) =~= before.push(done@));
            } else if c == ',' {
                cur.push(',');
            } else {
                cur.push(',');
                cur.push(c);
                comma = false;
            }
        } else if c == ',' {
            comma = true;
        } else {
            cur.push(c);
        }
        i = i + 1;
    }
    assert(v@.take(i as int) =~= v@);
    if comma {
        cur.push(',');
    }
    let ghost before = crate::text::views(fields@);
    let last = cur;
    fields.push(last);
    assert(crate::text::views(fields@) =~= before.push(last@));
    fields
}

fn number_in(fields: &Vec<Vec<char>>, i: usize) -> (r: u64)
    ensures
        r == field_number(crate::text::views(fields@), i as int),
{
    if i < fields.len() {
        let f = &fields[i];
        let (lo, hi) = trim_bounds(f);
        let t = crate::text::string_of_range(f, lo, hi);
        match parse_u64_str(t.as_str()) {
            Some(n) => n,
            None => 0,
        }
    } else {
        0
    }
}

/// Whether the probe found a card: it ran and did not print exactly
/// `no gpu` and a line break.
pub open spec fn found_gpu(probe: Result<ShellOutput, String>) -> bool {
    probe matches Ok(out) && out.stdout@ != "no gpu\n"@
}

/// The graphics card as the probe reports it: healthy with its name and
/// memory where a card answered; otherwise degraded, named `N/A`, with no
/// memory. A card is never reported power-capped.
pub fn gpu_check(probe: &Result<ShellOutput, String>) -> (r: GpuHealth)
    ensures
        !r.power_capped,
        found_gpu(*probe) ==> ({
            let (name, used, total) = gpu_fields(probe->Ok_0.stdout@);
            &&& r.status == HealthStatus::Healthy
            &&& r.gpu_name@ == name
            &&& r.vram_used_mb == used
            &&& r.vram_total_mb == total
        }),
        !found_gpu(*probe) ==> r.status == HealthStatus::Degraded && r.gpu_name@ == "N/A"@
            && r.vram_used_mb == 0 && r.vram_total_mb == 0,
{
    match probe {
        Ok(out) => {
            if !str_is(out.stdout.as_str(), "no gpu\n") {
                let t = trimmed(out.stdout.as_str());
                let v = chars_of(t.as_str());
                let fields = split_fields(&v);
                let name = if fields.len() > 0 {
                    string_of(&fields[0])
                } else {
                    owned("Unknown")
                };
                let used = number_in(&fields, 1);
                let total = number_in(&fields, 2);
                return GpuHealth {
                    status: HealthStatus::Healthy,
                    gpu_name: name,
                    vram_used_mb: used,
                    vram_total_mb: total,
                    power_capped: false,
                };
            }
        },
        Err(_) => {},
    }
    gpu_unavailable()
}

/// No card: degraded, named `N/A`, with no memory.
pub fn gpu_unavailable() -> (r: GpuHealth)
    ensures
        r.status == HealthStatus::Degraded,
        r.gpu_name@ == "N/A"@,
        r.vram_used_mb == 0,
        r.vram_total_mb == 0,
        !r.power_capped,
{
    GpuHealth {
        status: HealthStatus::Degraded,
        gpu_name: owned("N/A"),
        vram_used_mb: 0,
        vram_total_mb: 0,
        power_capped: false,
    }
}

/// The probe of the disk: size, free space and use of `/`.
pub fn disk_probe() -> (r: ProcessRequest)
    ensures
        r.program@ == shell::wsl_exe(),
        strs(r.args@) == seq!["--"@, "bash"@, "-l"@, "-c"@, "df -h / | tail -1 | awk '{print $2, $4, $5}'"@],
        r.timeout_secs is None,
{
    shell::execute("df -h / | tail -1 | awk '{print $2, $4, $5}'")
}

/// The probe of the disk on Android: size, free space and use of `/data`.
pub fn disk_probe_android() -> (r: ProcessRequest)
    ensures
        r.program@ == "bash"@,
        strs(r.args@) == seq!["-c"@, "df -h /data | tail -1 | awk '{print $2, $4, $5}'"@],
        r.timeout_secs is None,
{
    termux::execute("df -h /data | tail -1 | awk '{print $2, $4, $5}'")
}

// ---------------------------------------------------------------------
// Words for the report
// ---------------------------------------------------------------------

/// The name of a status, as `{:?}` writes it.
pub open spec fn status_name(s: HealthStatus) -> Seq<char> {
    match s {
        HealthStatus::Healthy => "Healthy"@,
        HealthStatus::Degraded => "Degraded"@,
        HealthStatus::Down => "Down"@,
    }
}

/// The name of a status, as `{:?}` writes it.
pub fn status_text(s: HealthStatus) -> (r: String)
    ensures
        r@ == status_name(s),
{
    match s {
        HealthStatus::Healthy => owned("Healthy"),
        HealthStatus::Degraded => owned("Degraded"),
        HealthStatus::Down => owned("Down"),
    }
}

/// The card's detail: `name (used / total MB)`.
pub open spec fn gpu_detail_text(g: GpuHealth) -> Seq<char> {
    g.gpu_name@ + " ("@ + dec(g.vram_used_mb as nat) + " / "@ + dec(g.vram_total_mb as nat)
        + " MB)"@
}

/// The card's detail (see `gpu_detail_text`).
pub fn gpu_detail(g: &GpuHealth) -> (r: String)
    ensures
        r@ == gpu_detail_text(*g),
{
    let mut r = owned(g.gpu_name.as_str());
    push_str(&mut r, " (");
    push_dec(&mut r, g.vram_used_mb);
    push_str(&mut r, " / ");
    push_dec(&mut r, g.vram_total_mb);
    push_str(&mut r, " MB)");
    r
}

} // verus!
