//! Bringing dead services back: four probes in turn (Ollama, the search
//! daemon, the speech server, whisper.cpp), each read as up or down, and
//! what to run or say for one that is down. The caller runs each probe and
//! hands its result back.
use vstd::prelude::*;
use crate::process::{printed, probe_printed, ProcessRequest};
use crate::settings::Settings;
use crate::shell::{self, ShellOutput};
use crate::text::{dec, owned, push_dec, push_str};

verus! {

/// The service whose probe is running, or the end of the round.
#[derive(Debug, Clone, Copy, PartialEq, Eq, Structural)]
pub enum RecoveryStage {
    Ollama,
    SearchDaemon,
    Tts,
    Whisper,
    Done,
}

/// What follows one probe: a line to log, a command that starts the
/// service, and the stage (with its probe) that comes next.
pub struct RecoveryStep {
    pub log: Option<String>,
    pub start: Option<ProcessRequest>,
    pub next: RecoveryStage,
    pub next_probe: Option<ProcessRequest>,
}

/// The command that asks an HTTP server on `port` (at `path`) for its
/// status code, printing `000` where nothing answers.
pub open spec fn http_probe_text(port: u16, path: Seq<char>) -> Seq<char> {
    "curl -s -o /dev/null -w '%{http_code}' http://localhost:"@ + dec(port as nat) + path
        + " 2>/dev/null || echo '000'"@
}

fn http_probe(port: u16, path: &str) -> (r: String)
    ensures
        r@ == http_probe_text(port, path@),
{
    let mut r = owned("curl -s -o /dev/null -w '%{http_code}' http://localhost:");
    push_dec(&mut r, port as u64);
    push_str(&mut r, path);
    push_str(&mut r, " 2>/dev/null || echo '000'");
    r
}

/// The command that starts the search daemon from `dir`.
pub open spec fn daemon_start_text(dir: Seq<char>) -> Seq<char> {
    "bash -l -c 'cd "@ + dir
        + " && source venv/bin/activate && setsid python3 -u search.py --daemon > /dev/null 2>&1 &'"@
}

/// The command that probes `stage`, as `shell::execute` runs it.
pub open spec fn probe_text(settings: Settings, stage: RecoveryStage) -> Seq<char> {
    match stage {
        RecoveryStage::Ollama => http_probe_text(settings.ollama_port, "/api/tags"@),
        RecoveryStage::SearchDaemon => "test -S /tmp/search-daemon.sock && echo ok || echo no"@,
        RecoveryStage::Tts => http_probe_text(settings.tts_port, Seq::empty()),
        RecoveryStage::Whisper => http_probe_text(settings.whisper_port, Seq::empty()),
        RecoveryStage::Done => Seq::empty(),
    }
}

/// Whether a request runs `command` in WSL through a login shell.
pub open spec fn runs(r: ProcessRequest, command: Seq<char>) -> bool {
    &&& r.program@ == shell::wsl_exe()
    &&& crate::process::strs(r.args@) == seq!["--"@, "bash"@, "-l"@, "-c"@, command]
    &&& r.timeout_secs is None
}

/// The probe of `stage` (none after the last).
pub fn probe_for(settings: &Settings, stage: RecoveryStage) -> (r: Option<ProcessRequest>)
    ensures
        stage == RecoveryStage::Done ==> r is None,
        stage != RecoveryStage::Done ==> (r matches Some(p) && runs(p, probe_text(*settings, stage))),
{
    match stage {
        RecoveryStage::Ollama => {
            let c = http_probe(settings.ollama_port, "/api/tags");
            Some(shell::execute(c.as_str()))
        },
        RecoveryStage::SearchDaemon => Some(
            shell::execute("test -S /tmp/search-daemon.sock && echo ok || echo no"),
        ),
        RecoveryStage::Tts => {
            let c = http_probe(settings.tts_port, "");
            proof {
                reveal_strlit("");
            }
            Some(shell::execute(c.as_str()))
        },
        RecoveryStage::Whisper => {
            let c = http_probe(settings.whisper_port, "");
            proof {
                reveal_strlit("");
            }
            Some(shell::execute(c.as_str()))
        },
        RecoveryStage::Done => None,
    }
}

/// The first probe of a round.
pub fn start(settings: &Settings) -> (r: ProcessRequest)
    ensures
        runs(r, probe_text(*settings, RecoveryStage::Ollama)),
{
    let c = http_probe(settings.ollama_port, "/api/tags");
    shell::execute(c.as_str())
}

/// The stage after `stage`.
pub open spec fn next_stage(stage: RecoveryStage) -> RecoveryStage {
    match stage {
        RecoveryStage::Ollama => RecoveryStage::SearchDaemon,
        RecoveryStage::SearchDaemon => RecoveryStage::Tts,
        RecoveryStage::Tts => RecoveryStage::Whisper,
        RecoveryStage::Whisper => RecoveryStage::Done,
        RecoveryStage::Done => RecoveryStage::Done,
    }
}

/// Whether the probe of `stage` found its service up: the search daemon's
/// printed `ok`, the others' printed the HTTP status `200`.
pub open spec fn service_up(stage: RecoveryStage, probe: Result<ShellOutput, String>) -> bool {
    if stage == RecoveryStage::SearchDaemon {
        probe_printed(probe, "ok"@)
    } else {
        probe_printed(probe, "200"@)
    }
}

/// What follows the probe of `stage`: for a service that is down, Ollama
/// and the search daemon are started and logged; the speech server and
/// whisper.cpp are only logged. Then the next stage and its probe.
pub fn recovery_step(settings: &Settings, stage: RecoveryStage, probe: &Result<ShellOutput, String>) -> (r: RecoveryStep)
    requires
        stage != RecoveryStage::Done,
    ensures
        r.next == next_stage(stage),
        r.next == RecoveryStage::Done ==> r.next_probe is None,
        r.next != RecoveryStage::Done ==> (r.next_probe matches Some(p) && runs(
            p,
            probe_text(*settings, r.next),
        )),
        service_up(stage, *probe) ==> r.log is None && r.start is None,
        !service_up(stage, *probe) ==> match stage {
            RecoveryStage::Ollama => (r.log matches Some(l) && l@
                == "Auto-recovery: starting Ollama..."@) && (r.start matches Some(s) && runs(
                s,
                "bash -l -c 'ollama serve > /dev/null 2>&1 &'"@,
            )),
            RecoveryStage::SearchDaemon => (r.log matches Some(l) && l@
                == "Auto-recovery: starting search daemon..."@) && (r.start matches Some(s)
                && runs(s, daemon_start_text(settings.fuche_coder_dir@))),
            RecoveryStage::Tts => (r.log matches Some(l) && l@
                == "Auto-recovery: TTS daemon not responding (OK if not needed)"@)
                && r.start is None,
            _ => (r.log matches Some(l) && l@
                == "Auto-recovery: whisper.cpp not responding (OK if not needed)"@)
                && r.start is None,
        },
{
    let up = if stage == RecoveryStage::SearchDaemon {
        printed(probe, "ok")
    } else {
        printed(probe, "200")
    };
    let next = match stage {
        RecoveryStage::Ollama => RecoveryStage::SearchDaemon,
        RecoveryStage::SearchDaemon => RecoveryStage::Tts,
        RecoveryStage::Tts => RecoveryStage::Whisper,
        _ => RecoveryStage::Done,
    };
    let next_probe = probe_for(settings, next);
    if up {
        return RecoveryStep { log: None, start: None, next, next_probe };
    }
    match stage {
        RecoveryStage::Ollama => RecoveryStep {
            log: Some(owned("Auto-recovery: starting Ollama...")),
            start: Some(shell::execute("bash -l -c 'ollama serve > /dev/null 2>&1 &'")),
            next,
            next_probe,
        },
        RecoveryStage::SearchDaemon => {
            let mut c = owned("bash -l -c 'cd ");
            push_str(&mut c, settings.fuche_coder_dir.as_str());
            push_str(
                &mut c,
                " && source venv/bin/activate && setsid python3 -u search.py --daemon > /dev/null 2>&1 &'",
            );
            RecoveryStep {
                log: Some(owned("Auto-recovery: starting search daemon...")),
                start: Some(shell::execute(c.as_str())),
                next,
                next_probe,
            }
        },
        RecoveryStage::Tts => RecoveryStep {
            log: Some(owned("Auto-recovery: TTS daemon not responding (OK if not needed)")),
            start: None,
            next,
            next_probe,
        },
        _ => RecoveryStep {
            log: Some(owned("Auto-recovery: whisper.cpp not responding (OK if not needed)")),
            start: None,
            next,
            next_probe,
        },
    }
}

/// Round law: from the first probe, four steps visit Ollama, the search
/// daemon, the speech server and whisper.cpp in that order, and end.
pub proof fn lemma_round_visits_all()
    ensures
        next_stage(RecoveryStage::Ollama) == RecoveryStage::SearchDaemon,
        next_stage(next_stage(RecoveryStage::Ollama)) == RecoveryStage::Tts,
        next_stage(next_stage(next_stage(RecoveryStage::Ollama))) == RecoveryStage::Whisper,
        next_stage(next_stage(next_stage(next_stage(RecoveryStage::Ollama))))
            == RecoveryStage::Done,
{
}

} // verus!
