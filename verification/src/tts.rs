//! Speech through the `fuche-tts` program in WSL: the command line that
//! asks for it, what its run means, and whether the program is there.
use vstd::prelude::*;
use crate::process::ProcessRequest;
use crate::text::{chars_of, owned, push_chars, push_str, quote_escape, replace_char, replace_chars};
use crate::wsl::{self, WslOutput};

verus! {

/// The outcome of one request to speak.
#[derive(Debug, Clone)]
pub struct TtsResult {
    pub success: bool,
    pub message: String,
    pub elapsed_ms: u64,
}

/// `text` made safe for the single-quoted word inside the double-quoted
/// `bash -c` argument: `'` becomes `'\''`, then `"` becomes `\"`.
pub open spec fn tts_escape(text: Seq<char>) -> Seq<char> {
    replace_char(replace_char(text, '\'', quote_escape()), '"', seq!['\\', '"'])
}

/// The command line that speaks `text`; `speed` is the speed as the caller
/// writes it.
pub open spec fn speak_command_text(
    text: Seq<char>,
    backend: Seq<char>,
    preset: Seq<char>,
    speed: Seq<char>,
    fx: Seq<char>,
) -> Seq<char> {
    let fx_flag = if fx.len() == 0 {
        Seq::empty()
    } else {
        "--fx "@ + fx
    };
    "bash -l -c \"fuche-tts '"@ + tts_escape(text) + "' --speed "@ + speed + " --preset "@ + preset
        + " --backend "@ + backend + " "@ + fx_flag + "\""@
}

/// The command line that speaks `text` (see `speak_command_text`).
pub fn speak_command(text: &str, backend: &str, preset: &str, speed: &str, fx: &str) -> (r: String)
    ensures
        r@ == speak_command_text(text@, backend@, preset@, speed@, fx@),
{
    let v = chars_of(text);
    let e1 = replace_chars(&v, '\'', "'\\''");
    let e2 = replace_chars(&e1, '"', "\\\"");
    proof {
        reveal_strlit("'\\''");
        reveal_strlit("\\\"");
        assert("'\\''"@ =~= quote_escape());
        assert("\\\""@ =~= seq!['\\', '"']);
    }
    let mut r = owned("bash -l -c \"fuche-tts '");
    push_chars(&mut r, &e2);
    push_str(&mut r, "' --speed ");
    push_str(&mut r, speed);
    push_str(&mut r, " --preset ");
    push_str(&mut r, preset);
    push_str(&mut r, " --backend ");
    push_str(&mut r, backend);
    push_str(&mut r, " ");
    let fxv = chars_of(fx);
    if fxv.len() > 0 {
        push_str(&mut r, "--fx ");
        push_str(&mut r, fx);
    }
    push_str(&mut r, "\"");
    proof {
        let fx_flag = if fx@.len() == 0 {
            Seq::<char>::empty()
        } else {
            "--fx "@ + fx@
        };
        assert(r@ =~= speak_command_text(text@, backend@, preset@, speed@, fx@));
    }
    r
}

/// The run of `speak_command(..)` in WSL.
pub fn speak_request(text: &str, backend: &str, preset: &str, speed: &str, fx: &str) -> (r: ProcessRequest)
    ensures
        r.program@ == "wsl"@,
        crate::process::strs(r.args@) == seq![
            "--"@,
            speak_command_text(text@, backend@, preset@, speed@, fx@),
        ],
        r.timeout_secs is None,
{
    let cmd = speak_command(text, backend, preset, speed, fx);
    wsl::execute(cmd.as_str())
}

/// The outcome of a request to speak that took `elapsed_ms`: success is the
/// program's; the message is `OK`, what it wrote to stderr, or why it could
/// not run.
pub fn speak_result(result: Result<WslOutput, String>, elapsed_ms: u64) -> (r: TtsResult)
    ensures
        r.elapsed_ms == elapsed_ms,
        match result {
            Ok(out) => r.success == out.success && r.message@ == (if out.success {
                "OK"@
            } else {
                out.stderr@
            }),
            Err(e) => !r.success && r.message@ == e@,
        },
{
    match result {
        Ok(out) => {
            let message = if out.success {
                owned("OK")
            } else {
                out.stderr
            };
            TtsResult { success: out.success, message, elapsed_ms }
        },
        Err(e) => TtsResult { success: false, message: e, elapsed_ms },
    }
}

/// Where no speech program can run (Android): a failure at once.
pub fn unavailable() -> (r: TtsResult)
    ensures
        !r.success,
        r.message@ == "no TTS on Android"@,
        r.elapsed_ms == 0,
{
    TtsResult { success: false, message: owned("no TTS on Android"), elapsed_ms: 0 }
}

/// The probe that `health` reads: the program's version.
pub fn health_probe() -> (r: ProcessRequest)
    ensures
        r.program@ == "wsl"@,
        crate::process::strs(r.args@) == seq![
            "--"@,
            "bash -l -c \"fuche-tts --version\" 2>/dev/null"@,
        ],
        r.timeout_secs is None,
{
    wsl::execute("bash -l -c \"fuche-tts --version\" 2>/dev/null")
}

/// Whether the speech program is there: the probe ran and succeeded.
pub fn health(probe: &Result<WslOutput, String>) -> (r: bool)
    ensures
        r == (probe matches Ok(out) && out.success),
{
    match probe {
        Ok(out) => out.success,
        Err(_) => false,
    }
}

} // verus!
