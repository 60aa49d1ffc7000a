//! The user's settings and their defaults.
use vstd::prelude::*;
use crate::text::owned;

verus! {

/// What the user can set: the heartbeat, how often services are checked
/// and restarted, where the tools live, and the ports of the local servers.
#[derive(Debug, Clone)]
pub struct Settings {
    pub heartbeat_active: bool,
    pub heartbeat_interval_secs: u64,
    pub recovery_interval_secs: u64,
    pub fuche_coder_dir: String,
    pub screenshot_dir: String,
    pub ollama_port: u16,
    pub tts_port: u16,
    pub whisper_port: u16,
}

impl Default for Settings {
    /// The settings before the user changes any.
    fn default() -> (r: Settings)
        ensures
            r.heartbeat_active,
            r.heartbeat_interval_secs == 30,
            r.recovery_interval_secs == 60,
            r.fuche_coder_dir@ == "~/fuche-coder"@,
            r.screenshot_dir@ == "C:\\Users\\ACER\\OneDrive\\ai-screenshots"@,
            r.ollama_port == 11434,
            r.tts_port == 8750,
            r.whisper_port == 8760,
    {
        Settings {
            heartbeat_active: true,
            heartbeat_interval_secs: 30,
            recovery_interval_secs: 60,
            fuche_coder_dir: owned("~/fuche-coder"),
            screenshot_dir: owned("C:\\Users\\ACER\\OneDrive\\ai-screenshots"),
            ollama_port: 11434,
            tts_port: 8750,
            whisper_port: 8760,
        }
    }
}

} // verus!
