//! The verified core of the PRAGYA assistant: the commands it runs in WSL,
//! how it reads what they print, its health checks and report, service
//! recovery, the screenshot watcher's bookkeeping and its timestamps.
pub mod text;
pub mod clock;
pub mod process;
pub mod shell;
pub mod termux;
pub mod wsl;
pub mod tts;
pub mod opencode;
pub mod cascade;
pub mod rag;
pub mod ocr;
pub mod health;
pub mod settings;
pub mod permits;
pub mod report;
pub mod recovery;
pub mod tray;
