//! Live bilingual transcription: the logic behind the terminal program.
pub mod app;
pub mod assemble;
pub mod audio;
pub mod cli;
pub mod config_doc;
pub mod filter;
pub mod markdown;
pub mod model;
pub mod msg;
pub mod presets;
pub mod text;
pub mod time;
pub mod transcribe;
pub mod translate;
pub mod ui;
pub mod vad;
