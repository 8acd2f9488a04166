//! The verified core of a WAV player and waveform viewer: RIFF/WAVE
//! decoding, the peak pyramid that summarises sample ranges, the layout of
//! the text-mode view, command-line parsing, terminal input decoding, and
//! the decisions behind playback transport, pointer handling and keyboard
//! shortcuts.

pub mod cli;
pub mod peaks;
pub mod pointer;
pub mod render;
pub mod terminal;
pub mod text;
pub mod transport;
pub mod ui;
pub mod wav;
