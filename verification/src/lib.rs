//! Verified core of a batch video converter: output presets and the ffmpeg
//! argument lists they produce, the job queue and its rules, and the small
//! parsers that read what ffmpeg, ffprobe and the desktop report.

pub mod text;
pub mod media;
pub mod preset;
pub mod natural;
pub mod paths;
pub mod job;
pub mod theme;
pub mod boot;
pub mod display;
pub mod fidelity;

