# Vidnux

A desktop batch converter for video that never loses quality, built around a
Verus-verified library: the output presets and the ffmpeg argument lists they
produce, the job queue and its rules, and the small readers for what ffmpeg,
ffprobe and the desktop report.

## Layout

| Path | Contents |
| --- | --- |
| `src/preset.rs` | output formats, qualities, profiles, audio choices → ffmpeg arguments |
| `src/fidelity.rs` | what every preset promises: no resize, no resample, no frame-rate change; colour, bit depth, audio and tracks carried over |
| `src/job.rs` | jobs, the queue, output naming and collisions, batch renaming, sorting, progress lines |
| `src/media.rs` | reading the streams ffprobe lists |
| `src/boot.rs` | the start-up checks: version line, encoder list, step by step |
| `src/theme.rs` | the desktop's light / dark answer and what is drawn |
| `src/natural.rs` | number-aware name order (`clip2` before `clip10`) |
| `src/display.rs` | short labels for closed combo boxes |
| `src/text.rs`, `src/paths.rs` | text handling with its meaning over `Seq<char>`; `std::path` calls |
| `tests/` | behaviour on concrete inputs |
| `app/` | the egui program: windows, threads, running ffmpeg and the desktop helpers |

Every public function in `src/` states what it returns in its `ensures`; the
promises that span several calls are public `proof fn`s (`lemma_…`).
