# waveform

A WAV player and waveform viewer whose decoding and layout logic is
verified with Verus.

- `src/` is the verified library:
  - `wav`: RIFF chunk walk, `fmt ` parsing (including
    `WAVE_FORMAT_EXTENSIBLE`), and the split of interleaved frames into
    per-channel sample codes for PCM 8/16/24/32-bit and IEEE float 32/64-bit.
  - `peaks`: the shape of the peak pyramid and the choice of raw samples or
    pyramid buckets that summarise a range.
  - `render`: window clamping, column ranges, visible channels, the text
    canvas and framed lines of the terminal view.
  - `cli`, `terminal`, `ui`, `transport`, `pointer`: argument parsing, key
    and `stty size` decoding, shortcuts and labels, playback and pointer
    decisions.
  - `text`: decimal/hexadecimal formatting helpers.
- `app/` is the program around it: file reading, conversion of sample codes
  to floating point, peak merging, the `iced` interface, the GPU renderer,
  `rodio` playback and the terminal session.
- `tests/` exercises the library on concrete inputs.
