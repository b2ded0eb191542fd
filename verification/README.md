# audiodsp

A small offline audio processor: it reads a WAV file, applies a chain of
effects (gain, echo, low-pass) to the samples, and writes a new WAV file.

- `src/` is the verified library (Verus): the command-line grammar
  (`cli`), the number formats it accepts (`literal`), the effect model
  (`dsp`), the WAV container through `hound` (`wav`), and `run`, which
  decodes, processes and re-encodes a file.
- `app/` is the program around it: file I/O, and the floating-point sample
  arithmetic of the effects and of the i16/f32 conversion.
- `tests/` holds the tests of the library.
