# hl_capture

Recording Half-Life videos from inside the game: hooks in the engine's `hw.so` capture every
frame and the mixed sound and encode them with FFmpeg.

- `src/` is the verified library (Verus): parsing of the console settings, the capture
  thread's state machine, the bottom-up to top-down copy of frames, the audio frame
  bookkeeping, the choice of encoder formats and rates, the sound clamping, the OpenCL buffer
  decisions and the section profiler. Each public function states its result in its contract.
- `tests/` runs the library on concrete values.
- `app/` connects the library to the engine, OpenGL, OpenCL and FFmpeg: the exported hooks,
  the console commands and variables, the capture thread, the encoder and the frame-rate
  converters (which count time in floating point).
