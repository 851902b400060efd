# comfy_core

The core logic of a small 2D game engine, written in Verus and verified:
its pseudo-random number generator, input state, shader and render-target
bookkeeping, render queues, sound queues and playback handles, the blood
canvas, named counters and timers, and the integer helpers the renderer
uses.

- `src/` is the verified library. Every public function states what it
  returns or changes in its `ensures`; the `law_*` proof functions state
  properties that relate several functions.
- `tests/` runs the library on concrete values.
- `app/` is the engine around the library: process-wide state, the
  windowing library's key codes, glam vectors, floating-point randomness,
  and the edges that talk to the clock, the audio backend and the GPU.
