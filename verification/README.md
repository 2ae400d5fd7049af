# Optra

Optra turns two to four fixed webcams into lower-body tracking for VR: it finds
where the cameras are from a walk with a headset on, puts every camera on one
clock, triangulates the keypoints into a body, holds that body to its measured
bones and filters it.

The crate is written in Verus. What the application decides is verified: each
function carries a contract, and what holds of several functions together, or of
every state, is stated as a public proof function beside them.

## Layout

- `src/` is the verified library.
  - `scalar`, `time`, `text`, `order`, `list`: numbers by their bits, instants,
    texts, stable orders.
  - `models`, `pipeline`, `vr`, `output`: joints, keypoints, devices, trackers.
  - `config`: the settings, and what each step takes from them.
  - `capture`: picking formats, decoding and turning frames, the mailbox and the
    life of a camera.
  - `geometry`: the decisions of lenses, resection, triangulation and refinement.
  - `calib`: recording a walk, measuring delays, the rounds of a solve.
  - `fusion`: alignment, fusing, bones, the fit, the filter, and the clock that
    runs them.
  - `app`: what the window and its panels remember and decide.
- `tests/` runs the library, with `nalgebra` for the arithmetic around it.
- `app/` is ordinary Rust around the library: floating-point arithmetic, device
  and file I/O, threads, and the window.

## What is trusted

A number is held by its bits, and every comparison is proved against what the bits
stand for, so no floating-point arithmetic happens in `src/`. Two outside functions
are called there, each behind one wrapper in `src/capture/decode.rs`:
`nokhwa::Buffer::decode_image_to_buffer`, whose result is stated byte by byte, and
`image::load_from_memory_with_format` on PNG files, whose result is named. Frames
and files their decoders may unwind on are left to `app/`.
