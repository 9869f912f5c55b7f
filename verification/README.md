# velocity

The verified core of a small 2D game framework for Windows on Vulkan 1.3.

`src/` is a Verus library. Verus proves the contracts of its functions,
except those of the small wrappers around outside crates and std (marked
`external_body`): their contracts restate what those crates document and
are believed, not proved.

- `scene` — generational arenas and the draw order of a scene: stale
  handles never resolve again.
- `assets` — asset keys, the asset index and the explicit preload cache.
- `texture`, `pixels` — CPU textures, upload checks, premultiplication,
  edge padding and the block-compression pipeline around `intel_tex_2`.
- `animation`, `atlas`, `sparrow` — Haxe-style integer parsing, frame
  sequences, the atlas name table, prefix ordering, the Sparrow atlas
  structure (read with `quick_xml`) and the animation playback controller.
- `render` — frame statistics, the canvas rectangle and draw-call batching.
- `input`, `game` — keyboard and mouse state, callback input snapshots and
  the order of a frame's callbacks.
- `audio` — load-mode decisions, track checks, timestamp conversions and the
  streaming buffer's refill rules.

Textures load from the formats the `image` crate decodes without native
libraries (PNG, JPEG, GIF, BMP, WebP, TGA, TIFF, ICO, QOI, PNM, HDR); AVIF
files are refused, as `image` reads AVIF only through `dav1d`.

`app/` holds what Verus does not see: the Win32 window, the Vulkan renderer,
WASAPI output and Symphonia decoding, and all geometry and timing measured
in floating point. It calls the library for every decision above.

Tests are under `tests/`.
