# verandah_image

Image composition helpers for verandah and its widget plugins — badge
placement, caption strips, background plates and tints, and coverage-aware
system font lookup — with their rules specified and proved in Verus.

- `src/` is the verified library:
  - `badge` — `Gravity`, parsed from compass words or abbreviations in any case
  - `chars` — white space, control characters, ASCII lower-casing
  - `coverage` — the characters a face must cover to draw a text
  - `font_cache`, `font` — the request and face caches, and cached lookup
  - `face` — parsed faces, glyph coverage, missing-glyph reports
  - `pixels` — RGBA images and alpha blending
  - `background` — compositing a plate under artwork, or a tint over it
  - `label` — caption strips and caption truncation
- `app/` holds what the library leaves to its caller: process-wide caches,
  fontconfig and file reads, logging, and the floating-point geometry of
  plates and captions, behind the same entry points verandah uses.
- `tests/` exercises the library on concrete values.
