# rust_kpc

The verified core of a KISS Psycho Circus level renderer, written in Verus.

- `src/` is the library. Positions are fixed-point integers, so geometry
  predicates, the triangle bounding volume hierarchy, draw-group
  subdivision and culling bookkeeping are exact and proved against their
  contracts. Files ending in `_laws` hold the properties that span several
  functions.
- `app/` is the code around it: file and directory access, settings in
  JSON, and the floating-point math of the camera, movement, frustum and
  lighting, converting to and from the library's integer coordinates.
- `tests/` runs the library on concrete values.
