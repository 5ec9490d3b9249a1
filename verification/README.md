# rerun_simple_gs

A loader for static Gaussian-splat `.ply` files (the GraphDECO / Brush layout),
written in Verus, and a small Rerun viewer around it.

- `src/` is the verified library. `header` parses the PLY header, `rows` reads
  binary little-endian and ASCII vertex rows, `layout` maps property names to
  splat attributes, `decode` assembles the `GaussianSet` (with the spherical
  harmonics packed `[splat][coefficient][channel]`), `gaussian` validates a set,
  `archetype` names the logged components and `cli` reads the command line.
  `text`, `number` and `unicode` hold the string, integer/float-literal and
  UTF-8 handling that the formats need. `laws` states properties of decoding
  that hold for every input.
- `app/` is the viewer: it reads the file, does the floating-point activation
  of each splat (exponential scales, sigmoid opacity, normalised quaternions,
  SH-DC colors) and logs the cloud to Rerun.
- `tests/` runs the library on concrete files.
