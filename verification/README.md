# heat_abnormal

The image-processing core of Heat Abnormal, an interactive image editor, written
in Verus: every function in `src/` carries a contract that Verus proves.

- `src/plane.rs`, `src/rgb.rs`: 8-bit planes and RGB images with their
  mathematical views; interleaved RGB/BGR buffers; BT.601 gray values.
- `src/point_ops.rs`: threshold, negative, lookup tables, pixel-wise operations
  on two images (saturating add and subtract, blend, and, or, xor, not).
- `src/histogram.rs`: value counts, cumulative counts.
- `src/morphology.rs`, `src/grid.rs`: erosion and dilation by the 3x3 cross and
  square, iterated dilation, and the morphological skeleton with its
  termination proof.
- `src/median.rs`: median filter with replicated border.
- `src/store.rs`, `src/actions.rs`: the store of loaded images with its
  selection, and the editor's operations on it, each stated over the views.
- `src/laws.rs`: properties that span operations.

`app/` is the window (Slint), the file dialogs (rfd) and the OpenCV calls that
stay outside the library: file decoding and encoding, colour-space
conversions, Otsu thresholds, Canny edges, resizing and float-mask filtering,
and the f32 lookup tables and histogram statistics.
