# efficientloftr-onnx-rs

Matching of image pairs with EfficientLoFTR-style ONNX models, with the decision logic
verified by Verus.

- `src/` is the verified library: decoding image files into frames and checking that two
  frames (or a batch of pairs) can be matched (`frame`),
  resolving the tensor names an exported model uses (`names`), decoding its keypoint and
  confidence outputs (`tensor`, `matching`), choosing the matches to keep (`selection`),
  the bookkeeping of frame-sequence evaluations (`evaluation`), model inspection
  (`inspect`), the canvas on which matches are drawn (`raster`), and string helpers (`text`).
  Image decoding and resizing are done by the `image` crate, called from the library.
  Float values travel through the library as the bit patterns of their `f32`s.
- `app/` is the command-line program around it: ONNX Runtime sessions, image files,
  float arithmetic and output. `efficientloftr-onnx-rs` matches a pair of images; its first
  argument may instead be `eval-video-frames`, `inspect-model` or `render-demo`. Started
  through a link named `eval_video_frames`, `inspect_model` or `render_demo`, the program
  runs that tool with the whole argument list, so scripts written for separate tools keep
  working.
- `tests/` exercises the library.
