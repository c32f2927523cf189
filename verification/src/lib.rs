//! Verified decision logic of an EfficientLoFTR-style ONNX image matcher: checking frame
//! pairs, resolving the tensor names an exported model uses, decoding its outputs, selecting
//! the matches to keep, and the bookkeeping of evaluations, model inspection and rendering.

pub mod error;
pub mod evaluation;
pub mod frame;
pub mod inspect;
pub mod matching;
pub mod names;
pub mod raster;
pub mod selection;
pub mod tensor;
pub mod text;

pub use error::EfficientLoftrError;
pub use frame::GrayscaleFrame;
pub use names::TensorNames;
pub use selection::MatchBits;
pub use tensor::BitTensor;
