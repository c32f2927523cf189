use vstd::prelude::*;
use vstd::string::StringExecFns;

verus! {

/// Everything that can go wrong while preparing, running or decoding a match.
#[derive(Clone, Debug)]
pub enum EfficientLoftrError {
    Io(String),
    Image(String),
    InvalidImageShape,
    MissingInput(String),
    MissingOutput(String),
    InvalidOutputShape(String),
    Ort(String),
}

/// An error with its text taken by view.
pub enum ErrorView {
    Io(Seq<char>),
    Image(Seq<char>),
    InvalidImageShape,
    MissingInput(Seq<char>),
    MissingOutput(Seq<char>),
    InvalidOutputShape(Seq<char>),
    Ort(Seq<char>),
}

impl View for EfficientLoftrError {
    type V = ErrorView;

    open spec fn view(&self) -> ErrorView {
        match self {
            EfficientLoftrError::Io(msg) => ErrorView::Io(msg@),
            EfficientLoftrError::Image(msg) => ErrorView::Image(msg@),
            EfficientLoftrError::InvalidImageShape => ErrorView::InvalidImageShape,
            EfficientLoftrError::MissingInput(name) => ErrorView::MissingInput(name@),
            EfficientLoftrError::MissingOutput(name) => ErrorView::MissingOutput(name@),
            EfficientLoftrError::InvalidOutputShape(name) => ErrorView::InvalidOutputShape(name@),
            EfficientLoftrError::Ort(msg) => ErrorView::Ort(msg@),
        }
    }
}

/// The human-readable text of an error.
pub open spec fn error_message(e: ErrorView) -> Seq<char> {
    match e {
        ErrorView::Io(msg) => "io error: "@ + msg,
        ErrorView::Image(msg) => "image decode error: "@ + msg,
        ErrorView::InvalidImageShape => "invalid image shape or dimensions"@,
        ErrorView::MissingInput(name) => "missing model input: "@ + name,
        ErrorView::MissingOutput(name) => "missing model output: "@ + name,
        ErrorView::InvalidOutputShape(name) => "invalid output shape for: "@ + name,
        ErrorView::Ort(msg) => "onnx runtime error: "@ + msg,
    }
}

fn prefixed(prefix: &str, detail: &String) -> (s: String)
    ensures
        s@ == prefix@ + detail@,
{
    let mut s = String::from_str(prefix);
    s.append(detail.as_str());
    s
}

impl EfficientLoftrError {
    /// Renders the error the way it is shown to users.
    pub fn message(&self) -> (s: String)
        ensures
            s@ == error_message(self@),
    {
        match self {
            EfficientLoftrError::Io(msg) => prefixed("io error: ", msg),
            EfficientLoftrError::Image(msg) => prefixed("image decode error: ", msg),
            EfficientLoftrError::InvalidImageShape => String::from_str(
                "invalid image shape or dimensions",
            ),
            EfficientLoftrError::MissingInput(name) => prefixed("missing model input: ", name),
            EfficientLoftrError::MissingOutput(name) => prefixed("missing model output: ", name),
            EfficientLoftrError::InvalidOutputShape(name) => prefixed(
                "invalid output shape for: ",
                name,
            ),
            EfficientLoftrError::Ort(msg) => prefixed("onnx runtime error: ", msg),
        }
    }
}

} // verus!
