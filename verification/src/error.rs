//! What can go wrong.

use crate::text;
use vstd::prelude::*;

verus! {

/// Why an operation of this crate, or one around it, failed.
#[derive(Debug)]
#[non_exhaustive]
pub enum Error {
    /// A model file could not be retrieved, for the reason given.
    ModelRetrieval { file: String, reason: String },
    /// The configuration of a tokenizer is invalid.
    TokenizerConfig(String),
    /// The input could not be tokenized.
    Tokenization(String),
    /// The tokenizer returned nothing for a batch.
    EmptyTokenizations,
    /// The inference runtime reported an error.
    Ort(String),
    /// The session of the inference runtime could not be built.
    OrtBuilder(String),
    /// The session of the inference runtime failed.
    OrtSession(String),
    /// A model has no output of this name.
    OutputKeyMissing { key: String },
    /// A tensor could not be read.
    TensorExtraction(String),
    /// An image could not be decoded.
    ImageDecode(String),
    /// The configuration of an image preprocessor is invalid.
    PreprocessorConfig(String),
    /// A step of an image preprocessor could not be applied.
    ImageTransform(String),
    /// A tensor has the wrong shape.
    InvalidShape(String),
    /// An argument is invalid.
    InvalidArgument(String),
    /// Reading or writing failed.
    Io(String),
    /// Anything else.
    Other(String),
}

/// An [`Error`] with its texts as sequences of characters.
pub enum ErrorModel {
    ModelRetrieval { file: Seq<char>, reason: Seq<char> },
    TokenizerConfig(Seq<char>),
    Tokenization(Seq<char>),
    EmptyTokenizations,
    Ort(Seq<char>),
    OrtBuilder(Seq<char>),
    OrtSession(Seq<char>),
    OutputKeyMissing { key: Seq<char> },
    TensorExtraction(Seq<char>),
    ImageDecode(Seq<char>),
    PreprocessorConfig(Seq<char>),
    ImageTransform(Seq<char>),
    InvalidShape(Seq<char>),
    InvalidArgument(Seq<char>),
    Io(Seq<char>),
    Other(Seq<char>),
}

impl View for Error {
    type V = ErrorModel;

    open spec fn view(&self) -> ErrorModel {
        match *self {
            Error::ModelRetrieval { file, reason } => ErrorModel::ModelRetrieval {
                file: file@,
                reason: reason@,
            },
            Error::TokenizerConfig(text) => ErrorModel::TokenizerConfig(text@),
            Error::Tokenization(text) => ErrorModel::Tokenization(text@),
            Error::EmptyTokenizations => ErrorModel::EmptyTokenizations,
            Error::Ort(text) => ErrorModel::Ort(text@),
            Error::OrtBuilder(text) => ErrorModel::OrtBuilder(text@),
            Error::OrtSession(text) => ErrorModel::OrtSession(text@),
            Error::OutputKeyMissing { key } => ErrorModel::OutputKeyMissing { key: key@ },
            Error::TensorExtraction(text) => ErrorModel::TensorExtraction(text@),
            Error::ImageDecode(text) => ErrorModel::ImageDecode(text@),
            Error::PreprocessorConfig(text) => ErrorModel::PreprocessorConfig(text@),
            Error::ImageTransform(text) => ErrorModel::ImageTransform(text@),
            Error::InvalidShape(text) => ErrorModel::InvalidShape(text@),
            Error::InvalidArgument(text) => ErrorModel::InvalidArgument(text@),
            Error::Io(text) => ErrorModel::Io(text@),
            Error::Other(text) => ErrorModel::Other(text@),
        }
    }
}

impl ErrorModel {
    /// What the error says to its reader.
    pub open spec fn text(self) -> Seq<char> {
        match self {
            ErrorModel::ModelRetrieval { file, .. } => "Failed to retrieve model file '"@ + file
                + "'"@,
            ErrorModel::TokenizerConfig(text) => "Invalid tokenizer configuration: "@ + text,
            ErrorModel::Tokenization(text) => "Failed to tokenize input: "@ + text,
            ErrorModel::EmptyTokenizations =>
                "Tokenizer returned empty encodings for the batch"@,
            ErrorModel::Ort(text) => "ONNX runtime error: "@ + text,
            ErrorModel::OrtBuilder(text) => "Failed to build ONNX session: "@ + text,
            ErrorModel::OrtSession(text) => "ONNX session error: "@ + text,
            ErrorModel::OutputKeyMissing { key } => "Output tensor '"@ + key + "' not found"@,
            ErrorModel::TensorExtraction(text) => "Failed to extract tensor: "@ + text,
            ErrorModel::ImageDecode(text) => "Failed to decode image: "@ + text,
            ErrorModel::PreprocessorConfig(text) => "Invalid preprocessor configuration: "@
                + text,
            ErrorModel::ImageTransform(text) => "Image transform error: "@ + text,
            ErrorModel::InvalidShape(text) => "Invalid tensor shape: "@ + text,
            ErrorModel::InvalidArgument(text) => "Invalid argument: "@ + text,
            ErrorModel::Io(text) => "I/O error: "@ + text,
            ErrorModel::Other(text) => text,
        }
    }
}

impl Error {
    /// Renders the error for its reader.
    pub fn to_string(&self) -> (text: String)
        ensures
            text@ == self@.text(),
    {
        match self {
            Error::ModelRetrieval { file, reason: _ } => {
                let head: String = text::joined("Failed to retrieve model file '", file.as_str());
                text::joined(head.as_str(), "'")
            },
            Error::TokenizerConfig(text) => text::joined(
                "Invalid tokenizer configuration: ",
                text.as_str(),
            ),
            Error::Tokenization(text) => text::joined("Failed to tokenize input: ", text.as_str()),
            Error::EmptyTokenizations =>
                "Tokenizer returned empty encodings for the batch".to_string(),
            Error::Ort(text) => text::joined("ONNX runtime error: ", text.as_str()),
            Error::OrtBuilder(text) => text::joined(
                "Failed to build ONNX session: ",
                text.as_str(),
            ),
            Error::OrtSession(text) => text::joined("ONNX session error: ", text.as_str()),
            Error::OutputKeyMissing { key } => {
                let head: String = text::joined("Output tensor '", key.as_str());
                text::joined(head.as_str(), "' not found")
            },
            Error::TensorExtraction(text) => text::joined(
                "Failed to extract tensor: ",
                text.as_str(),
            ),
            Error::ImageDecode(text) => text::joined("Failed to decode image: ", text.as_str()),
            Error::PreprocessorConfig(text) => text::joined(
                "Invalid preprocessor configuration: ",
                text.as_str(),
            ),
            Error::ImageTransform(text) => text::joined("Image transform error: ", text.as_str()),
            Error::InvalidShape(text) => text::joined("Invalid tensor shape: ", text.as_str()),
            Error::InvalidArgument(text) => text::joined("Invalid argument: ", text.as_str()),
            Error::Io(text) => text::joined("I/O error: ", text.as_str()),
            Error::Other(text) => text.clone(),
        }
    }
}

/// What an error says to its reader: what went wrong, and what the error holds of it. The
/// reason why a file could not be retrieved is left to the error.
pub proof fn errors_tell_what_went_wrong(error: Error, text: String)
    requires
        call_ensures(Error::to_string, (&error,), text),
    ensures
        match error {
            Error::ModelRetrieval { file, .. } => text@ == "Failed to retrieve model file '"@
                + file@ + "'"@,
            Error::TokenizerConfig(what) => text@ == "Invalid tokenizer configuration: "@ + what@,
            Error::Tokenization(what) => text@ == "Failed to tokenize input: "@ + what@,
            Error::EmptyTokenizations => text@
                == "Tokenizer returned empty encodings for the batch"@,
            Error::Ort(what) => text@ == "ONNX runtime error: "@ + what@,
            Error::OrtBuilder(what) => text@ == "Failed to build ONNX session: "@ + what@,
            Error::OrtSession(what) => text@ == "ONNX session error: "@ + what@,
            Error::OutputKeyMissing { key } => text@ == "Output tensor '"@ + key@
                + "' not found"@,
            Error::TensorExtraction(what) => text@ == "Failed to extract tensor: "@ + what@,
            Error::ImageDecode(what) => text@ == "Failed to decode image: "@ + what@,
            Error::PreprocessorConfig(what) => text@ == "Invalid preprocessor configuration: "@
                + what@,
            Error::ImageTransform(what) => text@ == "Image transform error: "@ + what@,
            Error::InvalidShape(what) => text@ == "Invalid tensor shape: "@ + what@,
            Error::InvalidArgument(what) => text@ == "Invalid argument: "@ + what@,
            Error::Io(what) => text@ == "I/O error: "@ + what@,
            Error::Other(what) => text@ == what@,
        },
{
}

}
