//! Error types for the listing parser, the field decoders and the stream
//! aggregator.

use vstd::prelude::*;

verus! {

/// A failure while parsing listing output, decoding a field, or aggregating
/// the stats stream. Each text payload names the offending input.
#[derive(Debug, Clone)]
pub enum ComposeError {
    MissingHeader,
    MissingColumn(String),
    InvalidPortMapping(String),
    InvalidStatus(String),
    InvalidSize(String),
    InvalidPercentage(String),
    JsonDecodeError(String),
    IoError(String),
    ChannelClosed,
}

/// Mathematical mirror of `ComposeError` for use in contracts.
pub enum ErrorView {
    MissingHeader,
    MissingColumn(Seq<char>),
    InvalidPortMapping(Seq<char>),
    InvalidStatus(Seq<char>),
    InvalidSize(Seq<char>),
    InvalidPercentage(Seq<char>),
    JsonDecodeError(Seq<char>),
    IoError(Seq<char>),
    ChannelClosed,
}

impl View for ComposeError {
    type V = ErrorView;

    open spec fn view(&self) -> ErrorView {
        match self {
            ComposeError::MissingHeader => ErrorView::MissingHeader,
            ComposeError::MissingColumn(s) => ErrorView::MissingColumn(s@),
            ComposeError::InvalidPortMapping(s) => ErrorView::InvalidPortMapping(s@),
            ComposeError::InvalidStatus(s) => ErrorView::InvalidStatus(s@),
            ComposeError::InvalidSize(s) => ErrorView::InvalidSize(s@),
            ComposeError::InvalidPercentage(s) => ErrorView::InvalidPercentage(s@),
            ComposeError::JsonDecodeError(s) => ErrorView::JsonDecodeError(s@),
            ComposeError::IoError(s) => ErrorView::IoError(s@),
            ComposeError::ChannelClosed => ErrorView::ChannelClosed,
        }
    }
}

impl DeepView for ComposeError {
    type V = ErrorView;

    open spec fn deep_view(&self) -> ErrorView {
        self.view()
    }
}

/// A failure while assembling a `Compose` handle.
#[derive(Debug, Clone)]
pub enum ComposeBuilderError {
    FileNotFound(String),
    MissingField(String),
    IoError(String),
}

/// Mathematical mirror of `ComposeBuilderError` for use in contracts.
pub enum BuilderErrorView {
    FileNotFound(Seq<char>),
    MissingField(Seq<char>),
    IoError(Seq<char>),
}

impl View for ComposeBuilderError {
    type V = BuilderErrorView;

    open spec fn view(&self) -> BuilderErrorView {
        match self {
            ComposeBuilderError::FileNotFound(s) => BuilderErrorView::FileNotFound(s@),
            ComposeBuilderError::MissingField(s) => BuilderErrorView::MissingField(s@),
            ComposeBuilderError::IoError(s) => BuilderErrorView::IoError(s@),
        }
    }
}

} // verus!
