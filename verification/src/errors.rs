//! The two failure surfaces of the library.
//!
//! A [`CodecError`] is fatal to building a codec: the enumeration's declared
//! configuration is internally inconsistent.  A [`DecodeError`] is an
//! ordinary result returned when decoding an unrecognized string and no
//! default variant is configured.

use vstd::prelude::*;

verus! {

/// A construction-time failure: the configuration attached to the
/// enumeration cannot yield a well-formed codec.
#[derive(Debug)]
pub enum CodecError {
    /// A recognized directive was given the wrong number of arguments.
    WrongArity { directive: String },
    /// A casing directive names a transform outside the catalogue.
    UnknownCasing { name: String },
    /// The `default_variant` directive names no declared variant.
    UnknownDefaultVariant { name: String },
    /// Two distinct variants resolve to the same decode string.
    DecodeCollision { key: String },
    /// The ordered variant list was requested of an enumeration with a
    /// payload-bearing variant.
    NotEnumerable,
}

/// The mathematical value of a [`CodecError`].
pub ghost enum CodecErrorView {
    WrongArity { directive: Seq<char> },
    UnknownCasing { name: Seq<char> },
    UnknownDefaultVariant { name: Seq<char> },
    DecodeCollision { key: Seq<char> },
    NotEnumerable,
}

impl View for CodecError {
    type V = CodecErrorView;

    open spec fn view(&self) -> CodecErrorView {
        match self {
            CodecError::WrongArity { directive } => CodecErrorView::WrongArity {
                directive: directive@,
            },
            CodecError::UnknownCasing { name } => CodecErrorView::UnknownCasing { name: name@ },
            CodecError::UnknownDefaultVariant { name } => CodecErrorView::UnknownDefaultVariant {
                name: name@,
            },
            CodecError::DecodeCollision { key } => CodecErrorView::DecodeCollision { key: key@ },
            CodecError::NotEnumerable => CodecErrorView::NotEnumerable,
        }
    }
}

/// A run-time decode failure: the input matched no decode entry and no
/// default variant is configured.  It carries the offending input and the
/// enumeration's name for diagnostics.
#[derive(Debug)]
pub struct DecodeError {
    pub input: String,
    pub enum_name: String,
}

/// The mathematical value of a [`DecodeError`].
pub ghost struct DecodeErrorView {
    pub input: Seq<char>,
    pub enum_name: Seq<char>,
}

impl View for DecodeError {
    type V = DecodeErrorView;

    open spec fn view(&self) -> DecodeErrorView {
        DecodeErrorView { input: self.input@, enum_name: self.enum_name@ }
    }
}

impl DecodeError {
    /// A copy of the input that failed to decode.
    pub fn input_string(&self) -> (r: String)
        ensures
            r@ == self@.input,
    {
        self.input.clone()
    }

    /// A copy of the enumeration name, for diagnostics.
    pub fn enum_name_string(&self) -> (r: String)
        ensures
            r@ == self@.enum_name,
    {
        self.enum_name.clone()
    }
}

} // verus!
