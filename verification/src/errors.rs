//! The error taxonomy shared by the decoder, the repositories and the media
//! store. Every failure is scoped to one request; none is fatal.

use vstd::prelude::*;

verus! {

/// A failure surfaced to the caller of one operation.
#[derive(Clone, Debug, PartialEq, Eq)]
pub enum CmsError {
    /// A required form field was absent; carries the field's name.
    MissingField(String),
    /// A text field held bytes that are not valid UTF-8.
    InvalidEncoding,
    /// No record or user matched the given key.
    NotFound,
    /// The uploaded bytes could not be decoded or re-encoded as an image.
    UnsupportedImage,
    /// The backing store or filesystem failed; not retried.
    StoreUnavailable,
    /// An insert would violate the roster's unique-username key.
    DuplicateKey,
    /// A text field's bytes exceed the per-field bound.
    PayloadTooLarge,
}

impl CmsError {
    /// True exactly when this is a missing-field failure naming `field`.
    pub open spec fn is_missing_field(self, field: Seq<char>) -> bool {
        self matches CmsError::MissingField(f) && f@ == field
    }
}

} // verus!
