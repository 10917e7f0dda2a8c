//! The extractor's error taxonomy: a structural expectation that did not
//! hold, a field that did not parse, an image whose cache identifier is not
//! yet known, or a namespace the serializer refuses; optionally wrapped with
//! the stage that failed.

use vstd::prelude::*;

verus! {

/// What went wrong.
#[derive(Debug)]
pub enum ErrKind {
    /// A required element was not found; `what` names it.
    MissingElement { what: String },
    /// A block had a different shape than the layout guarantees; `what`
    /// names the expectation.
    UnexpectedShape { what: String },
    /// A field's raw text did not parse as its type.
    ParseFailure { field: String, raw: String },
    /// The image at `url` has no cache identifier yet; the caller fetches it
    /// and retries.
    ImageNotCached { url: String },
    /// An element or attribute carries a namespace the serializer refuses.
    BadNamespace,
}

/// An extraction failure, with the stage it arose in when one was recorded.
#[derive(Debug)]
pub struct ExtractError {
    pub context: Option<String>,
    pub kind: ErrKind,
}

/// The ghost form of `ErrKind`, over character sequences.
pub enum KindV {
    MissingElement { what: Seq<char> },
    UnexpectedShape { what: Seq<char> },
    ParseFailure { field: Seq<char>, raw: Seq<char> },
    ImageNotCached { url: Seq<char> },
    BadNamespace,
}

/// The ghost form of `ExtractError`.
pub struct ErrV {
    pub context: Option<Seq<char>>,
    pub kind: KindV,
}

pub open spec fn kind_view(k: ErrKind) -> KindV {
    match k {
        ErrKind::MissingElement { what } => KindV::MissingElement { what: what@ },
        ErrKind::UnexpectedShape { what } => KindV::UnexpectedShape { what: what@ },
        ErrKind::ParseFailure { field, raw } => KindV::ParseFailure { field: field@, raw: raw@ },
        ErrKind::ImageNotCached { url } => KindV::ImageNotCached { url: url@ },
        ErrKind::BadNamespace => KindV::BadNamespace,
    }
}

pub open spec fn err_view(e: ExtractError) -> ErrV {
    ErrV {
        context: match e.context {
            Some(c) => Some(c@),
            None => None,
        },
        kind: kind_view(e.kind),
    }
}

/// A context-free error of the given kind.
pub open spec fn bare(k: KindV) -> ErrV {
    ErrV { context: None, kind: k }
}

impl ExtractError {
    /// Wrap the error with the stage that failed, unless one was recorded
    /// already.
    pub fn with_context(self, what: String) -> (r: ExtractError)
        ensures
            err_view(r) == (ErrV {
                context: match err_view(self).context {
                    Some(c) => Some(c),
                    None => Some(what@),
                },
                kind: err_view(self).kind,
            }),
    {
        match self.context {
            Some(c) => ExtractError { context: Some(c), kind: self.kind },
            None => ExtractError { context: Some(what), kind: self.kind },
        }
    }
}

} // verus!
