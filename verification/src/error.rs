//! Decode errors: the structural expectation that was violated, the attribute
//! kind it concerns, and the chain of enclosing attributes for failures inside
//! nested records.

use vstd::prelude::*;

verus! {

/// What went wrong at the point of failure.  Each variant names the attribute
/// kind as it stood on the wire and the expectation that was violated.
#[derive(Clone, Copy, Debug, PartialEq, Eq, Structural)]
pub enum ErrorDetail {
    /// Fewer than the four header bytes of a record remained in the buffer.
    TruncatedRecord { available: usize },
    /// A record declared more payload bytes than the buffer still holds.
    TruncatedPayload { kind: u16, declared: u16, available: usize },
    /// A fixed-width value had a payload of the wrong length.
    WrongValueLength { kind: u16, expected: usize, actual: usize },
    /// A boolean payload byte was neither 0 nor 1.
    InvalidBoolean { kind: u16, value: u8 },
    /// An interface-name payload was not a zero-terminated name free of
    /// interior zero bytes.
    InvalidName { kind: u16 },
}

/// Mathematical model of a decode error: the detail at the failure point and
/// the kinds of the enclosing attributes, innermost enclosure first.
pub struct SpecDecodeError {
    pub detail: ErrorDetail,
    pub context: Seq<u16>,
}

/// A decode failure.  `context` lists the kinds of the attributes that
/// enclosed the failing record, innermost enclosure first, so the error names
/// the full path from the outer message to the malformed field.
#[derive(Clone, Debug, PartialEq, Eq)]
pub struct DecodeError {
    detail: ErrorDetail,
    context: Vec<u16>,
}

impl View for DecodeError {
    type V = SpecDecodeError;

    closed spec fn view(&self) -> SpecDecodeError {
        SpecDecodeError { detail: self.detail, context: self.context@ }
    }
}

/// The error `e` as reported one nesting level further out: the enclosing
/// attribute's kind is added to the context chain.
pub open spec fn spec_with_context(e: SpecDecodeError, kind: u16) -> SpecDecodeError {
    SpecDecodeError { detail: e.detail, context: e.context.push(kind) }
}

impl DecodeError {
    /// An error at the outermost level, with an empty context chain.
    pub fn new(detail: ErrorDetail) -> (r: Self)
        ensures
            r@ == (SpecDecodeError { detail, context: Seq::<u16>::empty() }),
    {
        let r = DecodeError { detail, context: Vec::new() };
        proof {
            assert(r@.context =~= Seq::<u16>::empty());
        }
        r
    }

    /// Records that the failure happened inside an attribute of the given
    /// kind.
    pub fn with_context(self, kind: u16) -> (r: Self)
        ensures
            r@ == spec_with_context(self@, kind),
    {
        let mut e = self;
        e.context.push(kind);
        e
    }

    /// The expectation that was violated.
    pub fn detail(&self) -> (r: ErrorDetail)
        ensures
            r == self@.detail,
    {
        self.detail
    }

    /// The kinds of the enclosing attributes, innermost enclosure first.
    pub fn context(&self) -> (r: &Vec<u16>)
        ensures
            r@ == self@.context,
    {
        &self.context
    }
}

/// The model of a decode result: values and errors replaced by their views.
pub open spec fn result_view<T: View>(r: Result<T, DecodeError>) -> Result<T::V, SpecDecodeError> {
    match r {
        Ok(t) => Ok(t@),
        Err(e) => Err(e@),
    }
}

} // verus!
