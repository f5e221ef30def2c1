//! The ways in which loading a font can fail.

use vstd::prelude::*;

verus! {

/// A failure while loading a font. None of them can be recovered from:
/// the font is either loaded whole or not at all.
#[derive(Debug, PartialEq, Eq)]
pub enum FontError {
    /// The table directory has no entry with this tag.
    TableNotFound(String),
    /// A read of `width` bytes at `offset` would pass the end of a buffer
    /// of `buffer_len` bytes.
    BufferOverrun { offset: u64, width: u64, buffer_len: u64 },
    /// The character map has neither a Windows Unicode BMP subtable nor a
    /// Unicode subtable.
    NoUnicodeCmapFound,
    /// The selected character-map subtable has a format other than 4.
    UnsupportedCmapFormat(u16),
}

/// The mathematical content of a [`FontError`].
pub enum FontErrorView {
    TableNotFound(Seq<char>),
    BufferOverrun { offset: int, width: int, buffer_len: int },
    NoUnicodeCmapFound,
    UnsupportedCmapFormat(u16),
}

impl View for FontError {
    type V = FontErrorView;

    open spec fn view(&self) -> FontErrorView {
        match *self {
            FontError::TableNotFound(tag) => FontErrorView::TableNotFound(tag@),
            FontError::BufferOverrun { offset, width, buffer_len } => FontErrorView::BufferOverrun {
                offset: offset as int,
                width: width as int,
                buffer_len: buffer_len as int,
            },
            FontError::NoUnicodeCmapFound => FontErrorView::NoUnicodeCmapFound,
            FontError::UnsupportedCmapFormat(format) => FontErrorView::UnsupportedCmapFormat(
                format,
            ),
        }
    }
}

/// The first of two optional errors, in the order in which the reads that
/// raise them are made.
pub open spec fn first_of(
    earlier: Option<FontErrorView>,
    later: Option<FontErrorView>,
) -> Option<FontErrorView> {
    if earlier is Some {
        earlier
    } else {
        later
    }
}

/// The error of the first of `count` steps that fails, where `errors`
/// gives the error of each step by itself.
pub open spec fn first_error(
    errors: spec_fn(int) -> Option<FontErrorView>,
    count: int,
) -> Option<FontErrorView>
    decreases count,
{
    if count <= 0 {
        None
    } else {
        first_of(first_error(errors, count - 1), errors(count - 1))
    }
}

/// Once a step has failed, taking more steps fails in the same way.
pub proof fn lemma_first_error_stays(
    errors: spec_fn(int) -> Option<FontErrorView>,
    failed: int,
    count: int,
)
    requires
        0 <= failed < count,
        first_error(errors, failed + 1) is Some,
    ensures
        first_error(errors, count) == first_error(errors, failed + 1),
    decreases count,
{
    if count > failed + 1 {
        lemma_first_error_stays(errors, failed, count - 1);
    }
}

/// No step fails exactly when none fails by itself.
pub proof fn lemma_first_error_none(errors: spec_fn(int) -> Option<FontErrorView>, count: int)
    ensures
        first_error(errors, count) is None <==> forall|i: int|
            0 <= i < count ==> (#[trigger] errors(i)) is None,
    decreases count,
{
    if count > 0 {
        lemma_first_error_none(errors, count - 1);
    }
}

/// Whether the error names a read that passes the end of the buffer.
pub open spec fn is_overrun(buf: Seq<u8>, e: FontErrorView) -> bool {
    e matches FontErrorView::BufferOverrun { offset, width, buffer_len } && buffer_len == buf.len()
        && offset + width > buffer_len
}

/// Where every step fails only on a read past the end of the buffer, so
/// do the steps taken together.
pub proof fn lemma_first_error_overrun(
    buf: Seq<u8>,
    errors: spec_fn(int) -> Option<FontErrorView>,
    count: int,
)
    requires
        forall|i: int|
            0 <= i < count ==> ((#[trigger] errors(i)) matches Some(e) ==> is_overrun(buf, e)),
    ensures
        first_error(errors, count) matches Some(e) ==> is_overrun(buf, e),
    decreases count,
{
    if count > 0 {
        lemma_first_error_overrun(buf, errors, count - 1);
    }
}

} // verus!
