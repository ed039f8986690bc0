use vstd::prelude::*;

verus! {

/// Identifies a source file.
#[derive(Clone, Copy, Debug, PartialEq, Eq, Structural)]
pub struct FileId(pub u32);

/// A half-open byte range `start..end` in one source file.
#[derive(Clone, Copy, Debug, PartialEq, Eq, Structural)]
pub struct Span {
    pub file_id: FileId,
    pub start: u32,
    pub end: u32,
}

/// The number of bytes a span covers (zero for an inverted span).
pub open spec fn span_len(s: Span) -> nat {
    if s.end >= s.start {
        (s.end - s.start) as nat
    } else {
        0
    }
}

/// Whether a span covers the byte at `offset` of file `file`.
pub open spec fn span_covers(s: Span, file: FileId, offset: u32) -> bool {
    s.file_id == file && s.start <= offset && offset < s.end
}

impl Span {
    pub fn new(file_id: FileId, start: u32, end: u32) -> (s: Span)
        ensures
            s == (Span { file_id, start, end }),
    {
        Span { file_id, start, end }
    }

    /// The span that stands for "no source location".
    pub fn dummy() -> (s: Span)
        ensures
            s == (Span { file_id: FileId(0), start: 0, end: 0 }),
    {
        Span { file_id: FileId(0), start: 0, end: 0 }
    }

    pub fn is_empty(&self) -> (r: bool)
        ensures
            r == (self.start >= self.end),
    {
        self.start >= self.end
    }

    pub fn len(&self) -> (r: u32)
        ensures
            r == span_len(*self),
    {
        if self.end >= self.start {
            self.end - self.start
        } else {
            0
        }
    }
}

/// A value with the source span it came from.
#[derive(Clone, Debug)]
pub struct Spanned<T> {
    pub node: T,
    pub span: Span,
}

impl<T> Spanned<T> {
    pub fn new(node: T, span: Span) -> (s: Spanned<T>)
        ensures
            s.node == node,
            s.span == span,
    {
        Spanned { node, span }
    }
}

} // verus!
