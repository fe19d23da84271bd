//! The data model: raw link events as the markdown parser reports them,
//! candidate links kept for resolution, planned replacements, and the fatal
//! error conditions of a run.

use vstd::prelude::*;

verus! {

/// Link shape as the markdown parser classifies it.  The `...Unknown` shapes
/// are references whose definition is missing and that were kept through the
/// broken-reference fallback; `Other` covers shapes the collector never keeps.
#[derive(Clone, Copy, Debug, PartialEq, Eq, Structural)]
pub enum RawKind {
    Inline,
    Reference,
    ReferenceUnknown,
    Collapsed,
    CollapsedUnknown,
    Shortcut,
    ShortcutUnknown,
    Autolink,
    Email,
    Other,
}

/// Shape of a collected candidate link.
#[derive(Clone, Copy, Debug, PartialEq, Eq, Structural)]
pub enum LinkKind {
    Inline,
    Reference,
    Collapsed,
    Shortcut,
}

/// One link event reported by the markdown parser: shape, raw destination
/// text, title text, and the byte span of the whole link in the document.
pub struct RawLink {
    pub kind: RawKind,
    pub dest: Vec<u8>,
    pub title: Vec<u8>,
    pub start: usize,
    pub end: usize,
}

/// Mathematical image of a `RawLink`.
pub ghost struct RawLinkView {
    pub kind: RawKind,
    pub dest: Seq<u8>,
    pub title: Seq<u8>,
    pub start: int,
    pub end: int,
}

impl View for RawLink {
    type V = RawLinkView;

    open spec fn view(&self) -> RawLinkView {
        RawLinkView {
            kind: self.kind,
            dest: self.dest@,
            title: self.title@,
            start: self.start as int,
            end: self.end as int,
        }
    }
}

/// A link kept for resolution: shape, destination text (the symbol path as
/// written), and the byte span it occupies in the document's original text.
pub struct Candidate {
    pub kind: LinkKind,
    pub dest: Vec<u8>,
    pub start: usize,
    pub end: usize,
}

/// Mathematical image of a `Candidate`.
pub ghost struct CandidateView {
    pub kind: LinkKind,
    pub dest: Seq<u8>,
    pub start: int,
    pub end: int,
}

impl View for Candidate {
    type V = CandidateView;

    open spec fn view(&self) -> CandidateView {
        CandidateView {
            kind: self.kind,
            dest: self.dest@,
            start: self.start as int,
            end: self.end as int,
        }
    }
}

/// One planned edit: the bracketed display text to keep, the destination URL
/// to link to, and the byte span of the original link to replace.
pub struct Replacement {
    pub display: Vec<u8>,
    pub url: Vec<u8>,
    pub start: usize,
    pub end: usize,
}

/// Mathematical image of a `Replacement`.
pub ghost struct ReplacementView {
    pub display: Seq<u8>,
    pub url: Seq<u8>,
    pub start: int,
    pub end: int,
}

impl View for Replacement {
    type V = ReplacementView;

    open spec fn view(&self) -> ReplacementView {
        ReplacementView {
            display: self.display@,
            url: self.url@,
            start: self.start as int,
            end: self.end as int,
        }
    }
}

/// One document as the pipeline hands it in: its raw text and its nesting
/// depth (path segments between its output location and the documentation
/// root).
pub struct DocSource {
    pub text: Vec<u8>,
    pub depth: usize,
}

/// Mathematical image of a `DocSource`.
pub ghost struct DocView {
    pub text: Seq<u8>,
    pub depth: int,
}

impl View for DocSource {
    type V = DocView;

    open spec fn view(&self) -> DocView {
        DocView { text: self.text@, depth: self.depth as int }
    }
}

/// Views of a sequence of documents.
pub open spec fn doc_views(s: Seq<DocSource>) -> Seq<DocView> {
    s.map_values(|d: DocSource| d@)
}

/// The fatal conditions of a run.  Every one aborts the whole run before any
/// document text is committed.
#[derive(Debug)]
pub enum Error {
    /// A link carries an explicit title, which is not supported.
    TitledLink { dest: Vec<u8>, title: Vec<u8> },
    /// The resolver produced a different number of URLs than candidates were
    /// collected.  `expected` saturates at `usize::MAX`.
    CountMismatch { expected: usize, found: usize },
    /// No anchor with a destination attribute was found in a resolver output
    /// line.
    MissingAnchor { url: Vec<u8> },
    /// The text at a candidate's span does not have the bracketed shape its
    /// kind demands.
    DisplayMismatch { text: Vec<u8>, kind: LinkKind },
    /// A resolved URL does not start with a recognized canonical
    /// documentation host and channel prefix.
    UnrecognizedUrl { url: Vec<u8> },
    /// A candidate's span does not lie within its document.
    BadSpan { start: usize, end: usize },
    /// Two replacement spans overlap.
    SpanOverlap { start: usize, end: usize },
}

/// Mathematical image of an `Error`.
pub ghost enum ErrorSpec {
    TitledLink { dest: Seq<u8>, title: Seq<u8> },
    CountMismatch { expected: int, found: int },
    MissingAnchor { url: Seq<u8> },
    DisplayMismatch { text: Seq<u8>, kind: LinkKind },
    UnrecognizedUrl { url: Seq<u8> },
    BadSpan { start: int, end: int },
    SpanOverlap { start: int, end: int },
}

impl View for Error {
    type V = ErrorSpec;

    open spec fn view(&self) -> ErrorSpec {
        match self {
            Error::TitledLink { dest, title } => ErrorSpec::TitledLink {
                dest: dest@,
                title: title@,
            },
            Error::CountMismatch { expected, found } => ErrorSpec::CountMismatch {
                expected: *expected as int,
                found: *found as int,
            },
            Error::MissingAnchor { url } => ErrorSpec::MissingAnchor { url: url@ },
            Error::DisplayMismatch { text, kind } => ErrorSpec::DisplayMismatch {
                text: text@,
                kind: *kind,
            },
            Error::UnrecognizedUrl { url } => ErrorSpec::UnrecognizedUrl { url: url@ },
            Error::BadSpan { start, end } => ErrorSpec::BadSpan {
                start: *start as int,
                end: *end as int,
            },
            Error::SpanOverlap { start, end } => ErrorSpec::SpanOverlap {
                start: *start as int,
                end: *end as int,
            },
        }
    }
}

/// Views of a sequence of raw links.
pub open spec fn raw_views(s: Seq<RawLink>) -> Seq<RawLinkView> {
    s.map_values(|l: RawLink| l@)
}

/// Views of a sequence of candidates.
pub open spec fn cand_views(s: Seq<Candidate>) -> Seq<CandidateView> {
    s.map_values(|c: Candidate| c@)
}

/// Views of a sequence of replacements.
pub open spec fn repl_views(s: Seq<Replacement>) -> Seq<ReplacementView> {
    s.map_values(|r: Replacement| r@)
}

/// Views of each document's candidate list.
pub open spec fn doc_cand_views(s: Seq<Vec<Candidate>>) -> Seq<Seq<CandidateView>> {
    s.map_values(|v: Vec<Candidate>| cand_views(v@))
}

/// Views of a sequence of byte vectors.
pub open spec fn byte_views(s: Seq<Vec<u8>>) -> Seq<Seq<u8>> {
    s.map_values(|v: Vec<u8>| v@)
}

} // verus!
