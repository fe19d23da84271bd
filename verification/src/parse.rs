//! The one outside call of the library: parsing a document's markdown with
//! pulldown_cmark and handing its link events to the verified collector.

use vstd::prelude::*;

use crate::link::{raw_views, RawKind, RawLink, RawLinkView};
use pulldown_cmark::{BrokenLink, CowStr, Event, Options, Parser, Tag};

verus! {

/// The parser's link-shape type, declared so that the conversion below can
/// take it.
#[verifier::external_type_specification]
#[verifier::external_body]
pub struct ExLinkType(pulldown_cmark::LinkType);

/// The link events that parsing a byte text as markdown yields, in document
/// order: for each link, its shape, destination, title and byte span.  The
/// parse is a function of the text alone.
pub uninterp spec fn md_link_events(text: Seq<u8>) -> Seq<RawLinkView>;

/// Relies on pulldown_cmark::LinkType: tells its variants apart for the
/// collector, field for field.
#[verifier::external_body]
fn raw_kind(lt: &pulldown_cmark::LinkType) -> RawKind {
    match lt {
        pulldown_cmark::LinkType::Inline => RawKind::Inline,
        pulldown_cmark::LinkType::Reference => RawKind::Reference,
        pulldown_cmark::LinkType::ReferenceUnknown => RawKind::ReferenceUnknown,
        pulldown_cmark::LinkType::Collapsed => RawKind::Collapsed,
        pulldown_cmark::LinkType::CollapsedUnknown => RawKind::CollapsedUnknown,
        pulldown_cmark::LinkType::Shortcut => RawKind::Shortcut,
        pulldown_cmark::LinkType::ShortcutUnknown => RawKind::ShortcutUnknown,
        pulldown_cmark::LinkType::Autolink => RawKind::Autolink,
        pulldown_cmark::LinkType::Email => RawKind::Email,
        pulldown_cmark::LinkType::WikiLink { .. } => RawKind::Other,
    }
}

/// Relies on pulldown_cmark::Parser: parses the text as markdown (tables,
/// footnotes, strikethrough, task lists, heading attributes and smart
/// punctuation enabled) and reports every link-start event with its byte
/// span.  A reference without a definition is kept through the broken-link
/// callback: it comes back as an `...Unknown` event whose destination is the
/// literal reference text and whose title is empty.
#[verifier::external_body]
pub fn parse_md_links(text: &Vec<u8>) -> (r: Vec<RawLink>)
    ensures
        raw_views(r@) == md_link_events(text@),
{
    let s = String::from_utf8_lossy(text);
    let opts = Options::ENABLE_TABLES | Options::ENABLE_FOOTNOTES | Options::ENABLE_STRIKETHROUGH
        | Options::ENABLE_TASKLISTS | Options::ENABLE_HEADING_ATTRIBUTES
        | Options::ENABLE_SMART_PUNCTUATION;
    let mut out: Vec<RawLink> = Vec::new();
    let parser = Parser::new_with_broken_link_callback(&s, opts,
        Some(|bl: BrokenLink| Some((CowStr::Boxed(bl.reference.into_string().into_boxed_str()),
            CowStr::Borrowed("")))));
    for (ev, range) in parser.into_offset_iter() {
        if let Event::Start(Tag::Link { link_type, dest_url, title, id: _ }) = ev {
            out.push(RawLink { kind: raw_kind(&link_type), dest: dest_url.as_bytes().to_vec(),
                title: title.as_bytes().to_vec(), start: range.start, end: range.end });
        }
    }
    out
}

} // verus!
