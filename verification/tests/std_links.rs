use std_links::collect::collect_markdown_links;
use std_links::link::{Candidate, DocSource, Error, LinkKind};
use std_links::pipeline::{rewrite_document, rewrite_documents};
use std_links::relative::relative_url;
use std_links::replace::compute_replacements;
use std_links::split::split_urls;
use std_links::stub::make_stub;
use std_links::extract::extract_urls;

fn b(s: &str) -> Vec<u8> {
    s.as_bytes().to_vec()
}

fn s(v: &[u8]) -> String {
    String::from_utf8(v.to_vec()).unwrap()
}

#[test]
fn collects_shortcut_symbol_reference() {
    let text = b("See [std::option::Option] for details.");
    let links = collect_markdown_links(&text).unwrap();
    assert_eq!(links.len(), 1);
    assert_eq!(links[0].kind, LinkKind::Shortcut);
    assert_eq!(s(&links[0].dest), "std::option::Option");
    assert_eq!(&text[links[0].start..links[0].end], b("[std::option::Option]").as_slice());
}

#[test]
fn collects_inline_symbol_reference() {
    let text = b("Use [Vec](std::vec::Vec) here.");
    let links = collect_markdown_links(&text).unwrap();
    assert_eq!(links.len(), 1);
    assert_eq!(links[0].kind, LinkKind::Inline);
    assert_eq!(s(&links[0].dest), "std::vec::Vec");
}

#[test]
fn collects_reference_style_link() {
    let text = b("See [the vector][vc] type.\n\n[vc]: std::vec::Vec\n");
    let links = collect_markdown_links(&text).unwrap();
    assert_eq!(links.len(), 1);
    assert_eq!(links[0].kind, LinkKind::Reference);
    assert_eq!(s(&links[0].dest), "std::vec::Vec");
    assert_eq!(&text[links[0].start..links[0].end], b("[the vector][vc]").as_slice());
}

#[test]
fn filters_web_scheme_file_and_anchor_destinations() {
    let text = b(
        "[a](http://example.com) and [b](https://example.com)\n[c](other.md) and [d](page.html#x) and [e](#frag)\n[keep](std::vec::Vec)\n",
    );
    let links = collect_markdown_links(&text).unwrap();
    assert_eq!(links.len(), 1);
    assert_eq!(s(&links[0].dest), "std::vec::Vec");
}

#[test]
fn filters_autolinks() {
    let text = b("Visit <http://example.com> or write <john@example.org>.");
    let links = collect_markdown_links(&text).unwrap();
    assert!(links.is_empty());
}

#[test]
fn broken_reference_fallbacks_come_after_well_formed_links() {
    let text = b("[std::option::Option] then [Vec](std::vec::Vec) end.");
    let links = collect_markdown_links(&text).unwrap();
    assert_eq!(links.len(), 2);
    // the well-formed inline link comes first although it stands later
    assert_eq!(links[0].kind, LinkKind::Inline);
    assert_eq!(s(&links[0].dest), "std::vec::Vec");
    assert_eq!(links[1].kind, LinkKind::Shortcut);
    assert_eq!(s(&links[1].dest), "std::option::Option");
}

#[test]
fn titled_link_aborts_collection() {
    let text = b("See [Option](std::option::Option \"title\").");
    match collect_markdown_links(&text) {
        Err(Error::TitledLink { dest, title }) => {
            assert_eq!(s(&dest), "std::option::Option");
            assert_eq!(s(&title), "title");
        },
        other => panic!("expected a titled-link error, got {:?}", other.is_ok()),
    }
}

#[test]
fn stub_has_header_one_line_per_candidate_and_footer() {
    let cand = |d: &str| Candidate { kind: LinkKind::Shortcut, dest: b(d), start: 0, end: 1 };
    let stub = make_stub(&vec![vec![cand("std::vec::Vec")], vec![cand("core::mem::swap")]]);
    let mut expected = String::from(
        "#![deny(rustdoc::broken_intra_doc_links)]\n#![allow(rustdoc::redundant_explicit_links)]\n//! - LINK: [std::vec::Vec]\n//! - LINK: [core::mem::swap]\n",
    );
    for name in ["alloc", "proc_macro", "test"] {
        expected.push_str("ext");
        expected.push_str("ern crate ");
        expected.push_str(name);
        expected.push_str(";\n");
    }
    expected.push('\n');
    assert_eq!(s(&stub), expected);
}

#[test]
fn extracts_marker_lines_in_order() {
    let html = b(
        "<html><body>\n<li>LINK: <a href=\"https://doc.rust-lang.org/stable/a.html\">a</a></li>\n<li>other list item</li>\n<li>LINK: <a href=\"https://doc.rust-lang.org/stable/b.html\">b</a></li>\n</body></html>\n",
    );
    let urls = extract_urls(&html);
    assert_eq!(urls.len(), 2);
    assert_eq!(s(&urls[0]), "<a href=\"https://doc.rust-lang.org/stable/a.html\">a</a>");
    assert_eq!(s(&urls[1]), "<a href=\"https://doc.rust-lang.org/stable/b.html\">b</a>");
}

#[test]
fn split_preserves_counts_and_order() {
    let urls = vec![b("u0"), b("u1"), b("u2")];
    let runs = split_urls(&urls, &vec![1, 0, 2]);
    assert_eq!(runs.len(), 3);
    assert_eq!(runs[0].len(), 1);
    assert_eq!(s(&runs[0][0]), "u0");
    assert!(runs[1].is_empty());
    assert_eq!(s(&runs[2][0]), "u1");
    assert_eq!(s(&runs[2][1]), "u2");
}

#[test]
fn relative_url_strips_channel_and_adds_parent_markers() {
    let url = b("https://doc.rust-lang.org/stable/std/option/enum.Option.html");
    let r = relative_url(&url, 2, false).unwrap();
    assert_eq!(s(&r), "../../std/option/enum.Option.html");
}

#[test]
fn relative_url_handles_nightly_and_pinned_versions() {
    let r = relative_url(&b("https://doc.rust-lang.org/nightly/core/index.html"), 1, false);
    assert_eq!(s(&r.unwrap()), "../core/index.html");
    let r = relative_url(&b("https://doc.rust-lang.org/1.75.0/std/index.html"), 0, false);
    assert_eq!(s(&r.unwrap()), "/std/index.html");
}

#[test]
fn relative_url_keeps_absolute_mode_unchanged() {
    let url = b("https://doc.rust-lang.org/beta/std/index.html");
    let r = relative_url(&url, 3, true).unwrap();
    assert_eq!(r, url);
}

#[test]
fn relative_url_rejects_unrecognized_hosts() {
    match relative_url(&b("https://example.com/std/index.html"), 1, false) {
        Err(Error::UnrecognizedUrl { url }) => {
            assert_eq!(s(&url), "https://example.com/std/index.html");
        },
        _ => panic!("expected an unrecognized-URL error"),
    }
}

#[test]
fn replacements_keep_display_text_and_sort_bottom_up() {
    let text = b("[a](std::a) then [b](std::b)");
    let links = collect_markdown_links(&text).unwrap();
    assert_eq!(links.len(), 2);
    let urls = vec![
        b("<a href=\"https://doc.rust-lang.org/stable/a.html\">a</a>"),
        b("<a href=\"https://doc.rust-lang.org/stable/b.html\">b</a>"),
    ];
    let plan = compute_replacements(&text, &links, &urls).unwrap();
    assert_eq!(plan.len(), 2);
    // descending span-start order: the later link first
    assert_eq!(s(&plan[0].display), "[b]");
    assert_eq!(s(&plan[0].url), "https://doc.rust-lang.org/stable/b.html");
    assert_eq!(s(&plan[1].display), "[a]");
    assert_eq!(s(&plan[1].url), "https://doc.rust-lang.org/stable/a.html");
    assert!(plan[0].start > plan[1].start);
}

#[test]
fn replacements_need_an_anchor_in_each_url_line() {
    let text = b("[a](std::a)");
    let links = collect_markdown_links(&text).unwrap();
    let urls = vec![b("no anchor here")];
    match compute_replacements(&text, &links, &urls) {
        Err(Error::MissingAnchor { url }) => assert_eq!(s(&url), "no anchor here"),
        _ => panic!("expected a missing-anchor error"),
    }
}

#[test]
fn replacements_check_the_display_pattern() {
    let text = b("plain text with no link");
    let links = vec![Candidate { kind: LinkKind::Inline, dest: b("std::a"), start: 0, end: 5 }];
    let urls = vec![b("<a href=\"https://doc.rust-lang.org/stable/a.html\">a</a>")];
    match compute_replacements(&text, &links, &urls) {
        Err(Error::DisplayMismatch { text: t, kind }) => {
            assert_eq!(s(&t), "plain");
            assert_eq!(kind, LinkKind::Inline);
        },
        _ => panic!("expected a display-mismatch error"),
    }
}

#[test]
fn replacements_check_span_bounds() {
    let text = b("short");
    let links = vec![Candidate { kind: LinkKind::Inline, dest: b("std::a"), start: 2, end: 99 }];
    let urls = vec![b("<a href=\"https://doc.rust-lang.org/stable/a.html\">a</a>")];
    match compute_replacements(&text, &links, &urls) {
        Err(Error::BadSpan { start, end }) => {
            assert_eq!(start, 2);
            assert_eq!(end, 99);
        },
        _ => panic!("expected a bad-span error"),
    }
}

#[test]
fn scenario_relative_rewrite_one_level_deep() {
    let text = b("See [std::option::Option] for details.");
    let links = collect_markdown_links(&text).unwrap();
    let html = b(
        "<li>LINK: <a href=\"https://doc.rust-lang.org/stable/std/option/enum.Option.html\">Option</a></li>\n",
    );
    let docs = vec![DocSource { text: text.clone(), depth: 1 }];
    let out = rewrite_documents(&docs, &vec![links], &html, false).unwrap();
    assert_eq!(out.len(), 1);
    assert_eq!(
        s(&out[0]),
        "See [std::option::Option](../std/option/enum.Option.html) for details."
    );
}

#[test]
fn scenario_absolute_mode_keeps_original_url() {
    let text = b("See [std::option::Option] for details.");
    let links = collect_markdown_links(&text).unwrap();
    let html = b(
        "<li>LINK: <a href=\"https://doc.rust-lang.org/stable/std/option/enum.Option.html\">Option</a></li>\n",
    );
    let docs = vec![DocSource { text: text.clone(), depth: 1 }];
    let out = rewrite_documents(&docs, &vec![links], &html, true).unwrap();
    assert_eq!(
        s(&out[0]),
        "See [std::option::Option](https://doc.rust-lang.org/stable/std/option/enum.Option.html) for details."
    );
}

#[test]
fn scenario_titled_link_aborts_before_any_rewrite() {
    let good = b("See [std::option::Option].");
    let titled = b("See [Option](std::option::Option \"title\").");
    // collection runs over all documents before anything is rewritten, so the
    // titled link aborts the run with nothing mutated
    let first = collect_markdown_links(&good).unwrap();
    assert_eq!(first.len(), 1);
    match collect_markdown_links(&titled) {
        Err(Error::TitledLink { dest, title }) => {
            assert_eq!(s(&dest), "std::option::Option");
            assert_eq!(s(&title), "title");
        },
        _ => panic!("expected a titled-link error"),
    }
}

#[test]
fn scenario_count_mismatch_reports_both_counts() {
    let text = b("[std::option::Option] and [std::vec::Vec] here.");
    let links = collect_markdown_links(&text).unwrap();
    assert_eq!(links.len(), 2);
    let html = b("<li>LINK: <a href=\"https://doc.rust-lang.org/stable/a.html\">a</a></li>\n");
    let docs = vec![DocSource { text: text.clone(), depth: 1 }];
    match rewrite_documents(&docs, &vec![links], &html, false) {
        Err(Error::CountMismatch { expected, found }) => {
            assert_eq!(expected, 2);
            assert_eq!(found, 1);
        },
        _ => panic!("expected a count-mismatch error"),
    }
}

#[test]
fn rewrite_document_handles_multiple_styles_in_one_text() {
    let text = b("[a](std::a) and [long name][rf] and [std::c]\n\n[rf]: std::b\n");
    let links = collect_markdown_links(&text).unwrap();
    assert_eq!(links.len(), 3);
    let urls: Vec<Vec<u8>> = links
        .iter()
        .map(|l| {
            let mut u = b("<a href=\"https://doc.rust-lang.org/stable/");
            u.extend_from_slice(&l.dest);
            u.extend_from_slice(b".html\">x</a>");
            u
        })
        .collect();
    let out = rewrite_document(&text, &links, &urls, 1, false).unwrap();
    assert_eq!(
        s(&out),
        "[a](../std::a.html) and [long name](../std::b.html) and [std::c](../std::c.html)\n\n[rf]: std::b\n"
    );
}

#[test]
fn rewrite_documents_splits_urls_across_documents() {
    let t1 = b("[std::a] one");
    let t2 = b("[std::b] two");
    let l1 = collect_markdown_links(&t1).unwrap();
    let l2 = collect_markdown_links(&t2).unwrap();
    let html = b(
        "<li>LINK: <a href=\"https://doc.rust-lang.org/stable/a.html\">a</a></li>\n<li>LINK: <a href=\"https://doc.rust-lang.org/stable/b.html\">b</a></li>\n",
    );
    let docs = vec![
        DocSource { text: t1.clone(), depth: 0 },
        DocSource { text: t2.clone(), depth: 2 },
    ];
    let out = rewrite_documents(&docs, &vec![l1, l2], &html, false).unwrap();
    assert_eq!(s(&out[0]), "[std::a](/a.html) one");
    assert_eq!(s(&out[1]), "[std::b](../../b.html) two");
}

#[test]
fn overlapping_spans_abort_the_rewrite() {
    let text = b("[a](std::a)[b](std::b)");
    let links = vec![
        Candidate { kind: LinkKind::Inline, dest: b("std::a"), start: 0, end: 15 },
        Candidate { kind: LinkKind::Inline, dest: b("std::b"), start: 11, end: 22 },
    ];
    let urls = vec![
        b("<a href=\"https://doc.rust-lang.org/stable/a.html\">a</a>"),
        b("<a href=\"https://doc.rust-lang.org/stable/b.html\">b</a>"),
    ];
    match rewrite_document(&text, &links, &urls, 0, true) {
        Err(Error::SpanOverlap { start, end }) => {
            assert_eq!(start, 0);
            assert_eq!(end, 15);
        },
        _ => panic!("expected a span-overlap error"),
    }
}
