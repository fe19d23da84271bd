//! The link collector: scans one document's link events and keeps those that
//! look like library-symbol references.

use vstd::prelude::*;
use vstd::string::StrSliceExecFns;
use vstd::string::StringSliceAdditionalSpecFns;

use crate::bytes::{contains_bytes, contains_seq, copy_bytes, is_prefix, starts_with_seq};
use crate::link::{cand_views, Candidate, CandidateView, Error, ErrorSpec, LinkKind, RawKind, RawLinkView};
use crate::parse::{md_link_events, parse_md_links};

verus! {

/// A destination of this shape is an ordinary intra-book link, never a symbol
/// reference: it starts with a web-scheme prefix, mentions a local document
/// file, or starts with an in-page anchor marker.
pub open spec fn skipped_dest(d: Seq<u8>) -> bool {
    is_prefix(d, "http".spec_bytes()) || contains_seq(d, ".md".spec_bytes()) || contains_seq(
        d,
        ".html".spec_bytes(),
    ) || is_prefix(d, "#".spec_bytes())
}

/// How the collector treats each raw link shape: `None` to skip it outright,
/// or the candidate shape to keep plus whether it came through the
/// broken-reference fallback.
pub open spec fn classify(k: RawKind) -> Option<(LinkKind, bool)> {
    match k {
        RawKind::Inline => Some((LinkKind::Inline, false)),
        RawKind::Reference => Some((LinkKind::Reference, false)),
        RawKind::Collapsed => Some((LinkKind::Collapsed, false)),
        RawKind::Shortcut => Some((LinkKind::Shortcut, false)),
        RawKind::ReferenceUnknown => Some((LinkKind::Reference, true)),
        RawKind::CollapsedUnknown => Some((LinkKind::Collapsed, true)),
        RawKind::ShortcutUnknown => Some((LinkKind::Shortcut, true)),
        RawKind::Autolink => None,
        RawKind::Email => None,
        RawKind::Other => None,
    }
}

/// The candidate a kept event becomes.
pub open spec fn cand_of(e: RawLinkView, k: LinkKind) -> CandidateView {
    CandidateView { kind: k, dest: e.dest, start: e.start, end: e.end }
}

/// What collection yields on a document's events: the kept well-formed links
/// and the kept broken-reference fallbacks, each in document order, or the
/// first titled link as an error.
pub open spec fn collect_spec(events: Seq<RawLinkView>) -> Result<
    (Seq<CandidateView>, Seq<CandidateView>),
    ErrorSpec,
>
    decreases events.len(),
{
    if events.len() == 0 {
        Ok((Seq::empty(), Seq::empty()))
    } else {
        let e = events[0];
        match classify(e.kind) {
            None => collect_spec(events.drop_first()),
            Some((k, broken)) => {
                if skipped_dest(e.dest) {
                    collect_spec(events.drop_first())
                } else if !broken && e.title.len() > 0 {
                    Err(ErrorSpec::TitledLink { dest: e.dest, title: e.title })
                } else {
                    match collect_spec(events.drop_first()) {
                        Err(er) => Err(er),
                        Ok((reg, br)) => if broken {
                            Ok((reg, seq![cand_of(e, k)] + br))
                        } else {
                            Ok((seq![cand_of(e, k)] + reg, br))
                        },
                    }
                }
            },
        }
    }
}

/// A document's candidate list: the kept well-formed links first, the kept
/// broken-reference fallbacks appended after them.
pub open spec fn collected(events: Seq<RawLinkView>) -> Result<Seq<CandidateView>, ErrorSpec> {
    match collect_spec(events) {
        Ok((reg, br)) => Ok(reg + br),
        Err(e) => Err(e),
    }
}

/// Filter correctness: no collected candidate, whatever its shape, has a
/// destination that starts with a web-scheme prefix, mentions a local
/// document file, or starts with an in-page anchor marker.
pub proof fn lemma_filter_correctness(events: Seq<RawLinkView>)
    ensures
        collected(events) matches Ok(cs) ==> forall|i: int|
            0 <= i < cs.len() ==> !skipped_dest(#[trigger] cs[i].dest),
    decreases events.len(),
{
    if events.len() > 0 {
        lemma_filter_correctness(events.drop_first());
        let e = events[0];
        match classify(e.kind) {
            None => {},
            Some((k, broken)) => {
                if skipped_dest(e.dest) || (!broken && e.title.len() > 0) {
                } else {
                    match collect_spec(events.drop_first()) {
                        Err(_) => {},
                        Ok((reg, br)) => {
                            let old_cs = reg + br;
                            let c = cand_of(e, k);
                            let new_cs = if broken {
                                reg + (seq![c] + br)
                            } else {
                                (seq![c] + reg) + br
                            };
                            assert(collected(events) == Ok::<Seq<CandidateView>, ErrorSpec>(
                                new_cs,
                            ));
                            assert forall|i: int| 0 <= i < new_cs.len() implies !skipped_dest(
                                #[trigger] new_cs[i].dest,
                            ) by {
                                if broken {
                                    if i < reg.len() {
                                        assert(new_cs[i] == old_cs[i]);
                                    } else if i == reg.len() {
                                        assert(new_cs[i] == c);
                                    } else {
                                        assert(new_cs[i] == old_cs[i - 1]);
                                    }
                                } else {
                                    if i == 0 {
                                        assert(new_cs[i] == c);
                                    } else if i <= reg.len() {
                                        assert(new_cs[i] == old_cs[i - 1]);
                                    } else {
                                        assert(new_cs[i] == old_cs[i - 1]);
                                    }
                                }
                            }
                        },
                    }
                }
            },
        }
    }
}

/// Collection of `evs` is what `suffix` yields, prefixed by the candidates
/// already accumulated in `reg` and `br`.
pub open spec fn collect_unfolds_to(
    evs: Seq<RawLinkView>,
    suffix: Result<(Seq<CandidateView>, Seq<CandidateView>), ErrorSpec>,
    reg: Seq<CandidateView>,
    br: Seq<CandidateView>,
) -> bool {
    match suffix {
        Err(er) => collect_spec(evs) == Err::<(Seq<CandidateView>, Seq<CandidateView>), ErrorSpec>(
            er,
        ),
        Ok((r2, b2)) => collect_spec(evs) matches Ok((ra, ba)) && ra == reg + r2 && ba == br + b2,
    }
}

/// The collector's runtime test of `skipped_dest`.
fn dest_is_skipped(d: &Vec<u8>) -> (r: bool)
    ensures
        r == skipped_dest(d@),
{
    let http = "http".as_bytes_vec();
    let md = ".md".as_bytes_vec();
    let html = ".html".as_bytes_vec();
    let hash = "#".as_bytes_vec();
    starts_with_seq(d, &http) || contains_bytes(d, &md) || contains_bytes(d, &html)
        || starts_with_seq(d, &hash)
}

/// The collector's runtime classification of a raw link shape.
fn classify_kind(k: RawKind) -> (r: Option<(LinkKind, bool)>)
    ensures
        r == classify(k),
{
    match k {
        RawKind::Inline => Some((LinkKind::Inline, false)),
        RawKind::Reference => Some((LinkKind::Reference, false)),
        RawKind::Collapsed => Some((LinkKind::Collapsed, false)),
        RawKind::Shortcut => Some((LinkKind::Shortcut, false)),
        RawKind::ReferenceUnknown => Some((LinkKind::Reference, true)),
        RawKind::CollapsedUnknown => Some((LinkKind::Collapsed, true)),
        RawKind::ShortcutUnknown => Some((LinkKind::Shortcut, true)),
        RawKind::Autolink => None,
        RawKind::Email => None,
        RawKind::Other => None,
    }
}

/// Collects the candidate links of one document's text: every link that looks
/// like a library-symbol reference, well-formed links first and
/// broken-reference fallbacks after, in document order; or the first titled
/// link as the error.
pub fn collect_markdown_links(text: &Vec<u8>) -> (r: Result<Vec<Candidate>, Error>)
    ensures
        match r {
            Ok(v) => collected(md_link_events(text@)) == Ok::<Seq<CandidateView>, ErrorSpec>(
                cand_views(v@),
            ),
            Err(e) => collected(md_link_events(text@)) == Err::<Seq<CandidateView>, ErrorSpec>(e@),
        },
{
    let events = parse_md_links(text);
    let ghost evs = md_link_events(text@);
    let mut reg: Vec<Candidate> = Vec::new();
    let mut br: Vec<Candidate> = Vec::new();
    let mut i: usize = 0;
    proof {
        assert(evs.skip(0) =~= evs);
        match collect_spec(evs) {
            Ok((r2, b2)) => {
                assert(cand_views(reg@) + r2 =~= r2);
                assert(cand_views(br@) + b2 =~= b2);
            },
            Err(_) => {},
        }
    }
    while i < events.len()
        invariant
            i <= events@.len(),
            evs == md_link_events(text@),
            crate::link::raw_views(events@) == evs,
            collect_unfolds_to(evs, collect_spec(evs.skip(i as int)), cand_views(reg@), cand_views(br@)),
        decreases events@.len() - i,
    {
        let e = &events[i];
        let ghost ev = evs[i as int];
        proof {
            assert(ev == events@[i as int]@);
            assert(evs.skip(i as int)[0] == ev);
            assert(evs.skip(i as int).drop_first() =~= evs.skip(i as int + 1));
        }
        match classify_kind(e.kind) {
            None => {},
            Some((k, broken)) => {
                if dest_is_skipped(&e.dest) {
                } else if !broken && e.title.len() > 0 {
                    let err = Error::TitledLink { dest: copy_bytes(&e.dest), title: copy_bytes(&e.title) };
                    proof {
                        assert(collect_spec(evs.skip(i as int)) == Err::<
                            (Seq<CandidateView>, Seq<CandidateView>),
                            ErrorSpec,
                        >(err@));
                        assert(collect_spec(evs) == Err::<
                            (Seq<CandidateView>, Seq<CandidateView>),
                            ErrorSpec,
                        >(err@));
                        assert(collected(evs) == Err::<Seq<CandidateView>, ErrorSpec>(err@));
                    }
                    return Err(err);
                } else {
                    let c = Candidate {
                        kind: k,
                        dest: copy_bytes(&e.dest),
                        start: e.start,
                        end: e.end,
                    };
                    proof {
                        assert(c@ == cand_of(ev, k));
                        if broken {
                            assert(cand_views(br@.push(c)) =~= cand_views(br@) + seq![c@]);
                            match collect_spec(evs.skip(i as int + 1)) {
                                Ok((r2, b2)) => {
                                    assert(cand_views(br@) + (seq![c@] + b2) =~= (cand_views(br@)
                                        + seq![c@]) + b2);
                                },
                                Err(_) => {},
                            }
                        } else {
                            assert(cand_views(reg@.push(c)) =~= cand_views(reg@) + seq![c@]);
                            match collect_spec(evs.skip(i as int + 1)) {
                                Ok((r2, b2)) => {
                                    assert(cand_views(reg@) + (seq![c@] + r2) =~= (cand_views(reg@)
                                        + seq![c@]) + r2);
                                },
                                Err(_) => {},
                            }
                        }
                    }
                    if broken {
                        br.push(c);
                    } else {
                        reg.push(c);
                    }
                }
            },
        }
        i = i + 1;
    }
    proof {
        assert(evs.skip(i as int) =~= Seq::<RawLinkView>::empty());
        match collect_spec(evs) {
            Ok((ra, ba)) => {
                assert(cand_views(reg@) + Seq::<CandidateView>::empty() =~= cand_views(reg@));
                assert(cand_views(br@) + Seq::<CandidateView>::empty() =~= cand_views(br@));
            },
            Err(_) => {},
        }
    }
    let ghost reg0 = reg@;
    let ghost br0 = br@;
    reg.append(&mut br);
    proof {
        assert(cand_views(reg@) =~= cand_views(reg0) + cand_views(br0));
        assert(collected(evs) == Ok::<Seq<CandidateView>, ErrorSpec>(cand_views(reg@)));
    }
    Ok(reg)
}

} // verus!
