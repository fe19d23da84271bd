//! The post-resolver stage: extracts the resolved URLs, holds their count to
//! the candidate count, splits them per document, and rewrites every
//! document's text — all before any document is committed.

use vstd::prelude::*;

use crate::bytes::copy_bytes;
use crate::extract::{extract_urls, urls_of};
use crate::link::{
    byte_views, cand_views, doc_cand_views, doc_views, repl_views, Candidate, CandidateView,
    DocSource, DocView, Error, ErrorSpec, Replacement, ReplacementView,
};
use crate::relative::{rel_url_spec, relative_url};
use crate::replace::{compute_replacements, plan_spec, sort_desc};
use crate::rewrite::{apply_bottom_up, apply_replacements, wf_desc};

verus! {

/// The relative-URL step applied to each replacement in order, keeping the
/// display text and span; the first unrecognized URL aborts.
pub open spec fn rel_all(rs: Seq<ReplacementView>, depth: int, absolute: bool) -> Result<
    Seq<ReplacementView>,
    ErrorSpec,
>
    decreases rs.len(),
{
    if rs.len() == 0 {
        Ok(Seq::empty())
    } else {
        match rel_url_spec(rs[0].url, depth, absolute) {
            Err(e) => Err(e),
            Ok(u2) => match rel_all(rs.drop_first(), depth, absolute) {
                Err(e) => Err(e),
                Ok(rest) => Ok(
                    seq![
                        ReplacementView {
                            display: rs[0].display,
                            url: u2,
                            start: rs[0].start,
                            end: rs[0].end,
                        },
                    ] + rest,
                ),
            },
        }
    }
}

/// First replacement whose span does not lie within a text of length `len`.
pub open spec fn first_bad_span(rs: Seq<ReplacementView>, len: int) -> Option<int>
    decreases rs.len(),
{
    if rs.len() == 0 {
        None
    } else if !(0 <= rs[0].start <= rs[0].end <= len) {
        Some(0)
    } else {
        match first_bad_span(rs.drop_first(), len) {
            Some(k) => Some(k + 1),
            None => None,
        }
    }
}

/// First position of the descending plan whose successor's span overlaps it.
pub open spec fn first_overlap(rs: Seq<ReplacementView>) -> Option<int>
    decreases rs.len(),
{
    if rs.len() <= 1 {
        None
    } else if rs[1].end > rs[0].start {
        Some(0)
    } else {
        match first_overlap(rs.drop_first()) {
            Some(k) => Some(k + 1),
            None => None,
        }
    }
}

proof fn lemma_first_bad_at(rs: Seq<ReplacementView>, len: int, k: int)
    requires
        0 <= k < rs.len(),
        forall|m: int| 0 <= m < k ==> 0 <= (#[trigger] rs[m]).start <= rs[m].end <= len,
        !(0 <= rs[k].start <= rs[k].end <= len),
    ensures
        first_bad_span(rs, len) == Some(k),
    decreases k,
{
    if k > 0 {
        let d = rs.drop_first();
        assert(forall|m: int| 0 <= m < k - 1 ==> #[trigger] d[m] == rs[m + 1]);
        lemma_first_bad_at(d, len, k - 1);
    }
}

proof fn lemma_first_bad_none(rs: Seq<ReplacementView>, len: int)
    requires
        forall|m: int| 0 <= m < rs.len() ==> 0 <= (#[trigger] rs[m]).start <= rs[m].end <= len,
    ensures
        first_bad_span(rs, len) is None,
    decreases rs.len(),
{
    if rs.len() > 0 {
        let d = rs.drop_first();
        assert(forall|m: int| 0 <= m < d.len() ==> #[trigger] d[m] == rs[m + 1]);
        lemma_first_bad_none(d, len);
    }
}

proof fn lemma_first_overlap_at(rs: Seq<ReplacementView>, k: int)
    requires
        0 <= k < rs.len() - 1,
        forall|m: int| 0 <= m < k ==> (#[trigger] rs[m]).start >= rs[m + 1].end,
        rs[k + 1].end > rs[k].start,
    ensures
        first_overlap(rs) == Some(k),
    decreases k,
{
    if k > 0 {
        let d = rs.drop_first();
        assert(forall|m: int| 0 <= m < d.len() ==> #[trigger] d[m] == rs[m + 1]);
        assert forall|m: int| 0 <= m < k - 1 implies (#[trigger] d[m]).start >= d[m + 1].end by {
            assert(rs[m + 1].start >= rs[m + 2].end);
        }
        lemma_first_overlap_at(d, k - 1);
    }
}

proof fn lemma_first_overlap_none(rs: Seq<ReplacementView>)
    requires
        forall|m: int| 0 <= m < rs.len() - 1 ==> (#[trigger] rs[m]).start >= rs[m + 1].end,
    ensures
        first_overlap(rs) is None,
    decreases rs.len(),
{
    if rs.len() > 1 {
        let d = rs.drop_first();
        assert(forall|m: int| 0 <= m < d.len() ==> #[trigger] d[m] == rs[m + 1]);
        assert forall|m: int| 0 <= m < d.len() - 1 implies (#[trigger] d[m]).start
            >= d[m + 1].end by {
            assert(rs[m + 1].start >= rs[m + 2].end);
        }
        lemma_first_overlap_none(d);
        assert(rs[0int].start >= rs[1int].end);
    }
}

/// The plan of `text`'s links, ordered bottom-up, with `rv` as the outcome of
/// the relative-URL step.
spec fn planned_to(
    text: Seq<u8>,
    links: Seq<CandidateView>,
    urls: Seq<Seq<u8>>,
    depth: int,
    absolute: bool,
    rv: Seq<ReplacementView>,
) -> bool {
    plan_spec(text, links, urls) matches Ok(p) && rel_all(sort_desc(p), depth, absolute) == Ok::<
        Seq<ReplacementView>,
        ErrorSpec,
    >(rv)
}

/// What rewriting one document yields: its plan, ordered bottom-up, each URL
/// made relative (or kept absolute), every span checked against the text and
/// against its neighbour, and the splices applied; or the first failure.
pub open spec fn doc_rewrite_spec(
    text: Seq<u8>,
    links: Seq<CandidateView>,
    urls: Seq<Seq<u8>>,
    depth: int,
    absolute: bool,
) -> Result<Seq<u8>, ErrorSpec> {
    match plan_spec(text, links, urls) {
        Err(e) => Err(e),
        Ok(p) => match rel_all(sort_desc(p), depth, absolute) {
            Err(e) => Err(e),
            Ok(rs) => match first_bad_span(rs, text.len() as int) {
                Some(k) => Err(ErrorSpec::BadSpan { start: rs[k].start, end: rs[k].end }),
                None => match first_overlap(rs) {
                    Some(k) => Err(
                        ErrorSpec::SpanOverlap { start: rs[k + 1].start, end: rs[k + 1].end },
                    ),
                    None => Ok(apply_bottom_up(text, rs)),
                },
            },
        },
    }
}

/// Rewrites one document's text: pairs its candidates with their resolved URL
/// lines, plans the replacements, orders them bottom-up, makes each URL
/// relative to the document's depth (or keeps it absolute), and splices them
/// in.  Fails on the first malformed pair; the text is returned fresh, the
/// original untouched.
pub fn rewrite_document(
    text: &Vec<u8>,
    links: &Vec<Candidate>,
    urls: &Vec<Vec<u8>>,
    depth: usize,
    absolute: bool,
) -> (r: Result<Vec<u8>, Error>)
    requires
        links@.len() == urls@.len(),
    ensures
        match r {
            Ok(v) => doc_rewrite_spec(
                text@,
                cand_views(links@),
                byte_views(urls@),
                depth as int,
                absolute,
            ) == Ok::<Seq<u8>, ErrorSpec>(v@),
            Err(e) => doc_rewrite_spec(
                text@,
                cand_views(links@),
                byte_views(urls@),
                depth as int,
                absolute,
            ) == Err::<Seq<u8>, ErrorSpec>(e@),
        },
{
    let sorted = match compute_replacements(text, links, urls) {
        Ok(s) => s,
        Err(e) => {
            return Err(e);
        },
    };
    let ghost sv = repl_views(sorted@);
    let mut rs: Vec<Replacement> = Vec::new();
    let mut i: usize = 0;
    proof {
        assert(sv.skip(0) =~= sv);
        match rel_all(sv, depth as int, absolute) {
            Ok(w) => {
                assert(repl_views(rs@) + w =~= w);
            },
            Err(_) => {},
        }
    }
    while i < sorted.len()
        invariant
            i <= sorted@.len(),
            sv == repl_views(sorted@),
            plan_spec(text@, cand_views(links@), byte_views(urls@)) matches Ok(p) && sort_desc(p)
                == sv,
            match rel_all(sv.skip(i as int), depth as int, absolute) {
                Err(e) => rel_all(sv, depth as int, absolute) == Err::<
                    Seq<ReplacementView>,
                    ErrorSpec,
                >(e),
                Ok(rest) => rel_all(sv, depth as int, absolute) matches Ok(w) && w == repl_views(
                    rs@,
                ) + rest,
            },
        decreases sorted@.len() - i,
    {
        let rep = &sorted[i];
        proof {
            assert(sv.skip(i as int)[0] == rep@);
            assert(sv.skip(i as int).drop_first() =~= sv.skip(i as int + 1));
        }
        match relative_url(&rep.url, depth, absolute) {
            Err(e) => {
                return Err(e);
            },
            Ok(u2) => {
                let r2 = Replacement {
                    display: copy_bytes(&rep.display),
                    url: u2,
                    start: rep.start,
                    end: rep.end,
                };
                proof {
                    match rel_all(sv.skip(i as int + 1), depth as int, absolute) {
                        Ok(rest) => {
                            assert(repl_views(rs@.push(r2)) =~= repl_views(rs@) + seq![r2@]);
                            assert(repl_views(rs@) + (seq![r2@] + rest) =~= (repl_views(rs@)
                                + seq![r2@]) + rest);
                        },
                        Err(_) => {},
                    }
                }
                rs.push(r2);
            },
        }
        i = i + 1;
    }
    let ghost rv = repl_views(rs@);
    proof {
        assert(sv.skip(sorted@.len() as int) =~= Seq::<ReplacementView>::empty());
        match rel_all(sv, depth as int, absolute) {
            Ok(w) => {
                assert(repl_views(rs@) + Seq::<ReplacementView>::empty() =~= repl_views(rs@));
            },
            Err(_) => {},
        }
    }
    let tlen = text.len();
    let mut k: usize = 0;
    while k < rs.len()
        invariant
            k <= rs@.len(),
            rv == repl_views(rs@),
            tlen == text@.len(),
            planned_to(
                text@,
                cand_views(links@),
                byte_views(urls@),
                depth as int,
                absolute,
                rv,
            ),
            forall|m: int| 0 <= m < k ==> 0 <= (#[trigger] rv[m]).start <= rv[m].end <= tlen,
        decreases rs@.len() - k,
    {
        let rep = &rs[k];
        if !(rep.start <= rep.end && rep.end <= tlen) {
            proof {
                lemma_first_bad_at(rv, tlen as int, k as int);
            }
            return Err(Error::BadSpan { start: rep.start, end: rep.end });
        }
        k = k + 1;
    }
    proof {
        lemma_first_bad_none(rv, tlen as int);
    }
    let mut k: usize = 1;
    while k < rs.len()
        invariant
            1 <= k <= rs@.len() || rs@.len() == 0,
            rv == repl_views(rs@),
            tlen == text@.len(),
            planned_to(
                text@,
                cand_views(links@),
                byte_views(urls@),
                depth as int,
                absolute,
                rv,
            ),
            first_bad_span(rv, text@.len() as int) is None,
            forall|m: int| 0 <= m < k - 1 ==> (#[trigger] rv[m]).start >= rv[m + 1].end,
        decreases rs@.len() - k,
    {
        if rs[k].end > rs[k - 1].start {
            proof {
                lemma_first_overlap_at(rv, k as int - 1);
            }
            return Err(Error::SpanOverlap { start: rs[k].start, end: rs[k].end });
        }
        k = k + 1;
    }
    proof {
        assert(forall|m: int| 0 <= m < rv.len() - 1 ==> (#[trigger] rv[m]).start >= rv[m + 1].end);
        lemma_first_overlap_none(rv);
        assert forall|m: int| 0 < m < rv.len() implies (#[trigger] rv[m]).end <= rv[m - 1].start by {
            assert(rv[m - 1].start >= rv[m - 1 + 1].end);
        }
        assert(wf_desc(rv, text@.len() as int));
    }
    let out = apply_replacements(text, &rs);
    Ok(out)
}

/// Total candidates across all documents, in traversal order.
pub open spec fn total_candidates(cands: Seq<Seq<CandidateView>>) -> int
    decreases cands.len(),
{
    if cands.len() == 0 {
        0
    } else {
        cands[0].len() + total_candidates(cands.drop_first())
    }
}

proof fn lemma_total_nonneg(cands: Seq<Seq<CandidateView>>)
    ensures
        total_candidates(cands) >= 0,
    decreases cands.len(),
{
    if cands.len() > 0 {
        lemma_total_nonneg(cands.drop_first());
    }
}

/// What the whole post-resolver stage yields once the counts agree: each
/// document rewritten with its contiguous run of the global URL list, in
/// traversal order; or the first document's failure.
pub open spec fn docs_rewrite_spec(
    docs: Seq<DocView>,
    cands: Seq<Seq<CandidateView>>,
    urls: Seq<Seq<u8>>,
    absolute: bool,
) -> Result<Seq<Seq<u8>>, ErrorSpec>
    decreases docs.len(),
{
    if docs.len() == 0 {
        Ok(Seq::empty())
    } else {
        let c = cands[0];
        match doc_rewrite_spec(
            docs[0].text,
            c,
            urls.take(c.len() as int),
            docs[0].depth,
            absolute,
        ) {
            Err(e) => Err(e),
            Ok(t) => match docs_rewrite_spec(
                docs.drop_first(),
                cands.drop_first(),
                urls.skip(c.len() as int),
                absolute,
            ) {
                Err(e) => Err(e),
                Ok(ts) => Ok(seq![t] + ts),
            },
        }
    }
}

/// Rewrites all documents from the resolver's generated text.  Count
/// invariant: if the number of extracted URLs differs from the number of
/// collected candidates, the run aborts here, before any document text is
/// produced, reporting both counts (the expected count saturates at
/// `usize::MAX`).  Otherwise each document gets its contiguous run of the URL
/// list, in the same traversal order used to collect, and its rewritten text
/// is returned; nothing is committed by this function.
pub fn rewrite_documents(
    docs: &Vec<DocSource>,
    candidates: &Vec<Vec<Candidate>>,
    html: &Vec<u8>,
    absolute: bool,
) -> (r: Result<Vec<Vec<u8>>, Error>)
    requires
        docs@.len() == candidates@.len(),
    ensures
        ({
            let cv = doc_cand_views(candidates@);
            let us = urls_of(html@);
            let total = total_candidates(cv);
            &&& (total != us.len() ==> (r matches Err(e) && e@ == ErrorSpec::CountMismatch {
                expected: if total > usize::MAX as int {
                    usize::MAX as int
                } else {
                    total
                },
                found: us.len() as int,
            }))
            &&& (total == us.len() ==> match r {
                Ok(v) => docs_rewrite_spec(doc_views(docs@), cv, us, absolute) == Ok::<
                    Seq<Seq<u8>>,
                    ErrorSpec,
                >(byte_views(v@)),
                Err(e) => docs_rewrite_spec(doc_views(docs@), cv, us, absolute) == Err::<
                    Seq<Seq<u8>>,
                    ErrorSpec,
                >(e@),
            })
        }),
{
    let urls = extract_urls(html);
    let ghost cv = doc_cand_views(candidates@);
    let ghost us = urls_of(html@);
    let mut total: usize = 0;
    let mut sat = false;
    let ghost mut tsum: int = 0;
    let mut d: usize = 0;
    proof {
        assert(cv.skip(0) =~= cv);
    }
    while d < candidates.len()
        invariant
            d <= candidates@.len(),
            cv == doc_cand_views(candidates@),
            total_candidates(cv) == tsum + total_candidates(cv.skip(d as int)),
            tsum >= 0,
            total as int == if tsum > usize::MAX as int {
                usize::MAX as int
            } else {
                tsum
            },
            sat <==> tsum > usize::MAX as int,
        decreases candidates@.len() - d,
    {
        let c = candidates[d].len();
        proof {
            assert(cv.skip(d as int)[0] == cand_views(candidates@[d as int]@));
            assert(cv.skip(d as int).drop_first() =~= cv.skip(d as int + 1));
            lemma_total_nonneg(cv.skip(d as int + 1));
        }
        if c > usize::MAX - total {
            total = usize::MAX;
            sat = true;
        } else {
            total = total + c;
        }
        proof {
            tsum = tsum + c as int;
        }
        d = d + 1;
    }
    proof {
        assert(cv.skip(candidates@.len() as int) =~= Seq::<Seq<CandidateView>>::empty());
        assert(total_candidates(cv) == tsum);
    }
    let found = urls.len();
    proof {
        assert(byte_views(urls@) == us);
        assert(us.len() == urls@.len());
    }
    if sat || total != found {
        return Err(Error::CountMismatch { expected: total, found });
    }
    let mut out: Vec<Vec<u8>> = Vec::new();
    let mut pos: usize = 0;
    let mut d: usize = 0;
    let ulen = urls.len();
    proof {
        assert(cv.skip(0) =~= cv);
        assert(us.skip(0) =~= us);
        assert(doc_views(docs@).skip(0) =~= doc_views(docs@));
        match docs_rewrite_spec(doc_views(docs@), cv, us, absolute) {
            Ok(w) => {
                assert(byte_views(out@) + w =~= w);
            },
            Err(_) => {},
        }
    }
    while d < docs.len()
        invariant
            d <= docs@.len() == candidates@.len(),
            cv == doc_cand_views(candidates@),
            us == urls_of(html@),
            byte_views(urls@) == us,
            total_candidates(cv) == us.len(),
            ulen == urls@.len(),
            pos <= urls@.len(),
            total_candidates(cv.skip(d as int)) == urls@.len() - pos,
            match docs_rewrite_spec(
                doc_views(docs@).skip(d as int),
                cv.skip(d as int),
                us.skip(pos as int),
                absolute,
            ) {
                Err(e) => docs_rewrite_spec(doc_views(docs@), cv, us, absolute) == Err::<
                    Seq<Seq<u8>>,
                    ErrorSpec,
                >(e),
                Ok(rest) => docs_rewrite_spec(doc_views(docs@), cv, us, absolute) matches Ok(w)
                    && w == byte_views(out@) + rest,
            },
        decreases docs@.len() - d,
    {
        let cnt = candidates[d].len();
        proof {
            assert(cv.skip(d as int)[0] == cand_views(candidates@[d as int]@));
            assert(cv.skip(d as int).drop_first() =~= cv.skip(d as int + 1));
            assert(doc_views(docs@).skip(d as int)[0] == docs@[d as int]@);
            assert(doc_views(docs@).skip(d as int).drop_first() =~= doc_views(docs@).skip(
                d as int + 1,
            ));
            lemma_total_nonneg(cv.skip(d as int + 1));
            assert(cv.skip(d as int)[0].len() == cnt);
            assert(pos + cnt <= ulen);
        }
        let run = crate::split::copy_run(&urls, pos, pos + cnt);
        let doc = &docs[d];
        proof {
            assert(byte_views(run@) =~= us.skip(pos as int).take(cnt as int));
        }
        match rewrite_document(&doc.text, &candidates[d], &run, doc.depth, absolute) {
            Err(e) => {
                return Err(e);
            },
            Ok(t) => {
                proof {
                    assert(us.skip(pos as int).skip(cnt as int) =~= us.skip(pos as int
                        + cnt as int));
                    match docs_rewrite_spec(
                        doc_views(docs@).skip(d as int + 1),
                        cv.skip(d as int + 1),
                        us.skip(pos as int + cnt as int),
                        absolute,
                    ) {
                        Ok(rest) => {
                            assert(byte_views(out@.push(t)) =~= byte_views(out@) + seq![t@]);
                            assert(byte_views(out@) + (seq![t@] + rest) =~= (byte_views(out@)
                                + seq![t@]) + rest);
                        },
                        Err(_) => {},
                    }
                }
                out.push(t);
            },
        }
        pos = pos + cnt;
        d = d + 1;
    }
    proof {
        assert(doc_views(docs@).skip(d as int) =~= Seq::<DocView>::empty());
        match docs_rewrite_spec(doc_views(docs@), cv, us, absolute) {
            Ok(w) => {
                assert(byte_views(out@) + Seq::<Seq<u8>>::empty() =~= byte_views(out@));
            },
            Err(_) => {},
        }
    }
    Ok(out)
}

} // verus!
