//! The replacement planner: pairs each candidate with its resolved URL,
//! extracts the anchor destination and the bracketed display text, and orders
//! the plan by descending span start.

use vstd::prelude::*;
use vstd::string::StrSliceExecFns;
use vstd::string::StringSliceAdditionalSpecFns;

use crate::bytes::{
    find_byte, first_byte_from, lemma_first_byte_props, lemma_last_byte_props, match_at,
    matches_at, rfind_byte, subvec,
};
use crate::link::{
    byte_views, cand_views, repl_views, Candidate, CandidateView, Error, ErrorSpec, LinkKind,
    Replacement, ReplacementView,
};

verus! {

/// The bracketed display text of a link slice `s` ends at `q` for the given
/// shape: a closing bracket there, followed by what the shape demands of the
/// rest (a parenthesized destination, a bracketed reference, or nothing).
pub open spec fn display_cond(s: Seq<u8>, kind: LinkKind, q: int) -> bool {
    &&& 2 <= q < s.len()
    &&& s[q] == 93u8
    &&& match kind {
        LinkKind::Shortcut => true,
        LinkKind::Inline => q + 1 < s.len() && s[q + 1] == 40u8 && (exists|r: int|
            q + 3 <= r < s.len() && s[r] == 41u8),
        LinkKind::Reference | LinkKind::Collapsed => q + 1 < s.len() && s[q + 1] == 91u8 && (
        exists|r: int| q + 2 <= r < s.len() && s[r] == 93u8),
    }
}

/// Greatest position at or below `from` where the display text can end.
pub open spec fn display_q(s: Seq<u8>, kind: LinkKind, from: int) -> Option<int>
    decreases from + 1,
{
    if from < 0 {
        None
    } else if display_cond(s, kind, from) {
        Some(from)
    } else {
        display_q(s, kind, from - 1)
    }
}

/// The bracketed display text of a link slice: from its opening bracket to
/// the greatest closing bracket the shape allows; `None` when the slice does
/// not have the shape's pattern.
pub open spec fn display_of(s: Seq<u8>, kind: LinkKind) -> Option<Seq<u8>> {
    if s.len() > 0 && s[0] == 91u8 {
        match display_q(s, kind, s.len() - 1) {
            Some(q) => Some(s.take(q + 1)),
            None => None,
        }
    } else {
        None
    }
}

/// For an anchor opening at `i` in `u`, where its destination attribute ends:
/// the first attribute-quote after the opening, provided the destination is
/// not empty.
pub open spec fn href_end(u: Seq<u8>, i: int) -> Option<int> {
    let m = "<a href=\"".spec_bytes();
    match first_byte_from(u, 34u8, i + m.len()) {
        Some(j) => if j > i + m.len() {
            Some(j)
        } else {
            None
        },
        None => None,
    }
}

/// The first anchor destination in `u` at or after `from`, as the content
/// span between the opening marker and its closing quote.
pub open spec fn anchor_at(u: Seq<u8>, from: int) -> Option<(int, int)>
    decreases u.len() - from + 1,
{
    let m = "<a href=\"".spec_bytes();
    if from < 0 || from + m.len() > u.len() {
        None
    } else if matches_at(u, m, from) {
        match href_end(u, from) {
            Some(j) => Some((from + m.len(), j)),
            None => anchor_at(u, from + 1),
        }
    } else {
        anchor_at(u, from + 1)
    }
}

/// What planning yields on paired URLs and candidates: for each pair in
/// order, the anchor destination of the URL line and the display text at the
/// candidate's span, or the first pair's failure.
pub open spec fn plan_spec(
    text: Seq<u8>,
    links: Seq<CandidateView>,
    urls: Seq<Seq<u8>>,
) -> Result<Seq<ReplacementView>, ErrorSpec>
    decreases links.len(),
{
    if links.len() == 0 {
        Ok(Seq::empty())
    } else {
        let l = links[0];
        let u = urls[0];
        match anchor_at(u, 0) {
            None => Err(ErrorSpec::MissingAnchor { url: u }),
            Some((a, b)) => if !(0 <= l.start <= l.end <= text.len()) {
                Err(ErrorSpec::BadSpan { start: l.start, end: l.end })
            } else {
                let slice = text.subrange(l.start, l.end);
                match display_of(slice, l.kind) {
                    None => Err(ErrorSpec::DisplayMismatch { text: slice, kind: l.kind }),
                    Some(d) => match plan_spec(text, links.drop_first(), urls.drop_first()) {
                        Err(e) => Err(e),
                        Ok(rest) => Ok(
                            seq![
                                ReplacementView {
                                    display: d,
                                    url: u.subrange(a, b),
                                    start: l.start,
                                    end: l.end,
                                },
                            ] + rest,
                        ),
                    },
                }
            },
        }
    }
}

/// Insertion into a list ordered by descending span start.
pub open spec fn insert_desc(x: ReplacementView, s: Seq<ReplacementView>) -> Seq<ReplacementView>
    decreases s.len(),
{
    if s.len() == 0 {
        seq![x]
    } else if x.start >= s[0].start {
        seq![x] + s
    } else {
        seq![s[0]] + insert_desc(x, s.drop_first())
    }
}

/// The plan ordered by descending span start.
pub open spec fn sort_desc(s: Seq<ReplacementView>) -> Seq<ReplacementView>
    decreases s.len(),
{
    if s.len() == 0 {
        s
    } else {
        insert_desc(s[0], sort_desc(s.drop_first()))
    }
}

/// Display-text preservation: every replacement of an accepted plan keeps,
/// byte for byte, the bracketed display-text portion of the original text at
/// its candidate's span, whatever the link's shape, and keeps the candidate's
/// span; the rewriter then emits that display text verbatim at the front of
/// each rewritten link.
pub proof fn lemma_display_preserved(text: Seq<u8>, links: Seq<CandidateView>, urls: Seq<Seq<u8>>)
    ensures
        plan_spec(text, links, urls) matches Ok(p) ==> p.len() == links.len() && forall|i: int|
            0 <= i < links.len() ==> {
                &&& (#[trigger] p[i]).start == links[i].start
                &&& p[i].end == links[i].end
                &&& Some(p[i].display) == display_of(
                    text.subrange(links[i].start, links[i].end),
                    links[i].kind,
                )
            },
    decreases links.len(),
{
    if links.len() > 0 {
        lemma_display_preserved(text, links.drop_first(), urls.drop_first());
        match plan_spec(text, links, urls) {
            Ok(p) => {
                match plan_spec(text, links.drop_first(), urls.drop_first()) {
                    Ok(rest) => {
                        assert forall|i: int| 0 <= i < links.len() implies {
                            &&& (#[trigger] p[i]).start == links[i].start
                            &&& p[i].end == links[i].end
                            &&& Some(p[i].display) == display_of(
                                text.subrange(links[i].start, links[i].end),
                                links[i].kind,
                            )
                        } by {
                            if i > 0 {
                                assert(p[i] == rest[i - 1]);
                                assert(links.drop_first()[i - 1] == links[i]);
                            }
                        }
                    },
                    Err(_) => {},
                }
            },
            Err(_) => {},
        }
    }
}

/// Finds the display text of one link slice for the given shape.
fn find_display(s: &Vec<u8>, kind: LinkKind) -> (r: Option<Vec<u8>>)
    ensures
        match r {
            Some(d) => display_of(s@, kind) == Some(d@),
            None => display_of(s@, kind) is None,
        },
{
    let slen = s.len();
    if slen == 0 || s[0] != 91u8 {
        return None;
    }
    let rp = rfind_byte(s, 41u8);
    let rb = rfind_byte(s, 93u8);
    proof {
        lemma_last_byte_props(s@, 41u8, 0);
        lemma_last_byte_props(s@, 93u8, 0);
    }
    let mut q: usize = slen - 1;
    loop
        invariant
            q < s@.len() == slen,
            s@[0] == 91u8,
            match rp {
                Some(j) => j < s@.len() && s@[j as int] == 41u8 && forall|r: int|
                    j < r < s@.len() ==> s@[r] != 41u8,
                None => forall|r: int| 0 <= r < s@.len() ==> s@[r] != 41u8,
            },
            match rb {
                Some(j) => j < s@.len() && s@[j as int] == 93u8 && forall|r: int|
                    j < r < s@.len() ==> s@[r] != 93u8,
                None => forall|r: int| 0 <= r < s@.len() ==> s@[r] != 93u8,
            },
            display_q(s@, kind, s@.len() - 1) == display_q(s@, kind, q as int),
        decreases q,
    {
        let cond: bool = if q >= 2 && s[q] == 93u8 {
            match kind {
                LinkKind::Shortcut => true,
                LinkKind::Inline => q < slen - 1 && s[q + 1] == 40u8 && (match rp {
                    Some(j) => j >= 3 && j - 3 >= q,
                    None => false,
                }),
                LinkKind::Reference | LinkKind::Collapsed => q < slen - 1 && s[q + 1] == 91u8
                    && (match rb {
                    Some(j) => j >= 2 && j - 2 >= q,
                    None => false,
                }),
            }
        } else {
            false
        };
        proof {
            assert(cond == display_cond(s@, kind, q as int));
        }
        if cond {
            return Some(subvec(s, 0, q + 1));
        }
        if q == 0 {
            proof {
                assert(display_q(s@, kind, 0) == display_q(s@, kind, -1));
                assert(display_q(s@, kind, -1) is None);
            }
            return None;
        }
        q = q - 1;
    }
}

/// Finds the first anchor destination span in one URL line.
fn find_anchor(u: &Vec<u8>) -> (r: Option<(usize, usize)>)
    ensures
        match r {
            Some((a, b)) => anchor_at(u@, 0) == Some((a as int, b as int)) && a <= b <= u@.len(),
            None => anchor_at(u@, 0) is None,
        },
{
    let m = "<a href=\"".as_bytes_vec();
    proof {
        reveal_strlit("<a href=\"");
        assert(vstd::utf8::is_ascii_chars("<a href=\""@));
        crate::bytes::lemma_ascii_bytes("<a href=\"");
        assert(m@.len() == 9);
    }
    let ulen = u.len();
    let mut i: usize = 0;
    loop
        invariant
            m@ == "<a href=\"".spec_bytes(),
            m@.len() == 9,
            u@.len() == ulen,
            anchor_at(u@, 0) == anchor_at(u@, i as int),
        decreases u@.len() + 1 - i,
    {
        if m.len() > ulen || i > ulen - m.len() {
            return None;
        }
        if match_at(u, &m, i) {
            match find_byte(u, 34u8, i + m.len()) {
                Some(j) => {
                    proof {
                        lemma_first_byte_props(u@, 34u8, i + m@.len());
                    }
                    if j > i + m.len() {
                        return Some((i + m.len(), j));
                    }
                },
                None => {},
            }
        }
        i = i + 1;
    }
}

/// Where the descending-start scan stops for `x` in `sorted`.
fn find_insert_pos(x: &Replacement, sorted: &Vec<Replacement>) -> (j: usize)
    ensures
        j <= sorted@.len(),
        forall|k: int| 0 <= k < j ==> x@.start < (#[trigger] sorted@[k])@.start,
        j < sorted@.len() ==> x@.start >= sorted@[j as int]@.start,
{
    let mut j: usize = 0;
    loop
        invariant
            j <= sorted@.len(),
            forall|k: int| 0 <= k < j ==> x@.start < (#[trigger] sorted@[k])@.start,
        decreases sorted@.len() - j,
    {
        if j == sorted.len() {
            return j;
        }
        if x.start >= sorted[j].start {
            return j;
        }
        j = j + 1;
    }
}

/// Insertion-sorts one replacement into a vector ordered by descending span
/// start.
fn insert_sorted(x: Replacement, sorted: &mut Vec<Replacement>)
    ensures
        repl_views(final(sorted)@) == insert_desc(x@, repl_views(old(sorted)@)),
{
    let j = find_insert_pos(&x, sorted);
    proof {
        let rv = repl_views(sorted@);
        assert(forall|k: int| 0 <= k < j ==> x@.start < rv[k].start);
        assert(j < sorted@.len() ==> x@.start >= rv[j as int].start);
        lemma_insert_desc_at(x@, rv, j as int);
        assert(repl_views(sorted@.insert(j as int, x)) =~= rv.take(j as int) + seq![x@] + rv.skip(
            j as int,
        ));
    }
    sorted.insert(j, x);
}

/// `insert_desc` places its element right where the scan stops: after every
/// greater start, before the rest.
proof fn lemma_insert_desc_at(x: ReplacementView, s: Seq<ReplacementView>, j: int)
    requires
        0 <= j <= s.len(),
        forall|k: int| 0 <= k < j ==> x.start < s[k].start,
        j < s.len() ==> x.start >= s[j].start,
    ensures
        insert_desc(x, s) == s.take(j) + seq![x] + s.skip(j),
    decreases j,
{
    if j == 0 {
        if s.len() == 0 {
            assert(s.take(0) + seq![x] + s.skip(0) =~= seq![x]);
        } else {
            assert(s.take(0) + seq![x] + s.skip(0) =~= seq![x] + s);
        }
    } else {
        lemma_insert_desc_at(x, s.drop_first(), j - 1);
        assert(s.drop_first().take(j - 1) =~= s.take(j).drop_first());
        assert(s.drop_first().skip(j - 1) =~= s.skip(j));
        assert(insert_desc(x, s) == seq![s[0]] + insert_desc(x, s.drop_first()));
        assert(seq![s[0]] + (s.drop_first().take(j - 1) + seq![x] + s.drop_first().skip(j - 1))
            =~= s.take(j) + seq![x] + s.skip(j));
    }
}

/// Computes one document's replacement plan from its candidates and their
/// resolved URL lines, ordered by descending span start: each replacement
/// keeps the candidate's display text and span and carries the URL line's
/// anchor destination.
pub fn compute_replacements(
    contents: &Vec<u8>,
    links: &Vec<Candidate>,
    urls: &Vec<Vec<u8>>,
) -> (r: Result<Vec<Replacement>, Error>)
    requires
        links@.len() == urls@.len(),
    ensures
        match r {
            Ok(v) => plan_spec(contents@, cand_views(links@), byte_views(urls@)) matches Ok(p)
                && repl_views(v@) == sort_desc(p),
            Err(e) => plan_spec(contents@, cand_views(links@), byte_views(urls@)) == Err::<
                Seq<ReplacementView>,
                ErrorSpec,
            >(e@),
        },
{
    let ghost lv = cand_views(links@);
    let ghost uv = byte_views(urls@);
    let mut plan: Vec<Replacement> = Vec::new();
    let mut i: usize = 0;
    let clen = contents.len();
    proof {
        assert(lv.skip(0) =~= lv);
        assert(uv.skip(0) =~= uv);
        match plan_spec(contents@, lv, uv) {
            Ok(p) => {
                assert(repl_views(plan@) + p =~= p);
            },
            Err(_) => {},
        }
    }
    while i < links.len()
        invariant
            i <= links@.len() == urls@.len(),
            lv == cand_views(links@),
            uv == byte_views(urls@),
            clen == contents@.len(),
            match plan_spec(contents@, lv.skip(i as int), uv.skip(i as int)) {
                Err(e) => plan_spec(contents@, lv, uv) == Err::<Seq<ReplacementView>, ErrorSpec>(
                    e,
                ),
                Ok(rest) => plan_spec(contents@, lv, uv) matches Ok(p) && p == repl_views(plan@)
                    + rest,
            },
        decreases links@.len() - i,
    {
        let l = &links[i];
        let u = &urls[i];
        proof {
            assert(lv.skip(i as int)[0] == l@);
            assert(uv.skip(i as int)[0] == u@);
            assert(lv.skip(i as int).drop_first() =~= lv.skip(i as int + 1));
            assert(uv.skip(i as int).drop_first() =~= uv.skip(i as int + 1));
        }
        match find_anchor(u) {
            None => {
                return Err(Error::MissingAnchor { url: crate::bytes::copy_bytes(u) });
            },
            Some((a, b)) => {
                if !(l.start <= l.end && l.end <= clen) {
                    return Err(Error::BadSpan { start: l.start, end: l.end });
                }
                let slice = subvec(contents, l.start, l.end);
                match find_display(&slice, l.kind) {
                    None => {
                        return Err(Error::DisplayMismatch { text: slice, kind: l.kind });
                    },
                    Some(d) => {
                        let rep = Replacement {
                            display: d,
                            url: subvec(u, a, b),
                            start: l.start,
                            end: l.end,
                        };
                        proof {
                            match plan_spec(contents@, lv.skip(i as int + 1), uv.skip(i as int + 1)) {
                                Ok(rest) => {
                                    assert(repl_views(plan@.push(rep)) =~= repl_views(plan@)
                                        + seq![rep@]);
                                    assert(repl_views(plan@) + (seq![rep@] + rest) =~= (repl_views(
                                        plan@,
                                    ) + seq![rep@]) + rest);
                                },
                                Err(_) => {},
                            }
                        }
                        plan.push(rep);
                    },
                }
            },
        }
        i = i + 1;
    }
    proof {
        assert(lv.skip(i as int) =~= Seq::<CandidateView>::empty());
        assert(plan_spec(contents@, lv.skip(i as int), uv.skip(i as int)) == Ok::<
            Seq<ReplacementView>,
            ErrorSpec,
        >(Seq::empty()));
        match plan_spec(contents@, lv, uv) {
            Ok(p) => {
                assert(repl_views(plan@) + Seq::<ReplacementView>::empty() =~= repl_views(plan@));
            },
            Err(_) => {},
        }
    }
    let ghost whole = repl_views(plan@);
    let mut sorted: Vec<Replacement> = Vec::new();
    proof {
        assert(whole.skip(whole.len() as int) =~= Seq::<ReplacementView>::empty());
        assert(whole.take(whole.len() as int) =~= whole);
    }
    loop
        invariant
            plan_spec(contents@, cand_views(links@), byte_views(urls@)) == Ok::<
                Seq<ReplacementView>,
                ErrorSpec,
            >(whole),
            repl_views(plan@) == whole.take(plan@.len() as int),
            plan@.len() <= whole.len(),
            sort_desc(whole.skip(plan@.len() as int)) == repl_views(sorted@),
        decreases plan@.len(),
    {
        let ghost n = plan@.len() as int;
        let ghost plan_before = plan@;
        match plan.pop() {
            None => {
                proof {
                    assert(whole.skip(0) =~= whole);
                }
                return Ok(sorted);
            },
            Some(x) => {
                proof {
                    assert(x@ == plan_before[n - 1]@);
                    assert(repl_views(plan_before)[n - 1] == plan_before[n - 1]@);
                    assert(whole.take(n)[n - 1] == whole[n - 1]);
                    assert(x@ == whole[n - 1]);
                    assert(whole.skip(n - 1)[0] == whole[n - 1]);
                    assert(whole.skip(n - 1).drop_first() =~= whole.skip(n));
                    assert(repl_views(plan@) =~= whole.take(n - 1));
                }
                insert_sorted(x, &mut sorted);
            },
        }
    }
}

} // verus!
