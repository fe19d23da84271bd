//! The rewriter: splices a document's replacement plan into its text buffer,
//! bottom-up, so that earlier splices never invalidate the byte offsets of
//! the replacements still to apply.

use vstd::prelude::*;

use crate::bytes::{copy_bytes, extend_from, subvec};
use crate::link::{repl_views, Replacement, ReplacementView};

verus! {

/// The inline link a replacement produces: the original display text followed
/// by the parenthesized destination.
pub open spec fn rendered(r: ReplacementView) -> Seq<u8> {
    r.display + seq![40u8] + r.url + seq![41u8]
}

/// One splice: the text with the replacement's span replaced by its rendered
/// link.
pub open spec fn splice_one(text: Seq<u8>, r: ReplacementView) -> Seq<u8> {
    text.take(r.start) + rendered(r) + text.skip(r.end)
}

/// Sequential bottom-up application: each replacement spliced in turn, in the
/// order given.
pub open spec fn apply_bottom_up(text: Seq<u8>, rs: Seq<ReplacementView>) -> Seq<u8>
    decreases rs.len(),
{
    if rs.len() == 0 {
        text
    } else {
        apply_bottom_up(splice_one(text, rs[0]), rs.drop_first())
    }
}

/// Simultaneous recombination: for replacements in ascending span order, the
/// untouched pieces of the original text interleaved with each replacement's
/// rendered link, every span addressed in the original text's coordinates.
pub open spec fn splice_ranges(text: Seq<u8>, asc: Seq<ReplacementView>) -> Seq<u8>
    decreases asc.len(),
{
    if asc.len() == 0 {
        text
    } else {
        let r = asc.last();
        splice_ranges(text.take(r.start), asc.drop_last()) + rendered(r) + text.skip(r.end)
    }
}

/// Replacements in descending span-start order, pairwise non-overlapping, the
/// largest span within `len`.
pub open spec fn wf_desc(rs: Seq<ReplacementView>, len: int) -> bool {
    &&& forall|k: int| 0 <= k < rs.len() ==> 0 <= (#[trigger] rs[k]).start <= rs[k].end
    &&& (rs.len() > 0 ==> rs[0].end <= len)
    &&& forall|k: int| 0 < k < rs.len() ==> (#[trigger] rs[k]).end <= rs[k - 1].start
}

/// Splicing past the end of `a` leaves an appended tail `b` untouched.
proof fn lemma_bottom_up_frame(a: Seq<u8>, b: Seq<u8>, rs: Seq<ReplacementView>)
    requires
        wf_desc(rs, a.len() as int),
    ensures
        apply_bottom_up(a + b, rs) == apply_bottom_up(a, rs) + b,
    decreases rs.len(),
{
    if rs.len() == 0 {
    } else {
        let r = rs[0];
        let rest = rs.drop_first();
        assert((a + b).take(r.start) =~= a.take(r.start));
        assert((a + b).skip(r.end) =~= a.skip(r.end) + b);
        assert(splice_one(a + b, r) =~= splice_one(a, r) + b);
        let a2 = splice_one(a, r);
        assert(a2.len() == r.start + rendered(r).len() + (a.len() - r.end));
        assert forall|k: int| 0 <= k < rest.len() implies 0 <= (#[trigger] rest[k]).start
            <= rest[k].end by {
            assert(rest[k] == rs[k + 1]);
        }
        assert forall|k: int| 0 < k < rest.len() implies (#[trigger] rest[k]).end <= rest[k
            - 1].start by {
            assert(rest[k] == rs[k + 1]);
            assert(rest[k - 1] == rs[k]);
        }
        if rest.len() > 0 {
            assert(rest[0] == rs[1]);
            assert(rest[0].end <= r.start <= a2.len());
        }
        lemma_bottom_up_frame(a2, b, rest);
        assert(apply_bottom_up(a + b, rs) == apply_bottom_up(splice_one(a, r) + b, rest));
    }
}

/// Bottom-up safety: applying non-overlapping replacements one at a time, in
/// descending span-start order, gives the same text as recombining the
/// untouched pieces of the original with each rendered link at its own
/// original range.
pub proof fn lemma_bottom_up_recombines(text: Seq<u8>, rs: Seq<ReplacementView>)
    requires
        wf_desc(rs, text.len() as int),
    ensures
        apply_bottom_up(text, rs) == splice_ranges(text, rs.reverse()),
    decreases rs.len(),
{
    if rs.len() == 0 {
        assert(rs.reverse() =~= rs);
    } else {
        let r = rs[0];
        let rest = rs.drop_first();
        let a = text.take(r.start);
        let b = rendered(r) + text.skip(r.end);
        assert forall|k: int| 0 <= k < rest.len() implies 0 <= (#[trigger] rest[k]).start
            <= rest[k].end by {
            assert(rest[k] == rs[k + 1]);
        }
        assert forall|k: int| 0 < k < rest.len() implies (#[trigger] rest[k]).end <= rest[k
            - 1].start by {
            assert(rest[k] == rs[k + 1]);
            assert(rest[k - 1] == rs[k]);
        }
        if rest.len() > 0 {
            assert(rest[0] == rs[1]);
        }
        assert(a.len() == r.start);
        assert(wf_desc(rest, a.len() as int));
        assert(splice_one(text, r) =~= a + b);
        lemma_bottom_up_frame(a, b, rest);
        lemma_bottom_up_recombines(a, rest);
        let rev = rs.reverse();
        assert(rev.last() == rs[0]);
        assert(rev.drop_last() =~= rest.reverse());
        assert(apply_bottom_up(text, rs) == apply_bottom_up(a + b, rest));
        assert(apply_bottom_up(text, rs) == splice_ranges(a, rest.reverse()) + b);
        assert(splice_ranges(text, rev) == splice_ranges(a, rest.reverse()) + rendered(r)
            + text.skip(r.end));
        assert(splice_ranges(a, rest.reverse()) + (rendered(r) + text.skip(r.end)) =~= (
        splice_ranges(a, rest.reverse()) + rendered(r)) + text.skip(r.end));
    }
}

/// Applies a well-formed replacement plan to one text buffer, bottom-up.
pub fn apply_replacements(text: &Vec<u8>, rs: &Vec<Replacement>) -> (out: Vec<u8>)
    requires
        wf_desc(repl_views(rs@), text@.len() as int),
    ensures
        out@ == apply_bottom_up(text@, repl_views(rs@)),
{
    let ghost rv = repl_views(rs@);
    let mut cur = copy_bytes(text);
    let mut k: usize = 0;
    proof {
        assert(rv.skip(0) =~= rv);
    }
    while k < rs.len()
        invariant
            k <= rs@.len(),
            rv == repl_views(rs@),
            apply_bottom_up(text@, rv) == apply_bottom_up(cur@, rv.skip(k as int)),
            wf_desc(rv.skip(k as int), cur@.len() as int),
        decreases rs@.len() - k,
    {
        let r = &rs[k];
        let ghost s = rv.skip(k as int);
        proof {
            assert(s[0] == rv[k as int]);
            assert(rv[k as int] == r@);
            assert(s.drop_first() =~= rv.skip(k as int + 1));
        }
        let clen = cur.len();
        let mut nw = subvec(&cur, 0, r.start);
        extend_from(&mut nw, &r.display);
        nw.push(40u8);
        extend_from(&mut nw, &r.url);
        nw.push(41u8);
        let tail = subvec(&cur, r.end, clen);
        extend_from(&mut nw, &tail);
        proof {
            assert(nw@ =~= splice_one(cur@, r@));
            let s2 = rv.skip(k as int + 1);
            assert forall|m: int| 0 <= m < s2.len() implies 0 <= (#[trigger] s2[m]).start
                <= s2[m].end by {
                assert(s2[m] == s[m + 1]);
            }
            assert forall|m: int| 0 < m < s2.len() implies (#[trigger] s2[m]).end <= s2[m
                - 1].start by {
                assert(s2[m] == s[m + 1]);
                assert(s2[m - 1] == s[m]);
            }
            if s2.len() > 0 {
                assert(s2[0] == s[1]);
                assert(s2[0].end <= r@.start);
            }
            assert(nw@.len() == r@.start + rendered(r@).len() + (cur@.len() - r@.end));
        }
        cur = nw;
        k = k + 1;
    }
    proof {
        assert(rv.skip(rs@.len() as int) =~= Seq::<ReplacementView>::empty());
    }
    cur
}

} // verus!
