//! The URL extractor: scans the resolver's generated HTML line by line for
//! the marker lines of the stub and takes each one's content.

use vstd::prelude::*;
use vstd::string::StrSliceExecFns;
use vstd::string::StringSliceAdditionalSpecFns;

use crate::bytes::{
    find_byte, find_first, find_last, first_byte_from, first_match_from, last_match_from,
    lemma_first_byte_props, lemma_first_match_props, lemma_last_match_props, subvec,
};
use crate::link::byte_views;

verus! {

/// The text split at line-break bytes; a trailing line break opens no empty
/// final line.
pub open spec fn lines_of(s: Seq<u8>) -> Seq<Seq<u8>>
    decreases s.len(),
{
    if s.len() == 0 {
        Seq::empty()
    } else if s[0] == 10u8 {
        seq![Seq::<u8>::empty()] + lines_of(s.drop_first())
    } else {
        let rest = lines_of(s.drop_first());
        if rest.len() == 0 {
            seq![s]
        } else {
            seq![seq![s[0]] + rest[0]] + rest.drop_first()
        }
    }
}

/// What one line contributes: the text between the first marker-list opening
/// and the last list closing after it, if the line has both.
pub open spec fn line_url(line: Seq<u8>) -> Option<Seq<u8>> {
    let open = "<li>LINK: ".spec_bytes();
    let close = "</li>".spec_bytes();
    match first_match_from(line, open, 0) {
        None => None,
        Some(i) => match last_match_from(line, close, 0) {
            None => None,
            Some(j) => if j >= i + open.len() {
                Some(line.subrange(i + open.len(), j))
            } else {
                None
            },
        },
    }
}

/// The marker-line contents of the given lines, in order.
pub open spec fn urls_of_lines(ls: Seq<Seq<u8>>) -> Seq<Seq<u8>>
    decreases ls.len(),
{
    if ls.len() == 0 {
        Seq::empty()
    } else {
        match line_url(ls[0]) {
            None => urls_of_lines(ls.drop_first()),
            Some(u) => seq![u] + urls_of_lines(ls.drop_first()),
        }
    }
}

/// The ordered URL lines of the resolver's generated text.
pub open spec fn urls_of(html: Seq<u8>) -> Seq<Seq<u8>> {
    urls_of_lines(lines_of(html))
}

/// If no line break occurs before position `k`, the first line of `s` is
/// everything up to `k` (a break there) or all of `s` (`k` at the end).
proof fn lemma_lines_chunk(s: Seq<u8>, k: int)
    requires
        0 <= k <= s.len(),
        forall|j: int| 0 <= j < k ==> s[j] != 10u8,
    ensures
        k < s.len() && s[k] == 10u8 ==> lines_of(s) == seq![s.take(k)] + lines_of(
            s.skip(k + 1),
        ),
        k == s.len() && s.len() > 0 ==> lines_of(s) == seq![s],
    decreases k,
{
    if k == 0 {
        if 0 < s.len() && s[0] == 10u8 {
            assert(s.take(0) =~= Seq::<u8>::empty());
            assert(s.drop_first() =~= s.skip(1));
            assert(seq![s.take(0)] =~= seq![Seq::<u8>::empty()]);
        }
    } else {
        let d = s.drop_first();
        assert(forall|j: int| 0 <= j < k - 1 ==> d[j] != 10u8);
        lemma_lines_chunk(d, k - 1);
        let rest = lines_of(d);
        if k < s.len() && s[k] == 10u8 {
            assert(d[k - 1] == 10u8);
            assert(rest == seq![d.take(k - 1)] + lines_of(d.skip(k)));
            assert(rest.len() > 0);
            assert(rest[0] == d.take(k - 1));
            assert(seq![s[0]] + d.take(k - 1) =~= s.take(k));
            assert(rest.drop_first() =~= lines_of(d.skip(k)));
            assert(d.skip(k) =~= s.skip(k + 1));
            assert(lines_of(s) == seq![seq![s[0]] + rest[0]] + rest.drop_first());
            assert(seq![seq![s[0]] + rest[0]] =~= seq![s.take(k)]);
        } else if k == s.len() {
            if d.len() == 0 {
                assert(rest.len() == 0);
                assert(lines_of(s) == seq![s]);
            } else {
                assert(rest == seq![d]);
                assert(rest[0] == d);
                assert(rest.drop_first() =~= Seq::<Seq<u8>>::empty());
                assert(seq![s[0]] + d =~= s);
                assert(lines_of(s) == seq![seq![s[0]] + rest[0]] + rest.drop_first());
                assert(seq![seq![s[0]] + rest[0]] + rest.drop_first() =~= seq![s]);
            }
        }
    }
}

/// The runtime test of `line_url` on one line.
fn line_url_of(line: &Vec<u8>, open: &Vec<u8>, close: &Vec<u8>) -> (r: Option<Vec<u8>>)
    requires
        open@ == "<li>LINK: ".spec_bytes(),
        close@ == "</li>".spec_bytes(),
    ensures
        match r {
            Some(u) => line_url(line@) == Some(u@),
            None => line_url(line@) is None,
        },
{
    match find_first(line, open, 0) {
        None => None,
        Some(i) => match find_last(line, close) {
            None => None,
            Some(j) => {
                let llen = line.len();
                proof {
                    lemma_first_match_props(line@, open@, 0);
                    lemma_last_match_props(line@, close@, 0);
                    assert(i + open@.len() <= llen);
                }
                if j >= i + open.len() {
                    Some(subvec(line, i + open.len(), j))
                } else {
                    None
                }
            },
        },
    }
}

/// Extracts, in order, the content of every marker line of the resolver's
/// generated text.
pub fn extract_urls(html: &Vec<u8>) -> (r: Vec<Vec<u8>>)
    ensures
        byte_views(r@) == urls_of(html@),
{
    let open = "<li>LINK: ".as_bytes_vec();
    let close = "</li>".as_bytes_vec();
    let mut out: Vec<Vec<u8>> = Vec::new();
    let mut pos: usize = 0;
    let hlen = html.len();
    proof {
        assert(html@.skip(0) =~= html@);
        assert(byte_views(out@) + urls_of(html@) =~= urls_of(html@));
    }
    loop
        invariant
            pos <= html@.len() <= usize::MAX,
            hlen == html@.len(),
            open@ == "<li>LINK: ".spec_bytes(),
            close@ == "</li>".spec_bytes(),
            urls_of(html@) == byte_views(out@) + urls_of_lines(lines_of(html@.skip(pos as int))),
        decreases html@.len() - pos,
    {
        let ghost s = html@.skip(pos as int);
        match find_byte(html, 10u8, pos) {
            Some(nl) => {
                let ghost l2 = lines_of(html@.skip(nl as int + 1));
                proof {
                    lemma_first_byte_props(html@, 10u8, pos as int);
                    assert(forall|j: int| 0 <= j < nl - pos ==> s[j] != 10u8);
                    assert(s[nl - pos as int] == 10u8);
                    lemma_lines_chunk(s, nl - pos as int);
                    assert(s.skip(nl - pos as int + 1) =~= html@.skip(nl as int + 1));
                }
                let line = subvec(html, pos, nl);
                let ghost out0 = out@;
                proof {
                    assert(line@ =~= s.take(nl - pos as int));
                    assert(lines_of(s) == seq![line@] + l2);
                    assert((seq![line@] + l2)[0] == line@);
                    assert((seq![line@] + l2).drop_first() =~= l2);
                }
                match line_url_of(&line, &open, &close) {
                    Some(u) => {
                        proof {
                            assert(urls_of_lines(lines_of(s)) == seq![u@] + urls_of_lines(l2));
                            assert(byte_views(out0.push(u)) =~= byte_views(out0) + seq![u@]);
                            assert((byte_views(out0) + seq![u@]) + urls_of_lines(l2) =~= byte_views(
                                out0,
                            ) + (seq![u@] + urls_of_lines(l2)));
                        }
                        out.push(u);
                    },
                    None => {
                        proof {
                            assert(urls_of_lines(lines_of(s)) == urls_of_lines(l2));
                        }
                    },
                }
                pos = nl + 1;
            },
            None => {
                proof {
                    lemma_first_byte_props(html@, 10u8, pos as int);
                    assert(forall|j: int| 0 <= j < s.len() ==> s[j] != 10u8);
                    lemma_lines_chunk(s, s.len() as int);
                }
                let line = subvec(html, pos, hlen);
                let ghost out0 = out@;
                proof {
                    assert(line@ =~= s);
                }
                match line_url_of(&line, &open, &close) {
                    Some(u) => {
                        proof {
                            reveal_strlit("<li>LINK: ");
                            assert(vstd::utf8::is_ascii_chars("<li>LINK: "@));
                            crate::bytes::lemma_ascii_bytes("<li>LINK: ");
                            assert(open@.len() == 10);
                            lemma_first_match_props(s, open@, 0);
                            assert(first_match_from(s, open@, 0) is Some);
                            assert(s.len() >= 10);
                            assert(lines_of(s) == seq![s]);
                            assert((seq![s])[0] == s);
                            assert(seq![s].drop_first() =~= Seq::<Seq<u8>>::empty());
                            assert(urls_of_lines(lines_of(s)) == seq![u@] + urls_of_lines(
                                Seq::<Seq<u8>>::empty(),
                            ));
                            assert(byte_views(out0.push(u)) =~= byte_views(out0) + seq![u@]);
                            assert(byte_views(out0) + (seq![u@] + urls_of_lines(
                                Seq::<Seq<u8>>::empty(),
                            )) =~= byte_views(out0.push(u)));
                        }
                        out.push(u);
                        proof {
                            assert(urls_of(html@) == byte_views(out@));
                        }
                    },
                    None => {
                        proof {
                            if s.len() > 0 {
                                assert(lines_of(s) == seq![s]);
                                assert((seq![s])[0] == s);
                                assert(seq![s].drop_first() =~= Seq::<Seq<u8>>::empty());
                                assert(urls_of_lines(lines_of(s)) == urls_of_lines(
                                    Seq::<Seq<u8>>::empty(),
                                ));
                            } else {
                                assert(lines_of(s) == Seq::<Seq<u8>>::empty());
                            }
                            assert(byte_views(out@) + Seq::<Seq<u8>>::empty() =~= byte_views(out@));
                            assert(urls_of(html@) == byte_views(out@));
                        }
                    },
                }
                return out;
            },
        }
    }
}

} // verus!
