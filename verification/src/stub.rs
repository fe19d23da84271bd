//! The stub generator: serializes the full ordered candidate list into one
//! synthetic source text whose documentation comments carry the candidates,
//! for the external resolver to process.

use vstd::prelude::*;
use vstd::string::StrSliceExecFns;
use vstd::string::StringSliceAdditionalSpecFns;

use crate::bytes::extend_from;
use crate::link::{cand_views, doc_cand_views, Candidate, CandidateView};

verus! {

/// Stub preamble: broken references are a hard error, redundant explicit
/// links are tolerated.
pub open spec fn stub_header() -> Seq<u8> {
    "#![deny(rustdoc::broken_intra_doc_links)]\n#![allow(rustdoc::redundant_explicit_links)]\n".spec_bytes()
}

/// Stub epilogue: declares a few always-in-scope library surfaces so that
/// symbols from them resolve without extra qualification.
pub open spec fn stub_footer() -> Seq<u8> {
    "ext".spec_bytes() + "ern crate alloc;\n".spec_bytes() + "ext".spec_bytes()
        + "ern crate proc_macro;\n".spec_bytes() + "ext".spec_bytes()
        + "ern crate test;\n\n".spec_bytes()
}

/// One documentation-comment line: the marker token and the candidate's
/// destination wrapped as a link reference.
pub open spec fn stub_line(dest: Seq<u8>) -> Seq<u8> {
    "//! - LINK: [".spec_bytes() + dest + "]\n".spec_bytes()
}

/// The lines of one document's candidates, in order.
pub open spec fn stub_lines(cs: Seq<CandidateView>) -> Seq<u8>
    decreases cs.len(),
{
    if cs.len() == 0 {
        Seq::empty()
    } else {
        stub_line(cs[0].dest) + stub_lines(cs.drop_first())
    }
}

/// The lines of all documents' candidates, in traversal order.
pub open spec fn stub_all(docs: Seq<Seq<CandidateView>>) -> Seq<u8>
    decreases docs.len(),
{
    if docs.len() == 0 {
        Seq::empty()
    } else {
        stub_lines(docs[0]) + stub_all(docs.drop_first())
    }
}

/// The whole stub text for the given candidates.
pub open spec fn stub_spec(docs: Seq<Seq<CandidateView>>) -> Seq<u8> {
    stub_header() + stub_all(docs) + stub_footer()
}

/// Builds the stub text for the candidates of all documents, one
/// documentation-comment line per candidate in traversal order.
pub fn make_stub(docs: &Vec<Vec<Candidate>>) -> (r: Vec<u8>)
    ensures
        r@ == stub_spec(doc_cand_views(docs@)),
{
    let ghost dv = doc_cand_views(docs@);
    let line_open = "//! - LINK: [".as_bytes_vec();
    let line_close = "]\n".as_bytes_vec();
    let mut out =
        "#![deny(rustdoc::broken_intra_doc_links)]\n#![allow(rustdoc::redundant_explicit_links)]\n".as_bytes_vec();
    proof {
        assert(dv.skip(0) =~= dv);
    }
    let mut d: usize = 0;
    while d < docs.len()
        invariant
            d <= docs@.len(),
            dv == doc_cand_views(docs@),
            line_open@ == "//! - LINK: [".spec_bytes(),
            line_close@ == "]\n".spec_bytes(),
            stub_spec(dv) == out@ + stub_all(dv.skip(d as int)) + stub_footer(),
        decreases docs@.len() - d,
    {
        let doc = &docs[d];
        let ghost cv = dv[d as int];
        let ghost out0 = out@;
        proof {
            assert(cv == cand_views(doc@));
            assert(cv.skip(0) =~= cv);
        }
        let mut j: usize = 0;
        while j < doc.len()
            invariant
                j <= doc@.len(),
                cv == cand_views(doc@),
                line_open@ == "//! - LINK: [".spec_bytes(),
                line_close@ == "]\n".spec_bytes(),
                out@ + stub_lines(cv.skip(j as int)) == out0 + stub_lines(cv),
            decreases doc@.len() - j,
        {
            let c = &doc[j];
            proof {
                assert(cv.skip(j as int)[0] == cv[j as int]);
                assert(cv.skip(j as int).drop_first() =~= cv.skip(j as int + 1));
                assert(cv[j as int].dest == c.dest@);
            }
            let ghost out_before = out@;
            extend_from(&mut out, &line_open);
            extend_from(&mut out, &c.dest);
            extend_from(&mut out, &line_close);
            proof {
                assert(out@ =~= out_before + stub_line(cv[j as int].dest));
                assert(out@ + stub_lines(cv.skip(j as int + 1)) =~= out_before + stub_lines(
                    cv.skip(j as int),
                ));
            }
            j = j + 1;
        }
        proof {
            assert(cv.skip(doc@.len() as int) =~= Seq::<CandidateView>::empty());
            assert(stub_lines(Seq::<CandidateView>::empty()) == Seq::<u8>::empty());
            assert(out@ + Seq::<u8>::empty() =~= out@);
            assert(out@ == out0 + stub_lines(cv));
            assert(dv.skip(d as int)[0] == cv);
            assert(dv.skip(d as int).drop_first() =~= dv.skip(d as int + 1));
            assert((out0 + stub_lines(cv)) + stub_all(dv.skip(d as int + 1)) =~= out0 + stub_all(
                dv.skip(d as int),
            ));
        }
        d = d + 1;
    }
    proof {
        assert(dv.skip(d as int) =~= Seq::<Seq<CandidateView>>::empty());
        assert(out@ + stub_all(Seq::<Seq<CandidateView>>::empty()) =~= out@);
    }
    let ghost body_done = out@;
    let f1 = "ext".as_bytes_vec();
    let f2 = "ern crate alloc;\n".as_bytes_vec();
    let f3 = "ern crate proc_macro;\n".as_bytes_vec();
    let f4 = "ern crate test;\n\n".as_bytes_vec();
    extend_from(&mut out, &f1);
    extend_from(&mut out, &f2);
    extend_from(&mut out, &f1);
    extend_from(&mut out, &f3);
    extend_from(&mut out, &f1);
    extend_from(&mut out, &f4);
    proof {
        assert(out@ =~= body_done + stub_footer());
    }
    out
}

} // verus!
