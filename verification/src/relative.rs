//! Turning a canonical documentation URL into a link relative to a document's
//! nesting depth, or keeping it absolute.

use vstd::prelude::*;
use vstd::string::StrSliceExecFns;
use vstd::string::StringSliceAdditionalSpecFns;

use crate::bytes::{copy_bytes, extend_from, is_prefix, match_at, matches_at, subvec};
use crate::link::{Error, ErrorSpec};

verus! {

/// The canonical documentation host prefix.
pub open spec fn doc_base() -> Seq<u8> {
    "https://doc.rust-lang.org/".spec_bytes()
}

/// First position at or after `from` that does not hold an ASCII digit.
pub open spec fn digits_end(s: Seq<u8>, from: int) -> int
    decreases s.len() - from + 1,
{
    if from < 0 || from >= s.len() {
        from
    } else if 48 <= s[from] <= 57 {
        digits_end(s, from + 1)
    } else {
        from
    }
}

/// Where the recognized host-and-channel prefix of `u` ends: the host prefix
/// followed by a release channel name or by a pinned version of the shape
/// `1.<digits>.<digits>`; `None` if `u` does not start that way.
pub open spec fn doc_url_end(u: Seq<u8>) -> Option<int> {
    let p = doc_base().len() as int;
    if !is_prefix(u, doc_base()) {
        None
    } else if matches_at(u, "nightly".spec_bytes(), p) {
        Some(p + "nightly".spec_bytes().len())
    } else if matches_at(u, "beta".spec_bytes(), p) {
        Some(p + "beta".spec_bytes().len())
    } else if matches_at(u, "stable".spec_bytes(), p) {
        Some(p + "stable".spec_bytes().len())
    } else if matches_at(u, "dev".spec_bytes(), p) {
        Some(p + "dev".spec_bytes().len())
    } else if p + 1 < u.len() && u[p] == 49u8 && u[p + 1] == 46u8 {
        let d1 = digits_end(u, p + 2);
        if d1 > p + 2 && d1 < u.len() && u[d1] == 46u8 {
            let d2 = digits_end(u, d1 + 1);
            if d2 > d1 + 1 {
                Some(d2)
            } else {
                None
            }
        } else {
            None
        }
    } else {
        None
    }
}

/// The parent-directory walk for a document `depth` path segments below the
/// documentation root.
pub open spec fn dots(depth: int) -> Seq<u8>
    decreases depth,
{
    if depth <= 0 {
        Seq::empty()
    } else if depth == 1 {
        "..".spec_bytes()
    } else {
        dots(depth - 1) + "/..".spec_bytes()
    }
}

/// What a resolved URL becomes in a document at the given depth: unchanged in
/// absolute mode; otherwise the parent-directory walk followed by the URL's
/// path past the recognized prefix, or an error when no prefix is recognized.
pub open spec fn rel_url_spec(u: Seq<u8>, depth: int, absolute: bool) -> Result<Seq<u8>, ErrorSpec> {
    if absolute {
        Ok(u)
    } else {
        match doc_url_end(u) {
            None => Err(ErrorSpec::UnrecognizedUrl { url: u }),
            Some(e) => Ok(dots(depth) + u.skip(e)),
        }
    }
}

/// First position at or after `from` in `u` that does not hold an ASCII
/// digit.
fn scan_digits(u: &Vec<u8>, from: usize) -> (r: usize)
    requires
        from <= u@.len(),
    ensures
        r as int == digits_end(u@, from as int),
        from <= r <= u@.len(),
{
    let mut i: usize = from;
    loop
        invariant
            from <= i <= u@.len(),
            digits_end(u@, from as int) == digits_end(u@, i as int),
        decreases u@.len() - i,
    {
        if i >= u.len() {
            return i;
        }
        let b = u[i];
        if b < 48 || b > 57 {
            return i;
        }
        i = i + 1;
    }
}

/// Converts one canonical documentation URL for a document at the given
/// nesting depth: keeps it absolute, or strips the recognized prefix and
/// prepends one parent-directory marker per path segment of depth.
pub fn relative_url(url: &Vec<u8>, depth: usize, absolute: bool) -> (r: Result<Vec<u8>, Error>)
    ensures
        match r {
            Ok(v) => rel_url_spec(url@, depth as int, absolute) == Ok::<Seq<u8>, ErrorSpec>(v@),
            Err(e) => rel_url_spec(url@, depth as int, absolute) == Err::<Seq<u8>, ErrorSpec>(e@),
        },
{
    if absolute {
        return Ok(copy_bytes(url));
    }
    let base = "https://doc.rust-lang.org/".as_bytes_vec();
    let ulen = url.len();
    let mut end: usize = 0;
    let mut found = false;
    if match_at(url, &base, 0) {
        let p = base.len();
        proof {
            assert(p <= ulen);
        }
        let nightly = "nightly".as_bytes_vec();
        let beta = "beta".as_bytes_vec();
        let stable = "stable".as_bytes_vec();
        let dev = "dev".as_bytes_vec();
        if match_at(url, &nightly, p) {
            end = p + nightly.len();
            found = true;
        } else if match_at(url, &beta, p) {
            end = p + beta.len();
            found = true;
        } else if match_at(url, &stable, p) {
            end = p + stable.len();
            found = true;
        } else if match_at(url, &dev, p) {
            end = p + dev.len();
            found = true;
        } else if ulen - p > 1 && url[p] == 49u8 && url[p + 1] == 46u8 {
            let d1 = scan_digits(url, p + 2);
            if d1 > p + 2 && d1 < ulen && url[d1] == 46u8 {
                let d2 = scan_digits(url, d1 + 1);
                if d2 > d1 + 1 {
                    end = d2;
                    found = true;
                }
            }
        }
    }
    if !found {
        return Err(Error::UnrecognizedUrl { url: copy_bytes(url) });
    }
    proof {
        assert(doc_url_end(url@) == Some(end as int));
    }
    let mut out: Vec<u8> = Vec::new();
    if depth > 0 {
        let dd = "..".as_bytes_vec();
        let sd = "/..".as_bytes_vec();
        extend_from(&mut out, &dd);
        proof {
            assert(Seq::<u8>::empty() + "..".spec_bytes() =~= dots(1));
        }
        let mut k: usize = 1;
        while k < depth
            invariant
                1 <= k <= depth,
                sd@ == "/..".spec_bytes(),
                out@ == dots(k as int),
            decreases depth - k,
        {
            extend_from(&mut out, &sd);
            k = k + 1;
        }
    }
    let tail = subvec(url, end, ulen);
    let ghost dots_part = out@;
    extend_from(&mut out, &tail);
    proof {
        assert(out@ == dots(depth as int) + url@.skip(end as int));
    }
    Ok(out)
}

} // verus!
