//! Verified text helpers: substring containment, prefix tests, and the
//! final-path-segment rule that names downloaded files.

use vstd::prelude::*;

verus! {

/// The needle `n` occurs in `h` starting at position `i`.
pub open spec fn contains_at(h: Seq<char>, n: Seq<char>, i: int) -> bool {
    0 <= i && i + n.len() <= h.len() && h.subrange(i, i + n.len() as int) == n
}

/// The needle `n` occurs somewhere in `h`.
pub open spec fn contains_seq(h: Seq<char>, n: Seq<char>) -> bool {
    exists|i: int| contains_at(h, n, i)
}

/// `p` is a prefix of `h`.
pub open spec fn starts_with_seq(h: Seq<char>, p: Seq<char>) -> bool {
    p.len() <= h.len() && h.subrange(0, p.len() as int) == p
}

/// Compares `n` against the characters of `h` starting at position `i`.
fn match_at(h: &str, n: &str, i: usize, hl: usize, nl: usize) -> (r: bool)
    requires
        hl == h@.len(),
        nl == n@.len(),
        i + nl <= hl,
    ensures
        r == contains_at(h@, n@, i as int),
{
    let mut j: usize = 0;
    while j < nl
        invariant
            hl == h@.len(),
            nl == n@.len(),
            i + nl <= hl,
            j <= nl,
            forall|k: int| 0 <= k < j ==> h@[i + k] == n@[k],
        decreases nl - j,
    {
        if h.get_char(i + j) != n.get_char(j) {
            proof {
                if h@.subrange(i as int, i + n@.len() as int) == n@ {
                    assert(h@.subrange(i as int, i + n@.len() as int)[j as int] == h@[i + j]);
                }
            }
            return false;
        }
        j += 1;
    }
    proof {
        assert(h@.subrange(i as int, i + n@.len() as int) =~= n@);
    }
    true
}

/// Whether `h` contains `n` as a contiguous substring.
pub fn str_contains(h: &str, n: &str) -> (r: bool)
    ensures
        r == contains_seq(h@, n@),
{
    let hl = h.unicode_len();
    let nl = n.unicode_len();
    if nl == 0 {
        proof {
            assert(h@.subrange(0, 0) =~= n@);
            assert(contains_at(h@, n@, 0));
        }
        return true;
    }
    if nl > hl {
        return false;
    }
    let mut i: usize = 0;
    while i <= hl - nl
        invariant
            hl == h@.len(),
            nl == n@.len(),
            1 <= nl <= hl,
            i <= hl - nl + 1,
            forall|k: int| 0 <= k < i ==> !contains_at(h@, n@, k),
        decreases hl - nl + 1 - i,
    {
        if match_at(h, n, i, hl, nl) {
            return true;
        }
        i += 1;
    }
    proof {
        assert forall|k: int| !contains_at(h@, n@, k) by {
            if 0 <= k <= hl - nl {
                assert(!contains_at(h@, n@, k));
            }
        }
    }
    false
}

/// Whether `h` begins with `p`.
pub fn str_starts_with(h: &str, p: &str) -> (r: bool)
    ensures
        r == starts_with_seq(h@, p@),
{
    let hl = h.unicode_len();
    let pl = p.unicode_len();
    if pl > hl {
        return false;
    }
    let r = match_at(h, p, 0, hl, pl);
    proof {
        assert(contains_at(h@, p@, 0) == starts_with_seq(h@, p@));
    }
    r
}

/// Position of the last `/` in `s`, or `-1` when `s` holds none.
pub open spec fn last_slash(s: Seq<char>) -> int
    decreases s.len(),
{
    if s.len() == 0 {
        -1
    } else if s[s.len() - 1] == '/' {
        s.len() - 1
    } else {
        last_slash(s.drop_last())
    }
}

/// The characters of `s` after its last `/` (all of `s` when it has none).
pub open spec fn tail_after_slash(s: Seq<char>) -> Seq<char> {
    s.subrange(last_slash(s) + 1, s.len() as int)
}

/// The name a downloaded file gets: the URL's final path segment, or a
/// fixed placeholder when the URL has no non-empty segment after its
/// last `/`.
pub open spec fn spec_filename(s: Seq<char>) -> Seq<char> {
    if tail_after_slash(s).len() == 0 {
        "unknown_file"@
    } else {
        tail_after_slash(s)
    }
}

/// Derives the output filename for a URL: everything after the last `/`,
/// with a fixed placeholder when that is empty.
pub fn filename_for(url: &str) -> (r: String)
    ensures
        r@ == spec_filename(url@),
{
    let n = url.unicode_len();
    let mut start: usize = 0;
    let mut j: usize = 0;
    while j < n
        invariant
            n == url@.len(),
            start <= j <= n,
            start == last_slash(url@.subrange(0, j as int)) + 1,
        decreases n - j,
    {
        proof {
            assert(url@.subrange(0, j + 1).drop_last() =~= url@.subrange(0, j as int));
        }
        if url.get_char(j) == '/' {
            start = j + 1;
        }
        j += 1;
    }
    proof {
        assert(url@.subrange(0, n as int) =~= url@);
    }
    if start == n {
        "unknown_file".to_owned()
    } else {
        let tail = url.substring_char(start, n);
        tail.to_owned()
    }
}

} // verus!
