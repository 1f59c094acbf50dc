use vstd::prelude::*;
use vstd::string::StrSliceExecFns;

verus! {

/// Character-for-character equality of two string slices.
pub fn str_eq(a: &str, b: &str) -> (r: bool)
    ensures
        r == (a@ == b@),
{
    let alen = a.unicode_len();
    let blen = b.unicode_len();
    if alen != blen {
        proof {
            if a@ == b@ {
                assert(a@.len() == b@.len());
            }
        }
        return false;
    }
    let mut i: usize = 0;
    while i < alen
        invariant
            alen == a@.len(),
            alen == b@.len(),
            i <= alen,
            forall|j: int| 0 <= j < i ==> a@[j] == b@[j],
        decreases alen - i,
    {
        if a.get_char(i) != b.get_char(i) {
            proof {
                if a@ == b@ {
                    assert(a@[i as int] == b@[i as int]);
                }
            }
            return false;
        }
        i += 1;
    }
    proof {
        assert(a@ =~= b@);
    }
    true
}

/// The pattern `pat` occurs in `s` starting at index `i`.
pub open spec fn matches_at(s: Seq<char>, pat: Seq<char>, i: int) -> bool {
    &&& 0 <= i
    &&& i + pat.len() <= s.len()
    &&& s.subrange(i, i + pat.len()) == pat
}

/// The index of the first occurrence of `pat` in `s` at or after `from`.
pub open spec fn spec_find(s: Seq<char>, pat: Seq<char>, from: int) -> Option<int>
    decreases s.len() - from,
{
    if from < 0 || from + pat.len() > s.len() {
        None
    } else if matches_at(s, pat, from) {
        Some(from)
    } else if from + pat.len() == s.len() {
        None
    } else {
        spec_find(s, pat, from + 1)
    }
}

pub proof fn lemma_find_bounds(s: Seq<char>, pat: Seq<char>, from: int, i: int)
    requires
        spec_find(s, pat, from) == Some(i),
    ensures
        from <= i,
        matches_at(s, pat, i),
    decreases s.len() - from,
{
    if from < 0 || from + pat.len() > s.len() {
    } else if matches_at(s, pat, from) {
    } else if from + pat.len() == s.len() {
    } else {
        lemma_find_bounds(s, pat, from + 1, i);
    }
}

/// The first occurrence of `pat` in `s` at or after `from`, by a linear scan.
pub fn find_from(s: &str, pat: &str, from: usize) -> (r: Option<usize>)
    ensures
        match r {
            Some(i) => spec_find(s@, pat@, from as int) == Some(i as int),
            None => spec_find(s@, pat@, from as int) is None,
        },
{
    let slen = s.unicode_len();
    let plen = pat.unicode_len();
    if plen > slen || from > slen - plen {
        proof {
            lemma_find_none_when_out(s@, pat@, from as int);
        }
        return None;
    }
    if plen == 0 {
        proof {
            assert(s@.subrange(from as int, from as int) =~= pat@);
        }
        return Some(from);
    }
    let mut i: usize = from;
    while i <= slen - plen
        invariant
            slen == s@.len(),
            plen == pat@.len(),
            1 <= plen <= slen,
            from <= i <= slen - plen + 1,
            spec_find(s@, pat@, from as int) == spec_find(s@, pat@, i as int),
        decreases slen - i,
    {
        if match_here(s, pat, i) {
            return Some(i);
        }
        proof {
            assert(spec_find(s@, pat@, i as int) == spec_find(s@, pat@, i + 1));
        }
        i += 1;
    }
    proof {
        lemma_find_none_when_out(s@, pat@, i as int);
    }
    None
}

proof fn lemma_find_none_when_out(s: Seq<char>, pat: Seq<char>, from: int)
    requires
        from < 0 || from + pat.len() > s.len(),
    ensures
        spec_find(s, pat, from) is None,
{
}

/// Whether `pat` occurs in `s` starting exactly at index `i`.
fn match_here(s: &str, pat: &str, i: usize) -> (r: bool)
    requires
        i + pat@.len() <= s@.len(),
        s@.len() <= usize::MAX as int,
    ensures
        r == matches_at(s@, pat@, i as int),
{
    let plen = pat.unicode_len();
    let mut k: usize = 0;
    while k < plen
        invariant
            plen == pat@.len(),
            i + plen <= s@.len(),
            s@.len() <= usize::MAX as int,
            k <= plen,
            forall|j: int| 0 <= j < k ==> s@[i + j] == pat@[j],
        decreases plen - k,
    {
        if s.get_char(i + k) != pat.get_char(k) {
            proof {
                if matches_at(s@, pat@, i as int) {
                    assert(s@.subrange(i as int, i + plen)[k as int] == pat@[k as int]);
                }
            }
            return false;
        }
        k += 1;
    }
    proof {
        assert(s@.subrange(i as int, i + plen) =~= pat@);
    }
    true
}

/// The content between the first occurrence of `open` and the next
/// occurrence of `close` after it, if both are present.
pub open spec fn spec_element(s: Seq<char>, open: Seq<char>, close: Seq<char>) -> Option<
    Seq<char>,
> {
    match spec_find(s, open, 0) {
        None => None,
        Some(i) => match spec_find(s, close, i + open.len()) {
            None => None,
            Some(j) => Some(s.subrange(i + open.len(), j)),
        },
    }
}

/// Extracts the content of the first `open` ... `close` pair of `s`.
pub fn element<'a>(s: &'a str, open: &str, close: &str) -> (r: Option<&'a str>)
    ensures
        match r {
            Some(c) => spec_element(s@, open@, close@) == Some(c@),
            None => spec_element(s@, open@, close@) is None,
        },
{
    let slen = s.unicode_len();
    let i = match find_from(s, open, 0) {
        Some(i) => i,
        None => {
            return None;
        },
    };
    proof {
        lemma_find_bounds(s@, open@, 0, i as int);
    }
    let olen = open.unicode_len();
    let j = match find_from(s, close, i + olen) {
        Some(j) => j,
        None => {
            return None;
        },
    };
    proof {
        lemma_find_bounds(s@, close@, i + olen, j as int);
    }
    Some(s.substring_char(i + olen, j))
}

} // verus!
