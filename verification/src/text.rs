//! Keyword matching over memo content: substring search that ignores
//! ASCII letter case, the text comparison the search operation promises.
use vstd::prelude::*;
use vstd::string::StrSliceExecFns;

verus! {

/// The characters of a string slice, as a vector.
pub fn chars_of(s: &str) -> (r: Vec<char>)
    ensures
        r@ == s@,
{
    let n = s.unicode_len();
    let mut v: Vec<char> = Vec::new();
    let mut i: usize = 0;
    while i < n
        invariant
            i <= n,
            n == s@.len(),
            v@ == s@.take(i as int),
        decreases n - i,
    {
        let c = s.get_char(i);
        v.push(c);
        proof {
            assert(v@ =~= s@.take(i as int + 1));
        }
        i += 1;
    }
    proof {
        assert(s@.take(n as int) =~= s@);
    }
    v
}

pub open spec fn is_ascii_upper(c: char) -> bool {
    65 <= c as int && c as int <= 90
}

/// Two characters are the same up to ASCII letter case.
pub open spec fn chars_eq_ci(a: char, b: char) -> bool {
    ||| a == b
    ||| (is_ascii_upper(a) && a as int + 32 == b as int)
    ||| (is_ascii_upper(b) && b as int + 32 == a as int)
}

/// The keyword occurs at offset `i` of the text, up to ASCII case.
pub open spec fn matches_at(s: Seq<char>, kw: Seq<char>, i: int) -> bool {
    &&& 0 <= i
    &&& i + kw.len() <= s.len()
    &&& forall|j: int| 0 <= j < kw.len() ==> chars_eq_ci(s[i + j], kw[j])
}

/// The text contains the keyword as a substring, up to ASCII case. An
/// empty keyword is contained in every text.
pub open spec fn contains_ci(s: Seq<char>, kw: Seq<char>) -> bool {
    exists|i: int| matches_at(s, kw, i)
}

/// An empty keyword matches every text: the search with it keeps all
/// records.
pub proof fn lemma_empty_keyword_matches(s: Seq<char>, kw: Seq<char>)
    requires
        kw.len() == 0,
    ensures
        contains_ci(s, kw),
{
    assert(matches_at(s, kw, 0));
}

fn chars_eq_ci_exec(a: char, b: char) -> (r: bool)
    ensures
        r == chars_eq_ci(a, b),
{
    let ua = a as u32;
    let ub = b as u32;
    a == b || (65 <= ua && ua <= 90 && ua + 32 == ub) || (65 <= ub && ub <= 90 && ub + 32 == ua)
}

/// Whether the keyword occurs in the text, ignoring ASCII letter case.
pub fn contains_keyword(s: &Vec<char>, kw: &Vec<char>) -> (r: bool)
    ensures
        r == contains_ci(s@, kw@),
{
    let n = s.len();
    let k = kw.len();
    if k > n {
        return false;
    }
    let mut i: usize = 0;
    while i <= n - k
        invariant
            k <= n,
            n == s@.len(),
            k == kw@.len(),
            i <= n - k + 1,
            forall|i2: int| 0 <= i2 < i ==> !matches_at(s@, kw@, i2),
        decreases n - k + 1 - i,
    {
        let mut j: usize = 0;
        let mut live = true;
        while live && j < k
            invariant
                i + k <= n,
                n == s@.len(),
                k == kw@.len(),
                j <= k,
                live ==> forall|j2: int| 0 <= j2 < j ==> chars_eq_ci(s@[i + j2], kw@[j2]),
            !live ==> !matches_at(s@, kw@, i as int),
            decreases k - j + (if live {
                1int
            } else {
                0int
            }),
        {
            if chars_eq_ci_exec(s[i + j], kw[j]) {
                j += 1;
            } else {
                live = false;
            }
        }
        if live {
            proof {
                assert(matches_at(s@, kw@, i as int));
            }
            return true;
        }
        i += 1;
    }
    proof {
        assert(forall|i2: int| matches_at(s@, kw@, i2) ==> i2 <= n - k);
    }
    false
}

} // verus!
