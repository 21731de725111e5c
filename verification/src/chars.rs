//! Character-sequence helpers: verified prefix/suffix/substring tests,
//! conversions between strings and character vectors, and the few Unicode
//! case operations that are delegated to the standard library.

use vstd::prelude::*;
use vstd::string::StrSliceExecFns;

verus! {

/// What `str::to_lowercase` returns for a given character sequence; the
/// result depends on the characters alone.
pub uninterp spec fn lower_of(s: Seq<char>) -> Seq<char>;

/// What `str::to_uppercase` returns for a given character sequence; the
/// result depends on the characters alone.
pub uninterp spec fn upper_of(s: Seq<char>) -> Seq<char>;

/// What `char::is_uppercase` returns for a given character.
pub uninterp spec fn char_upper(c: char) -> bool;

/// Relies on str::to_lowercase: Unicode lowercasing, a pure function of
/// the characters; an empty string stays empty.
#[verifier::external_body]
pub fn lowercase(s: &String) -> (r: String)
    ensures
        r@ == lower_of(s@),
        s@.len() == 0 ==> r@.len() == 0,
{
    s.to_lowercase()
}

/// Relies on str::to_uppercase: Unicode uppercasing, a pure function of
/// the characters; an empty string stays empty.
#[verifier::external_body]
pub fn uppercase(s: &String) -> (r: String)
    ensures
        r@ == upper_of(s@),
        s@.len() == 0 ==> r@.len() == 0,
{
    s.to_uppercase()
}

/// Relies on char::is_uppercase: the Unicode uppercase property of one
/// character.
#[verifier::external_body]
pub fn is_uppercase_char(c: char) -> (r: bool)
    ensures
        r == char_upper(c),
{
    c.is_uppercase()
}

/// Relies on String::from_iter over chars: builds the string holding
/// exactly the given characters in order.
#[verifier::external_body]
pub fn string_from_chars(v: &Vec<char>) -> (r: String)
    ensures
        r@ == v@,
{
    v.iter().collect()
}

/// The characters of a string as a vector.
pub fn chars_vec(s: &String) -> (r: Vec<char>)
    ensures
        r@ == s@,
{
    str_chars_vec(s.as_str())
}

/// The characters of a string slice as a vector.
pub fn str_chars_vec(text: &str) -> (r: Vec<char>)
    ensures
        r@ == text@,
{
    let n = text.unicode_len();
    let mut out: Vec<char> = Vec::new();
    let mut i: usize = 0;
    while i < n
        invariant
            i <= n,
            n == text@.len(),
            out@ == text@.take(i as int),
        decreases n - i,
    {
        let c = text.get_char(i);
        out.push(c);
        proof {
            assert(out@ =~= text@.take(i + 1));
        }
        i = i + 1;
    }
    proof {
        assert(text@.take(n as int) =~= text@);
    }
    out
}

/// `p` occurs at the front of `s`.
pub open spec fn spec_is_prefix(p: Seq<char>, s: Seq<char>) -> bool {
    p.len() <= s.len() && (forall|i: int| 0 <= i < p.len() ==> p[i] == s[i])
}

/// `p` occurs at the back of `s`.
pub open spec fn spec_is_suffix(p: Seq<char>, s: Seq<char>) -> bool {
    p.len() <= s.len() && (forall|i: int|
        0 <= i < p.len() ==> p[i] == s[s.len() - p.len() + i])
}

/// `p` occurs in `s` starting at position `k`.
pub open spec fn occurs_at(p: Seq<char>, s: Seq<char>, k: int) -> bool {
    0 <= k && k + p.len() <= s.len() && (forall|i: int| 0 <= i < p.len() ==> p[i] == s[k + i])
}

/// `p` occurs somewhere inside `s`.
pub open spec fn spec_contains(p: Seq<char>, s: Seq<char>) -> bool {
    exists|k: int| occurs_at(p, s, k)
}

/// Whether two character vectors hold the same characters.
pub fn chars_equal(a: &Vec<char>, b: &Vec<char>) -> (r: bool)
    ensures
        r == (a@ == b@),
{
    if a.len() != b.len() {
        proof {
            assert(a@ != b@);
        }
        return false;
    }
    let n = a.len();
    let mut i: usize = 0;
    while i < n
        invariant
            i <= n,
            n == a@.len() == b@.len(),
            forall|j: int| 0 <= j < i ==> a@[j] == b@[j],
        decreases n - i,
    {
        if a[i] != b[i] {
            proof {
                assert(a@[i as int] != b@[i as int]);
            }
            return false;
        }
        i = i + 1;
    }
    proof {
        assert(a@ =~= b@);
    }
    true
}

/// Whether `p` is a prefix of `s`.
pub fn is_prefix(p: &Vec<char>, s: &Vec<char>) -> (r: bool)
    ensures
        r == spec_is_prefix(p@, s@),
{
    if p.len() > s.len() {
        return false;
    }
    let n = p.len();
    let mut i: usize = 0;
    while i < n
        invariant
            i <= n,
            n == p@.len() <= s@.len(),
            forall|j: int| 0 <= j < i ==> p@[j] == s@[j],
        decreases n - i,
    {
        if p[i] != s[i] {
            proof {
                assert(p@[i as int] != s@[i as int]);
            }
            return false;
        }
        i = i + 1;
    }
    true
}

/// Whether `p` is a suffix of `s`.
pub fn is_suffix(p: &Vec<char>, s: &Vec<char>) -> (r: bool)
    ensures
        r == spec_is_suffix(p@, s@),
{
    if p.len() > s.len() {
        return false;
    }
    let n = p.len();
    let slen = s.len();
    let offset = slen - n;
    let mut i: usize = 0;
    while i < n
        invariant
            i <= n,
            n == p@.len(),
            slen == s@.len(),
            n <= slen,
            offset == slen - n,
            forall|j: int| 0 <= j < i ==> p@[j] == s@[offset + j],
        decreases n - i,
    {
        if p[i] != s[offset + i] {
            proof {
                assert(p@[i as int] != s@[offset + i as int]);
            }
            return false;
        }
        i = i + 1;
    }
    true
}

/// Whether `p` occurs anywhere inside `s`.
pub fn contains_seq(p: &Vec<char>, s: &Vec<char>) -> (r: bool)
    ensures
        r == spec_contains(p@, s@),
{
    if p.len() == 0 {
        proof {
            assert(occurs_at(p@, s@, 0));
        }
        return true;
    }
    if p.len() > s.len() {
        proof {
            if spec_contains(p@, s@) {
                let k = choose|k: int| occurs_at(p@, s@, k);
            }
        }
        return false;
    }
    let n = p.len();
    let slen = s.len();
    let last_start = slen - n;
    let mut k: usize = 0;
    let mut found = false;
    while k <= last_start && !found
        invariant
            k <= last_start + 1,
            n == p@.len(),
            slen == s@.len(),
            1 <= n <= slen,
            last_start == slen - n,
            !found ==> forall|m: int| 0 <= m < k ==> !occurs_at(p@, s@, m),
            found ==> spec_contains(p@, s@),
        decreases last_start + 1 - k, (if found { 0int } else { 1int }),
    {
        let mut i: usize = 0;
        let mut matched = true;
        while i < n && matched
            invariant
                i <= n,
                n == p@.len(),
                slen == s@.len(),
                k + n <= slen,
                matched ==> forall|j: int| 0 <= j < i ==> p@[j] == s@[k + j],
                !matched ==> !occurs_at(p@, s@, k as int),
            decreases n - i, (if matched { 1int } else { 0int }),
        {
            if p[i] != s[k + i] {
                proof {
                    assert(p@[i as int] != s@[k + i as int]);
                }
                matched = false;
            } else {
                i = i + 1;
            }
        }
        if matched {
            proof {
                assert(occurs_at(p@, s@, k as int));
            }
            found = true;
        } else {
            k = k + 1;
        }
    }
    proof {
        if !found && spec_contains(p@, s@) {
            let m = choose|m: int| occurs_at(p@, s@, m);
            assert(m <= last_start);
        }
    }
    found
}

} // verus!
