//! Phonetic capabilities built on Soundex codes.

use vstd::prelude::*;
use crate::capability::Capability;
use crate::chars::{lower_of, upper_of, lowercase, uppercase, chars_vec, str_chars_vec,
    string_from_chars};
use crate::score::{Measurement, MetricFailure, SCALE, PERFECT_GATE, valid_score};

verus! {

/// Score granted when two Soundex codes agree exactly (0.85).
pub const SOUNDEX_EQUAL_SCORE: u64 = 850_000;

/// Score granted per agreeing code position under the simplified
/// metaphone fallback (0.8).
pub const METAPHONE_EQUAL_SCORE: u64 = 800_000;

/// Score granted per position of the common code prefix (0.6 / 4).
pub const PREFIX_STEP_SCORE: u64 = 150_000;

/// First-letter bonus of the partial Soundex score (0.1).
pub const FIRST_LETTER_BONUS: u64 = 100_000;

/// The Soundex digit of a lowercase character; zero for vowels and
/// anything uncoded.
pub open spec fn spec_digit_lower(c: char) -> int {
    if c == 'b' || c == 'f' || c == 'p' || c == 'v' {
        1
    } else if c == 'c' || c == 'g' || c == 'j' || c == 'k' || c == 'q' || c == 's' || c == 'x'
        || c == 'z' {
        2
    } else if c == 'd' || c == 't' {
        3
    } else if c == 'l' {
        4
    } else if c == 'm' || c == 'n' {
        5
    } else if c == 'r' {
        6
    } else {
        0
    }
}

/// The Soundex digit of an uppercase character.
pub open spec fn spec_digit_upper(c: char) -> int {
    if c == 'B' || c == 'F' || c == 'P' || c == 'V' {
        1
    } else if c == 'C' || c == 'G' || c == 'J' || c == 'K' || c == 'Q' || c == 'S' || c == 'X'
        || c == 'Z' {
        2
    } else if c == 'D' || c == 'T' {
        3
    } else if c == 'L' {
        4
    } else if c == 'M' || c == 'N' {
        5
    } else if c == 'R' {
        6
    } else {
        0
    }
}

/// The Soundex digit of an uppercase character with the additional
/// international mappings applied.
pub open spec fn spec_digit_upper_intl(c: char) -> int {
    if c == 'Ñ' || c == 'Ń' {
        5
    } else if c == 'Ç' {
        2
    } else if c == 'Ø' || c == 'Ö' || c == 'Æ' {
        0
    } else if c == 'Ł' {
        4
    } else {
        spec_digit_upper(c)
    }
}

/// The character for a nonzero Soundex digit.
pub open spec fn spec_digit_char(d: int) -> char {
    if d == 1 {
        '1'
    } else if d == 2 {
        '2'
    } else if d == 3 {
        '3'
    } else if d == 4 {
        '4'
    } else if d == 5 {
        '5'
    } else if d == 6 {
        '6'
    } else {
        '0'
    }
}

/// ASCII uppercasing of one character.
pub open spec fn spec_ascii_upper(c: char) -> char {
    if c == 'a' {
        'A'
    } else if c == 'b' {
        'B'
    } else if c == 'c' {
        'C'
    } else if c == 'd' {
        'D'
    } else if c == 'e' {
        'E'
    } else if c == 'f' {
        'F'
    } else if c == 'g' {
        'G'
    } else if c == 'h' {
        'H'
    } else if c == 'i' {
        'I'
    } else if c == 'j' {
        'J'
    } else if c == 'k' {
        'K'
    } else if c == 'l' {
        'L'
    } else if c == 'm' {
        'M'
    } else if c == 'n' {
        'N'
    } else if c == 'o' {
        'O'
    } else if c == 'p' {
        'P'
    } else if c == 'q' {
        'Q'
    } else if c == 'r' {
        'R'
    } else if c == 's' {
        'S'
    } else if c == 't' {
        'T'
    } else if c == 'u' {
        'U'
    } else if c == 'v' {
        'V'
    } else if c == 'w' {
        'W'
    } else if c == 'x' {
        'X'
    } else if c == 'y' {
        'Y'
    } else if c == 'z' {
        'Z'
    } else {
        c
    }
}

/// Whether a character is an ASCII letter.
pub open spec fn spec_is_ascii_alpha(c: char) -> bool {
    (97 <= c as u32 <= 122) || (65 <= c as u32 <= 90)
}

fn digit_lower(c: char) -> (r: u32)
    ensures
        r as int == spec_digit_lower(c),
{
    match c {
        'b' | 'f' | 'p' | 'v' => 1,
        'c' | 'g' | 'j' | 'k' | 'q' | 's' | 'x' | 'z' => 2,
        'd' | 't' => 3,
        'l' => 4,
        'm' | 'n' => 5,
        'r' => 6,
        _ => 0,
    }
}

fn digit_upper(c: char, international: bool) -> (r: u32)
    ensures
        international ==> r as int == spec_digit_upper_intl(c),
        !international ==> r as int == spec_digit_upper(c),
{
    if international {
        match c {
            'Ñ' | 'Ń' => 5,
            'Ç' => 2,
            'Ø' | 'Ö' | 'Æ' => 0,
            'Ł' => 4,
            'B' | 'F' | 'P' | 'V' => 1,
            'C' | 'G' | 'J' | 'K' | 'Q' | 'S' | 'X' | 'Z' => 2,
            'D' | 'T' => 3,
            'L' => 4,
            'M' | 'N' => 5,
            'R' => 6,
            _ => 0,
        }
    } else {
        match c {
            'B' | 'F' | 'P' | 'V' => 1,
            'C' | 'G' | 'J' | 'K' | 'Q' | 'S' | 'X' | 'Z' => 2,
            'D' | 'T' => 3,
            'L' => 4,
            'M' | 'N' => 5,
            'R' => 6,
            _ => 0,
        }
    }
}

fn digit_char(d: u32) -> (r: char)
    ensures
        r == spec_digit_char(d as int),
{
    match d {
        1 => '1',
        2 => '2',
        3 => '3',
        4 => '4',
        5 => '5',
        6 => '6',
        _ => '0',
    }
}

fn ascii_upper(c: char) -> (r: char)
    ensures
        r == spec_ascii_upper(c),
{
    match c {
        'a' => 'A',
        'b' => 'B',
        'c' => 'C',
        'd' => 'D',
        'e' => 'E',
        'f' => 'F',
        'g' => 'G',
        'h' => 'H',
        'i' => 'I',
        'j' => 'J',
        'k' => 'K',
        'l' => 'L',
        'm' => 'M',
        'n' => 'N',
        'o' => 'O',
        'p' => 'P',
        'q' => 'Q',
        'r' => 'R',
        's' => 'S',
        't' => 'T',
        'u' => 'U',
        'v' => 'V',
        'w' => 'W',
        'x' => 'X',
        'y' => 'Y',
        'z' => 'Z',
        _ => c,
    }
}

fn is_ascii_alpha(c: char) -> (r: bool)
    ensures
        r == spec_is_ascii_alpha(c),
{
    let v = c as u32;
    (97 <= v && v <= 122) || (65 <= v && v <= 90)
}

/// The four-character phonetic code loop: the first character is kept
/// uppercased, later characters contribute their digit when it is
/// nonzero and differs from the previous character's digit, and the
/// code stops at four characters.
pub open spec fn spec_phonetic_loop(s: Seq<char>, i: int, prev: int, acc: Seq<char>) -> Seq<char>
    decreases s.len() - i,
{
    if i < 0 || i >= s.len() {
        acc
    } else {
        let code = spec_digit_lower(s[i]);
        let acc2 = if i == 0 {
            acc.push(spec_ascii_upper(s[i]))
        } else if code != 0 && code != prev {
            acc.push(spec_digit_char(code))
        } else {
            acc
        };
        if acc2.len() >= 4 {
            acc2
        } else {
            spec_phonetic_loop(s, i + 1, code, acc2)
        }
    }
}

/// Right-pads a code with zeros to the given length.
pub open spec fn spec_pad(a: Seq<char>, n: int) -> Seq<char> {
    if a.len() >= n {
        a
    } else {
        a + Seq::new((n - a.len()) as nat, |i: int| '0')
    }
}

/// The phonetic code of a string: four characters derived from its
/// lowercased form, zero-padded; an empty string codes as "0000".
pub open spec fn spec_phonetic_code(s: Seq<char>) -> Seq<char> {
    let low = lower_of(s);
    if low.len() == 0 {
        seq!['0', '0', '0', '0']
    } else {
        spec_pad(spec_phonetic_loop(low, 0, 0, Seq::empty()), 4)
    }
}

pub proof fn lemma_phonetic_loop_len(s: Seq<char>, i: int, prev: int, acc: Seq<char>)
    requires
        acc.len() < 4,
    ensures
        acc.len() <= spec_phonetic_loop(s, i, prev, acc).len() <= 4,
    decreases s.len() - i,
{
    if 0 <= i < s.len() {
        let code = spec_digit_lower(s[i]);
        let acc2 = if i == 0 {
            acc.push(spec_ascii_upper(s[i]))
        } else if code != 0 && code != prev {
            acc.push(spec_digit_char(code))
        } else {
            acc
        };
        if acc2.len() < 4 {
            lemma_phonetic_loop_len(s, i + 1, code, acc2);
        }
    }
}

/// The phonetic code always holds exactly four characters.
pub proof fn lemma_phonetic_code_len(s: Seq<char>)
    ensures
        spec_phonetic_code(s).len() == 4,
{
    let low = lower_of(s);
    if low.len() > 0 {
        lemma_phonetic_loop_len(low, 0, 0, Seq::empty());
    }
}

/// Computes the phonetic code of the lowercased string.
fn phonetic_code(s: &String) -> (r: Vec<char>)
    ensures
        r@ == spec_phonetic_code(s@),
        r@.len() == 4,
{
    proof {
        lemma_phonetic_code_len(s@);
    }
    let low = chars_vec(&lowercase(s));
    let n = low.len();
    if n == 0 {
        let mut out: Vec<char> = Vec::new();
        out.push('0');
        out.push('0');
        out.push('0');
        out.push('0');
        proof {
            assert(out@ =~= seq!['0', '0', '0', '0']);
        }
        return out;
    }
    let mut acc: Vec<char> = Vec::new();
    let mut prev: u32 = 0;
    let mut i: usize = 0;
    proof {
        assert(acc@ =~= Seq::<char>::empty());
    }
    while i < n && acc.len() < 4
        invariant
            i <= n,
            n == low@.len(),
            low@ == lower_of(s@),
            acc@.len() <= 4,
            acc@.len() < 4 ==> spec_phonetic_loop(low@, 0, 0, Seq::empty())
                == spec_phonetic_loop(low@, i as int, prev as int, acc@),
            acc@.len() >= 4 ==> spec_phonetic_loop(low@, 0, 0, Seq::empty()) == acc@,
        decreases n - i,
    {
        let code = digit_lower(low[i]);
        if i == 0 {
            acc.push(ascii_upper(low[0]));
        } else if code != 0 && code != prev {
            acc.push(digit_char(code));
        }
        prev = code;
        i = i + 1;
    }
    proof {
        assert(spec_phonetic_loop(low@, 0, 0, Seq::empty()) == acc@);
    }
    while acc.len() < 4
        invariant
            acc@.len() <= 4,
            spec_pad(spec_phonetic_loop(low@, 0, 0, Seq::empty()), 4) == spec_pad(acc@, 4),
            low@ == lower_of(s@),
        decreases 4 - acc@.len(),
    {
        let ghost before = acc@;
        acc.push('0');
        proof {
            assert(spec_pad(before, 4) =~= spec_pad(acc@, 4));
        }
    }
    proof {
        assert(spec_pad(acc@, 4) == acc@);
        assert(acc@ == spec_phonetic_code(s@));
    }
    acc
}

/// Number of agreeing positions from the front of two codes.
pub open spec fn spec_common_prefix(a: Seq<char>, b: Seq<char>, i: int) -> int
    decreases a.len() - i,
{
    if i < 0 || i >= a.len() || i >= b.len() {
        i
    } else if a[i] == b[i] {
        spec_common_prefix(a, b, i + 1)
    } else {
        i
    }
}

/// Number of agreeing positions anywhere in two codes of equal length.
pub open spec fn spec_matching_positions(a: Seq<char>, b: Seq<char>, i: int) -> int
    decreases a.len() - i,
{
    if i < 0 || i >= a.len() || i >= b.len() {
        0
    } else {
        spec_matching_positions(a, b, i + 1) + (if a[i] == b[i] {
            1int
        } else {
            0int
        })
    }
}

/// Which phonetic comparison a `PhoneticScorer` applies.
#[derive(Clone, Copy, Debug, PartialEq, Eq, Structural)]
pub enum PhoneticMode {
    /// Plain Soundex code comparison with a common-prefix fallback.
    Soundex,
    /// Simplified metaphone: case-insensitive equality first, then
    /// Soundex codes.
    DoubleMetaphone,
}

/// Phonetic similarity of two strings through their four-character
/// codes.
#[derive(Clone, Copy, Debug, PartialEq, Eq, Structural)]
pub struct PhoneticScorer {
    /// The comparison mode.
    pub mode: PhoneticMode,
}

impl Default for PhoneticScorer {
    /// Soundex comparison.
    fn default() -> (r: PhoneticScorer)
        ensures
            r.mode == PhoneticMode::Soundex,
    {
        PhoneticScorer { mode: PhoneticMode::Soundex }
    }
}

impl PhoneticScorer {
    /// A scorer with the given mode.
    pub fn new(mode: PhoneticMode) -> (r: PhoneticScorer)
        ensures
            r.mode == mode,
    {
        PhoneticScorer { mode }
    }

    /// The four-character phonetic code of a string.
    pub fn soundex(&self, s: &String) -> (r: String)
        ensures
            r@ == spec_phonetic_code(s@),
    {
        let code = phonetic_code(s);
        string_from_chars(&code)
    }

    /// The score the scorer assigns, as a spec-level value.
    pub open spec fn spec_phonetic_score(&self, q: Seq<char>, c: Seq<char>) -> int {
        let qc = spec_phonetic_code(q);
        let cc = spec_phonetic_code(c);
        match self.mode {
            PhoneticMode::Soundex => {
                if qc == cc {
                    SOUNDEX_EQUAL_SCORE as int
                } else {
                    let cp = spec_common_prefix(qc, cc, 0);
                    if cp > 0 {
                        PREFIX_STEP_SCORE * cp
                    } else {
                        0
                    }
                }
            },
            PhoneticMode::DoubleMetaphone => {
                if lower_of(q) == lower_of(c) {
                    SCALE as int
                } else if qc == cc {
                    METAPHONE_EQUAL_SCORE as int
                } else {
                    0
                }
            },
        }
    }
}

pub proof fn lemma_common_prefix_bounds(a: Seq<char>, b: Seq<char>, i: int)
    requires
        0 <= i <= a.len(),
    ensures
        i <= spec_common_prefix(a, b, i) <= a.len(),
    decreases a.len() - i,
{
    if i < a.len() && i < b.len() && a[i] == b[i] {
        lemma_common_prefix_bounds(a, b, i + 1);
    }
}

/// The common-prefix length of two codes, computed.
fn common_prefix(a: &Vec<char>, b: &Vec<char>) -> (r: usize)
    ensures
        r as int == spec_common_prefix(a@, b@, 0),
        r <= a@.len(),
{
    let mut i: usize = 0;
    while i < a.len() && i < b.len() && a[i] == b[i]
        invariant
            i <= a@.len(),
            spec_common_prefix(a@, b@, 0) == spec_common_prefix(a@, b@, i as int),
        decreases a@.len() - i,
    {
        i = i + 1;
    }
    i
}

impl Capability for PhoneticScorer {
    open spec fn wf(&self) -> bool {
        true
    }

    open spec fn total(&self) -> bool {
        true
    }

    open spec fn spec_score(&self, q: Seq<char>, c: Seq<char>) -> u64 {
        self.spec_phonetic_score(q, c) as u64
    }

    open spec fn spec_perfect(&self, q: Seq<char>, c: Seq<char>) -> bool {
        q == c
    }

    fn measure(&self, query: &String, candidate: &String) -> (r: Result<
        Measurement,
        MetricFailure,
    >) {
        let perfect = query.eq(candidate);
        let qc = phonetic_code(query);
        let cc = phonetic_code(candidate);
        let codes_equal = crate::chars::chars_equal(&qc, &cc);
        let score: u64 = match self.mode {
            PhoneticMode::Soundex => {
                if codes_equal {
                    SOUNDEX_EQUAL_SCORE
                } else {
                    proof {
                        lemma_common_prefix_bounds(qc@, cc@, 0);
                    }
                    let cp = common_prefix(&qc, &cc);
                    if cp > 0 {
                        PREFIX_STEP_SCORE * (cp as u64)
                    } else {
                        0
                    }
                }
            },
            PhoneticMode::DoubleMetaphone => {
                let q_low = lowercase(query);
                let c_low = lowercase(candidate);
                if q_low.eq(&c_low) {
                    SCALE
                } else if codes_equal {
                    METAPHONE_EQUAL_SCORE
                } else {
                    0
                }
            },
        };
        Ok(Measurement { score, perfect })
    }
}

/// Index of the first ASCII letter at or after `i`, or the length if
/// none remains.
pub open spec fn spec_first_alpha(s: Seq<char>, i: int) -> int
    decreases s.len() - i,
{
    if i < 0 || i >= s.len() {
        s.len() as int
    } else if spec_is_ascii_alpha(s[i]) {
        i
    } else {
        spec_first_alpha(s, i + 1)
    }
}

/// The digit collection loop of the classic Soundex code: every coded
/// consonant contributes its digit unless it repeats the previous coded
/// digit; vowels and uncoded characters are skipped without resetting
/// the previous digit.
pub open spec fn spec_soundex_digits(s: Seq<char>, intl: bool, i: int, last: int, acc: Seq<char>) -> Seq<
    char,
>
    decreases s.len() - i,
{
    if i < 0 || i >= s.len() {
        acc
    } else {
        let d = if intl {
            spec_digit_upper_intl(s[i])
        } else {
            spec_digit_upper(s[i])
        };
        if d == 0 {
            spec_soundex_digits(s, intl, i + 1, last, acc)
        } else if d != last {
            spec_soundex_digits(s, intl, i + 1, d, acc.push(spec_digit_char(d)))
        } else {
            spec_soundex_digits(s, intl, i + 1, last, acc)
        }
    }
}

/// The classic Soundex code of a string: the first letter of its
/// uppercased form followed by the collected digits, zero-padded or cut
/// to one more than the compare length. A string without an ASCII
/// letter codes as "0000".
pub open spec fn spec_soundex_code(s: Seq<char>, mcl: int, intl: bool) -> Seq<char> {
    if s.len() == 0 {
        seq!['0', '0', '0', '0']
    } else {
        let up = upper_of(s);
        let fi = spec_first_alpha(up, 0);
        if fi >= up.len() {
            seq!['0', '0', '0', '0']
        } else {
            let raw = seq![up[fi]] + spec_soundex_digits(up, intl, 0, 0, Seq::empty());
            if raw.len() > mcl + 1 {
                raw.subrange(0, mcl + 1)
            } else {
                spec_pad(raw, mcl + 1)
            }
        }
    }
}

/// Computes the classic Soundex code, exactly as `spec_soundex_code`
/// says.
fn soundex_code(s: &str, mcl: usize, intl: bool) -> (r: Vec<char>)
    requires
        1 <= mcl <= 10,
    ensures
        r@ == spec_soundex_code(s@, mcl as int, intl),
        r@.len() == mcl + 1 || r@.len() == 4,
{
    let chars = str_chars_vec(s);
    if chars.len() == 0 {
        let mut out: Vec<char> = Vec::new();
        out.push('0');
        out.push('0');
        out.push('0');
        out.push('0');
        proof {
            assert(out@ =~= seq!['0', '0', '0', '0']);
        }
        return out;
    }
    let upper_string = uppercase(&crate::chars::string_from_chars(&chars));
    let up = chars_vec(&upper_string);
    proof {
        assert(chars@ == s@);
        assert(up@ == upper_of(s@));
    }
    let n = up.len();
    let mut fi: usize = 0;
    while fi < n && !is_ascii_alpha(up[fi])
        invariant
            fi <= n,
            n == up@.len(),
            spec_first_alpha(up@, 0) == spec_first_alpha(up@, fi as int),
        decreases n - fi,
    {
        fi = fi + 1;
    }
    if fi >= n {
        let mut out: Vec<char> = Vec::new();
        out.push('0');
        out.push('0');
        out.push('0');
        out.push('0');
        proof {
            assert(out@ =~= seq!['0', '0', '0', '0']);
        }
        return out;
    }
    let mut digits: Vec<char> = Vec::new();
    let mut last: u32 = 0;
    let mut i: usize = 0;
    proof {
        assert(digits@ =~= Seq::<char>::empty());
    }
    while i < n
        invariant
            i <= n,
            n == up@.len(),
            spec_soundex_digits(up@, intl, 0, 0, Seq::empty()) == spec_soundex_digits(
                up@,
                intl,
                i as int,
                last as int,
                digits@,
            ),
        decreases n - i,
    {
        let d = digit_upper(up[i], intl);
        if d != 0 && d != last {
            digits.push(digit_char(d));
            last = d;
        }
        i = i + 1;
    }
    let mut out: Vec<char> = Vec::new();
    out.push(up[fi]);
    let mut t: usize = 0;
    while t < digits.len()
        invariant
            t <= digits@.len(),
            out@ == seq![up@[fi as int]] + digits@.take(t as int),
        decreases digits@.len() - t,
    {
        out.push(digits[t]);
        proof {
            assert(out@ =~= seq![up@[fi as int]] + digits@.take(t + 1));
        }
        t = t + 1;
    }
    proof {
        assert(digits@.take(digits@.len() as int) =~= digits@);
    }
    let ghost raw = seq![up@[fi as int]] + digits@;
    let target = mcl + 1;
    if out.len() > target {
        out.truncate(target);
        proof {
            assert(out@ =~= raw.subrange(0, target as int));
        }
    } else {
        while out.len() < target
            invariant
                out@.len() <= target,
                target == mcl + 1,
                raw.len() <= target ==> spec_pad(raw, target as int) == spec_pad(
                    out@,
                    target as int,
                ),
                raw.len() <= target,
            decreases target - out@.len(),
        {
            let ghost before = out@;
            out.push('0');
            proof {
                assert(spec_pad(before, target as int) =~= spec_pad(out@, target as int));
            }
        }
        proof {
            assert(spec_pad(out@, target as int) == out@);
        }
    }
    out
}

/// The shared Soundex similarity: full score for equal codes, else the
/// share of agreeing code positions plus a first-letter bonus, clamped
/// to one unit.
pub open spec fn spec_soundex_score(q: Seq<char>, c: Seq<char>, mcl: int, intl: bool) -> int {
    if q.len() == 0 && c.len() == 0 {
        SCALE as int
    } else if q.len() == 0 || c.len() == 0 {
        0
    } else {
        let qc = spec_soundex_code(q, mcl, intl);
        let cc = spec_soundex_code(c, mcl, intl);
        if qc == cc {
            SCALE as int
        } else {
            let matching = spec_matching_positions(qc, cc, 0);
            let bonus: int = if qc.len() > 0 && cc.len() > 0 && qc[0] == cc[0] {
                FIRST_LETTER_BONUS as int
            } else {
                0
            };
            let raw = matching * SCALE / mcl + bonus;
            if raw > SCALE {
                SCALE as int
            } else {
                raw
            }
        }
    }
}

/// The shared scoring body of the two Soundex capabilities.
fn soundex_score(query: &String, candidate: &String, mcl: usize, intl: bool) -> (r: u64)
    requires
        1 <= mcl <= 10,
    ensures
        r as int == spec_soundex_score(query@, candidate@, mcl as int, intl),
        valid_score(r),
{
    let q_chars = chars_vec(query);
    let c_chars = chars_vec(candidate);
    if q_chars.len() == 0 && c_chars.len() == 0 {
        return SCALE;
    }
    if q_chars.len() == 0 || c_chars.len() == 0 {
        return 0;
    }
    let qc = soundex_code(query.as_str(), mcl, intl);
    let cc = soundex_code(candidate.as_str(), mcl, intl);
    if crate::chars::chars_equal(&qc, &cc) {
        return SCALE;
    }
    let shorter: usize = if qc.len() < cc.len() {
        qc.len()
    } else {
        cc.len()
    };
    let mut matching: usize = 0;
    let mut i: usize = shorter;
    proof {
        if qc@.len() <= cc@.len() {
            assert(spec_matching_positions(qc@, cc@, shorter as int) == 0);
        } else {
            assert(spec_matching_positions(qc@, cc@, shorter as int) == 0);
        }
    }
    while i > 0
        invariant
            i <= shorter,
            shorter <= qc@.len(),
            shorter <= cc@.len(),
            shorter == (if qc@.len() < cc@.len() { qc@.len() as int } else { cc@.len() as int }),
            matching as int == spec_matching_positions(qc@, cc@, i as int),
            matching <= shorter - i,
        decreases i,
    {
        i = i - 1;
        if qc[i] == cc[i] {
            matching = matching + 1;
        }
    }
    let first_equal = qc[0] == cc[0];
    let bonus: u64 = if first_equal {
        FIRST_LETTER_BONUS
    } else {
        0
    };
    proof {
        assert(matching as int * (SCALE as int) <= 11 * (SCALE as int)) by (nonlinear_arith)
            requires 0 <= matching as int <= 11;
        assert(matching as int * (SCALE as int) / (mcl as int) >= 0) by (nonlinear_arith)
            requires 0 <= matching as int * (SCALE as int) && mcl as int >= 1;
    }
    let raw: u64 = ((matching as u64) * SCALE) / (mcl as u64) + bonus;
    if raw > SCALE {
        SCALE
    } else {
        raw
    }
}

/// Soundex similarity with a configurable code length and optional
/// international digit mappings.
#[derive(Clone, Copy, Debug, PartialEq, Eq, Structural)]
pub struct SoundexSimilarity {
    /// Number of digit positions compared (the code is one longer).
    pub max_compare_length: usize,
    /// Whether the additional international mappings apply.
    pub international_mode: bool,
}

impl Default for SoundexSimilarity {
    /// The standard four-position code.
    fn default() -> (r: SoundexSimilarity)
        ensures
            r.max_compare_length == 4,
            !r.international_mode,
    {
        SoundexSimilarity { max_compare_length: 4, international_mode: false }
    }
}

impl SoundexSimilarity {
    /// A scorer with the compare length clamped into `1 ..= 10`.
    pub fn new(max_compare_length: usize, international_mode: bool) -> (r: SoundexSimilarity)
        ensures
            r.wf(),
            r.international_mode == international_mode,
            r.max_compare_length == (if max_compare_length < 1 {
                1int
            } else if max_compare_length > 10 {
                10int
            } else {
                max_compare_length as int
            }),
    {
        let clamped: usize = if max_compare_length < 1 {
            1
        } else if max_compare_length > 10 {
            10
        } else {
            max_compare_length
        };
        SoundexSimilarity { max_compare_length: clamped, international_mode }
    }

    /// The Soundex code of a string under this configuration.
    pub fn soundex(&self, s: &str) -> (r: String)
        requires
            self.wf(),
        ensures
            r@ == spec_soundex_code(s@, self.max_compare_length as int, self.international_mode),
    {
        let code = soundex_code(s, self.max_compare_length, self.international_mode);
        string_from_chars(&code)
    }
}

impl Capability for SoundexSimilarity {
    open spec fn wf(&self) -> bool {
        1 <= self.max_compare_length <= 10
    }

    open spec fn total(&self) -> bool {
        true
    }

    open spec fn spec_score(&self, q: Seq<char>, c: Seq<char>) -> u64 {
        spec_soundex_score(q, c, self.max_compare_length as int, self.international_mode) as u64
    }

    open spec fn spec_perfect(&self, q: Seq<char>, c: Seq<char>) -> bool {
        self.spec_score(q, c) >= PERFECT_GATE
    }

    fn measure(&self, query: &String, candidate: &String) -> (r: Result<
        Measurement,
        MetricFailure,
    >) {
        let score = soundex_score(query, candidate, self.max_compare_length,
            self.international_mode);
        Ok(Measurement { score, perfect: score >= PERFECT_GATE })
    }
}

/// Soundex similarity that reports a perfect match exactly when the two
/// codes agree (or both strings are empty).
#[derive(Clone, Copy, Debug, PartialEq, Eq, Structural)]
pub struct SoundexScorer {
    /// Number of digit positions compared (the code is one longer).
    pub max_compare_length: usize,
    /// Whether the additional international mappings apply.
    pub international_mode: bool,
}

impl Default for SoundexScorer {
    /// The standard four-position code.
    fn default() -> (r: SoundexScorer)
        ensures
            r.max_compare_length == 4,
            !r.international_mode,
    {
        SoundexScorer { max_compare_length: 4, international_mode: false }
    }
}

impl SoundexScorer {
    /// A scorer with the compare length clamped into `1 ..= 10`.
    pub fn new(max_compare_length: usize, international_mode: bool) -> (r: SoundexScorer)
        ensures
            r.wf(),
            r.international_mode == international_mode,
            r.max_compare_length == (if max_compare_length < 1 {
                1int
            } else if max_compare_length > 10 {
                10int
            } else {
                max_compare_length as int
            }),
    {
        let clamped: usize = if max_compare_length < 1 {
            1
        } else if max_compare_length > 10 {
            10
        } else {
            max_compare_length
        };
        SoundexScorer { max_compare_length: clamped, international_mode }
    }

    /// The Soundex code of a string under this configuration.
    pub fn soundex(&self, s: &str) -> (r: String)
        requires
            self.wf(),
        ensures
            r@ == spec_soundex_code(s@, self.max_compare_length as int, self.international_mode),
    {
        let code = soundex_code(s, self.max_compare_length, self.international_mode);
        string_from_chars(&code)
    }
}

impl Capability for SoundexScorer {
    open spec fn wf(&self) -> bool {
        1 <= self.max_compare_length <= 10
    }

    open spec fn total(&self) -> bool {
        true
    }

    open spec fn spec_score(&self, q: Seq<char>, c: Seq<char>) -> u64 {
        spec_soundex_score(q, c, self.max_compare_length as int, self.international_mode) as u64
    }

    open spec fn spec_perfect(&self, q: Seq<char>, c: Seq<char>) -> bool {
        self.spec_score(q, c) == SCALE
    }

    fn measure(&self, query: &String, candidate: &String) -> (r: Result<
        Measurement,
        MetricFailure,
    >) {
        let score = soundex_score(query, candidate, self.max_compare_length,
            self.international_mode);
        Ok(Measurement { score, perfect: score == SCALE })
    }
}

pub proof fn lemma_phonetic_score_bounds(scorer: PhoneticScorer, q: Seq<char>, c: Seq<char>)
    ensures
        0 <= scorer.spec_phonetic_score(q, c) <= SCALE,
{
    let qc = spec_phonetic_code(q);
    let cc = spec_phonetic_code(c);
    lemma_phonetic_code_len(q);
    lemma_phonetic_code_len(c);
    match scorer.mode {
        PhoneticMode::Soundex => {
            if qc != cc {
                lemma_common_prefix_bounds(qc, cc, 0);
            }
        },
        PhoneticMode::DoubleMetaphone => {},
    }
}

pub proof fn lemma_soundex_score_bounds(q: Seq<char>, c: Seq<char>, mcl: int, intl: bool)
    requires
        1 <= mcl <= 10,
    ensures
        0 <= spec_soundex_score(q, c, mcl, intl) <= SCALE,
{
    if q.len() > 0 && c.len() > 0 {
        let qc = spec_soundex_code(q, mcl, intl);
        let cc = spec_soundex_code(c, mcl, intl);
        if qc != cc {
            lemma_matching_nonneg(qc, cc, 0);
            assert(spec_matching_positions(qc, cc, 0) * SCALE / mcl >= 0) by (nonlinear_arith)
                requires 0 <= spec_matching_positions(qc, cc, 0) && mcl >= 1;
        }
    }
}

pub proof fn lemma_matching_nonneg(a: Seq<char>, b: Seq<char>, i: int)
    ensures
        spec_matching_positions(a, b, i) >= 0,
    decreases a.len() - i,
{
    if 0 <= i && i < a.len() && i < b.len() {
        lemma_matching_nonneg(a, b, i + 1);
    }
}

} // verus!
