//! Token-based capabilities: splitting on separators and camel-case
//! boundaries, best-match token similarity, and acronym detection.

use vstd::prelude::*;
use crate::capability::Capability;
use crate::chars::{lower_of, lowercase, chars_vec, str_chars_vec, string_from_chars, char_upper,
    is_uppercase_char, spec_contains, contains_seq};
use crate::fuzzy::{imax, spec_damerau, osa_distance, lemma_osa_bounds};
use crate::score::{Measurement, MetricFailure, SCALE, STRING_MAX, valid_score};

verus! {

/// Score granted when a query matches the candidate's first letters
/// (0.75).
pub const ACRONYM_SCORE: u64 = 750_000;

/// Gate above which a token pair counts as matched (0.8).
pub const TOKEN_MATCH_GATE: u64 = 800_000;

/// Default cap on acronym length.
pub const ACRONYM_MAX: usize = 5;

/// One step of tokenization: characters are consumed left to right; a
/// separator ends the current token, and an uppercase character after a
/// non-uppercase one starts a new token.
pub open spec fn spec_split_from(
    chars: Seq<char>,
    seps: Seq<char>,
    i: int,
    current: Seq<char>,
    tokens: Seq<Seq<char>>,
) -> Seq<Seq<char>>
    decreases chars.len() - i,
{
    if i < 0 || i >= chars.len() {
        if current.len() > 0 {
            tokens.push(current)
        } else {
            tokens
        }
    } else {
        let ch = chars[i];
        if seps.contains(ch) {
            if current.len() > 0 {
                spec_split_from(chars, seps, i + 1, Seq::empty(), tokens.push(current))
            } else {
                spec_split_from(chars, seps, i + 1, Seq::empty(), tokens)
            }
        } else if current.len() > 0 && !char_upper(current.last()) && char_upper(ch) {
            spec_split_from(chars, seps, i + 1, seq![ch], tokens.push(current))
        } else {
            spec_split_from(chars, seps, i + 1, current.push(ch), tokens)
        }
    }
}

/// The tokens of a character sequence under the given separators.
pub open spec fn spec_tokens(chars: Seq<char>, seps: Seq<char>) -> Seq<Seq<char>> {
    spec_split_from(chars, seps, 0, Seq::empty(), Seq::empty())
}

/// The views of a token list.
pub open spec fn token_views(ss: Seq<String>) -> Seq<Seq<char>> {
    Seq::new(ss.len(), |i: int| ss[i]@)
}

/// Whether a character is one of the separators.
fn char_in(v: &Vec<char>, c: char) -> (r: bool)
    ensures
        r == v@.contains(c),
{
    let mut i: usize = 0;
    while i < v.len()
        invariant
            i <= v@.len(),
            forall|t: int| 0 <= t < i ==> v@[t] != c,
        decreases v@.len() - i,
    {
        if v[i] == c {
            return true;
        }
        i = i + 1;
    }
    proof {
        if v@.contains(c) {
            let t = choose|t: int| 0 <= t < v@.len() && v@[t] == c;
        }
    }
    false
}

/// Splits a character sequence into tokens, exactly as `spec_tokens`
/// says.
pub fn split_chars(chars: &Vec<char>, seps: &Vec<char>) -> (r: Vec<String>)
    ensures
        token_views(r@) == spec_tokens(chars@, seps@),
{
    let n = chars.len();
    let mut tokens: Vec<String> = Vec::new();
    let mut current: Vec<char> = Vec::new();
    let mut i: usize = 0;
    proof {
        assert(token_views(tokens@) =~= Seq::<Seq<char>>::empty());
        assert(current@ =~= Seq::<char>::empty());
    }
    while i < n
        invariant
            i <= n,
            n == chars@.len(),
            spec_tokens(chars@, seps@) == spec_split_from(
                chars@,
                seps@,
                i as int,
                current@,
                token_views(tokens@),
            ),
        decreases n - i,
    {
        let ghost old_tokens = token_views(tokens@);
        let ghost old_current = current@;
        let c = chars[i];
        if char_in(seps, c) {
            if current.len() > 0 {
                let token = string_from_chars(&current);
                tokens.push(token);
                current = Vec::new();
                proof {
                    assert(token_views(tokens@) =~= old_tokens.push(old_current));
                    assert(current@ =~= Seq::<char>::empty());
                }
            }
        } else {
            let boundary = current.len() > 0 && !is_uppercase_char(current[current.len() - 1])
                && is_uppercase_char(c);
            if boundary {
                let token = string_from_chars(&current);
                tokens.push(token);
                current = Vec::new();
                current.push(c);
                proof {
                    assert(token_views(tokens@) =~= old_tokens.push(old_current));
                    assert(current@ =~= seq![chars@[i as int]]);
                }
            } else {
                current.push(c);
            }
        }
        proof {
            assert(chars@[i as int] == c);
            if current@.len() == 0 {
                assert(current@ =~= Seq::<char>::empty());
            }
        }
        i = i + 1;
    }
    if current.len() > 0 {
        let token = string_from_chars(&current);
        tokens.push(token);
        proof {
            assert(token_views(tokens@) =~= token_views(tokens@.drop_last()).push(current@));
        }
    }
    tokens
}

/// The similarity of one token pair: exact equality is one unit,
/// anything else is the normalized edit-distance score of the pair, and
/// a pair of empties is nothing.
pub open spec fn spec_pair_sim(a: Seq<char>, b: Seq<char>) -> int {
    if a == b {
        SCALE as int
    } else {
        let longest = imax(a.len() as int, b.len() as int);
        if longest == 0 {
            0
        } else {
            SCALE * (longest - spec_damerau(a, b)) / longest
        }
    }
}

/// The best similarity a token reaches against any token of a list.
pub open spec fn spec_best_sim(t: Seq<char>, others: Seq<Seq<char>>) -> int
    decreases others.len(),
{
    if others.len() == 0 {
        0
    } else {
        let rest = spec_best_sim(t, others.drop_last());
        let last = spec_pair_sim(t, others.last());
        if last > rest {
            last
        } else {
            rest
        }
    }
}

/// Sum of the best similarities of the first list's tokens.
pub open spec fn spec_sim_total(ts: Seq<Seq<char>>, others: Seq<Seq<char>>) -> int
    decreases ts.len(),
{
    if ts.len() == 0 {
        0
    } else {
        spec_sim_total(ts.drop_last(), others) + spec_best_sim(ts.last(), others)
    }
}

/// How many of the first list's tokens exceed the match gate.
pub open spec fn spec_match_count(ts: Seq<Seq<char>>, others: Seq<Seq<char>>) -> int
    decreases ts.len(),
{
    if ts.len() == 0 {
        0
    } else {
        spec_match_count(ts.drop_last(), others) + (if spec_best_sim(ts.last(), others)
            > TOKEN_MATCH_GATE {
            1int
        } else {
            0int
        })
    }
}

pub proof fn lemma_pair_sim_bounds(a: Seq<char>, b: Seq<char>)
    ensures
        0 <= spec_pair_sim(a, b) <= SCALE,
{
    if a != b {
        let longest = imax(a.len() as int, b.len() as int);
        if longest > 0 {
            lemma_osa_bounds(a, b, a.len() as int, b.len() as int);
            assert(0 <= SCALE * (longest - spec_damerau(a, b)) / longest <= SCALE as int)
                by (nonlinear_arith)
                requires
                    longest > 0,
                    0 <= longest - spec_damerau(a, b) <= longest,
                    SCALE as int > 0;
        }
    }
}

pub proof fn lemma_best_sim_bounds(t: Seq<char>, others: Seq<Seq<char>>)
    ensures
        0 <= spec_best_sim(t, others) <= SCALE,
    decreases others.len(),
{
    if others.len() > 0 {
        lemma_best_sim_bounds(t, others.drop_last());
        lemma_pair_sim_bounds(t, others.last());
    }
}

pub proof fn lemma_sim_total_bounds(ts: Seq<Seq<char>>, others: Seq<Seq<char>>)
    ensures
        0 <= spec_sim_total(ts, others) <= ts.len() * SCALE,
        0 <= spec_match_count(ts, others) <= ts.len(),
    decreases ts.len(),
{
    if ts.len() > 0 {
        lemma_sim_total_bounds(ts.drop_last(), others);
        lemma_best_sim_bounds(ts.last(), others);
        assert((ts.len() - 1) * SCALE + SCALE == ts.len() * SCALE) by (nonlinear_arith);
    }
}

/// The blended token similarity: the mean of the best-match
/// similarities, raised in proportion to how many tokens matched
/// outright (up to half again), clamped to one unit; an empty side is
/// nothing.
pub open spec fn spec_token_similarity(ts: Seq<Seq<char>>, others: Seq<Seq<char>>) -> int {
    if ts.len() == 0 || others.len() == 0 {
        0
    } else {
        let mean = spec_sim_total(ts, others) / (ts.len() as int);
        let raw = mean + mean * spec_match_count(ts, others) / (2 * ts.len() as int);
        if raw > SCALE {
            SCALE as int
        } else {
            raw
        }
    }
}

/// The similarity of one token pair, exactly as `spec_pair_sim` says.
fn pair_sim(a: &String, b: &String) -> (r: u64)
    requires
        a@.len() <= STRING_MAX,
        b@.len() <= STRING_MAX,
    ensures
        r as int == spec_pair_sim(a@, b@),
        valid_score(r),
{
    if a.eq(b) {
        return SCALE;
    }
    let av = chars_vec(a);
    let bv = chars_vec(b);
    let m = av.len();
    let n = bv.len();
    if m == 0 && n == 0 {
        return 0;
    }
    let d = osa_distance(&av, &bv);
    let longest: usize = if m < n {
        n
    } else {
        m
    };
    proof {
        lemma_osa_bounds(a@, b@, m as int, n as int);
        assert((SCALE as int) * ((longest as int) - (d as int)) / (longest as int) <= SCALE as int)
            by (nonlinear_arith)
            requires
                longest as int > 0,
                0 <= (longest as int) - (d as int) <= longest as int,
                SCALE as int > 0;
        assert((SCALE as int) * ((longest as int) - (d as int)) >= 0) by (nonlinear_arith)
            requires 0 <= (longest as int) - (d as int);
    }
    let wide: u128 = (SCALE as u128) * ((longest - d) as u128);
    (wide / (longest as u128)) as u64
}

/// Whether every token in the list stays within the string length
/// limit.
pub open spec fn tokens_bounded(ts: Seq<String>) -> bool {
    forall|i: int| 0 <= i < ts.len() ==> (#[trigger] ts[i])@.len() <= STRING_MAX
}

/// The blended token similarity of two token lists, exactly as
/// `spec_token_similarity` says.
pub fn token_similarity(tokens1: &Vec<String>, tokens2: &Vec<String>) -> (r: u64)
    requires
        tokens_bounded(tokens1@),
        tokens_bounded(tokens2@),
        tokens1@.len() <= STRING_MAX,
    ensures
        r as int == spec_token_similarity(token_views(tokens1@), token_views(tokens2@)),
        valid_score(r),
{
    let ghost ts = token_views(tokens1@);
    let ghost others = token_views(tokens2@);
    if tokens1.len() == 0 || tokens2.len() == 0 {
        return 0;
    }
    let n1 = tokens1.len();
    let mut total: u64 = 0;
    let mut matches: u64 = 0;
    let mut i: usize = 0;
    while i < n1
        invariant
            i <= n1,
            n1 == tokens1@.len(),
            tokens_bounded(tokens1@),
            tokens_bounded(tokens2@),
            ts == token_views(tokens1@),
            others == token_views(tokens2@),
            n1 <= STRING_MAX,
            total as int == spec_sim_total(ts.take(i as int), others),
            matches as int == spec_match_count(ts.take(i as int), others),
            total <= (i as int) * (SCALE as int),
            matches <= i as u64,
        decreases n1 - i,
    {
        let mut best: u64 = 0;
        let mut j: usize = 0;
        while j < tokens2.len()
            invariant
                j <= tokens2@.len(),
                i < tokens1@.len(),
                tokens_bounded(tokens1@),
                tokens_bounded(tokens2@),
                others == token_views(tokens2@),
                best as int == spec_best_sim(tokens1@[i as int]@, others.take(j as int)),
                best <= SCALE,
            decreases tokens2@.len() - j,
        {
            proof {
                assert(others.take(j + 1).drop_last() =~= others.take(j as int));
                assert(others.take(j + 1).last() == tokens2@[j as int]@);
            }
            let sim = pair_sim(&tokens1[i], &tokens2[j]);
            if sim > best {
                best = sim;
            }
            j = j + 1;
        }
        proof {
            assert(others.take(tokens2@.len() as int) =~= others);
            assert(ts.take(i + 1).drop_last() =~= ts.take(i as int));
            assert(ts.take(i + 1).last() == tokens1@[i as int]@);
            assert((i as int) * (SCALE as int) + SCALE as int == ((i + 1) as int) * (
            SCALE as int)) by (nonlinear_arith);
            assert(((i + 1) as int) * (SCALE as int) <= (n1 as int) * (SCALE as int))
                by (nonlinear_arith)
                requires 0 <= (i + 1) as int <= n1 as int;
            assert((n1 as int) * (SCALE as int) <= (STRING_MAX as int) * (SCALE as int))
                by (nonlinear_arith)
                requires 0 <= n1 as int <= STRING_MAX as int;
        }
        total = total + best;
        if best > TOKEN_MATCH_GATE {
            matches = matches + 1;
        }
        i = i + 1;
    }
    proof {
        assert(ts.take(n1 as int) =~= ts);
        lemma_sim_total_bounds(ts, others);
    }
    let mean: u64 = total / (n1 as u64);
    proof {
        assert(total as int / (n1 as int) <= SCALE as int) by (nonlinear_arith)
            requires n1 as int > 0 && 0 <= total as int <= (n1 as int) * (SCALE as int);
        assert((mean as int) * (matches as int) <= (SCALE as int) * (n1 as int))
            by (nonlinear_arith)
            requires 0 <= mean as int <= SCALE as int && 0 <= matches as int <= n1 as int;
    }
    let boost: u128 = ((mean as u128) * (matches as u128)) / (2u128 * (n1 as u128));
    let raw: u128 = (mean as u128) + boost;
    if raw > (SCALE as u128) {
        SCALE
    } else {
        raw as u64
    }
}

/// The tokenizer's output extends the accumulator: earlier tokens stay,
/// and every new token is carved out of the remaining characters.
pub proof fn lemma_split_bounds(
    chars: Seq<char>,
    seps: Seq<char>,
    i: int,
    current: Seq<char>,
    tokens: Seq<Seq<char>>,
)
    requires
        0 <= i <= chars.len(),
    ensures
        spec_split_from(chars, seps, i, current, tokens).len() <= tokens.len() + (chars.len() - i)
            + (if current.len() > 0 { 1int } else { 0int }),
        spec_split_from(chars, seps, i, current, tokens).len() >= tokens.len(),
        forall|j: int|
            0 <= j < tokens.len() ==> #[trigger] spec_split_from(chars, seps, i, current, tokens)[j]
                == tokens[j],
        forall|j: int|
            tokens.len() <= j < spec_split_from(chars, seps, i, current, tokens).len()
                ==> (#[trigger] spec_split_from(chars, seps, i, current, tokens)[j]).len()
                <= current.len() + (chars.len() - i),
    decreases chars.len() - i,
{
    if i >= chars.len() {
    } else {
        let ch = chars[i];
        if seps.contains(ch) {
            if current.len() > 0 {
                lemma_split_bounds(chars, seps, i + 1, Seq::empty(), tokens.push(current));
            } else {
                lemma_split_bounds(chars, seps, i + 1, Seq::empty(), tokens);
            }
        } else if current.len() > 0 && !char_upper(current.last()) && char_upper(ch) {
            lemma_split_bounds(chars, seps, i + 1, seq![ch], tokens.push(current));
        } else {
            lemma_split_bounds(chars, seps, i + 1, current.push(ch), tokens);
        }
    }
}

/// Token-based similarity with configurable separators.
#[derive(Clone, Debug)]
pub struct TokenSimilarityScorer {
    /// The characters that split tokens, besides camel-case boundaries.
    pub separators: Vec<char>,
}

impl Default for TokenSimilarityScorer {
    /// Underscore, hyphen, dot and space.
    fn default() -> (r: TokenSimilarityScorer)
        ensures
            r.separators@ == seq!['_', '-', '.', ' '],
    {
        let mut separators: Vec<char> = Vec::new();
        separators.push('_');
        separators.push('-');
        separators.push('.');
        separators.push(' ');
        proof {
            assert(separators@ =~= seq!['_', '-', '.', ' ']);
        }
        TokenSimilarityScorer { separators }
    }
}

impl TokenSimilarityScorer {
    /// A scorer that splits on the given separators.
    pub fn new(separators: Vec<char>) -> (r: TokenSimilarityScorer)
        ensures
            r.separators@ == separators@,
    {
        TokenSimilarityScorer { separators }
    }

    /// Splits a string into tokens on the configured separators and on
    /// camel-case boundaries.
    pub fn split_on_separators(&self, s: &str) -> (r: Vec<String>)
        ensures
            token_views(r@) == spec_tokens(s@, self.separators@),
    {
        let chars = str_chars_vec(s);
        split_chars(&chars, &self.separators)
    }

    /// The blended similarity of two token lists.
    pub fn token_similarity(&self, tokens1: &Vec<String>, tokens2: &Vec<String>) -> (r: u64)
        requires
            tokens_bounded(tokens1@),
            tokens_bounded(tokens2@),
            tokens1@.len() <= STRING_MAX,
        ensures
            r as int == spec_token_similarity(token_views(tokens1@), token_views(tokens2@)),
            valid_score(r),
    {
        token_similarity(tokens1, tokens2)
    }
}

impl Capability for TokenSimilarityScorer {
    open spec fn wf(&self) -> bool {
        true
    }

    open spec fn total(&self) -> bool {
        true
    }

    open spec fn spec_score(&self, q: Seq<char>, c: Seq<char>) -> u64 {
        if lower_of(q).len() > STRING_MAX || lower_of(c).len() > STRING_MAX {
            0
        } else {
            spec_token_similarity(
                spec_tokens(lower_of(q), self.separators@),
                spec_tokens(lower_of(c), self.separators@),
            ) as u64
        }
    }

    open spec fn spec_perfect(&self, q: Seq<char>, c: Seq<char>) -> bool {
        q == c
    }

    fn measure(&self, query: &String, candidate: &String) -> (r: Result<
        Measurement,
        MetricFailure,
    >) {
        let perfect = query.eq(candidate);
        let q_low = chars_vec(&lowercase(query));
        let c_low = chars_vec(&lowercase(candidate));
        if q_low.len() > STRING_MAX || c_low.len() > STRING_MAX {
            return Ok(Measurement { score: 0, perfect });
        }
        let qt = split_chars(&q_low, &self.separators);
        let ct = split_chars(&c_low, &self.separators);
        proof {
            lemma_split_bounds(q_low@, self.separators@, 0, Seq::empty(), Seq::empty());
            lemma_split_bounds(c_low@, self.separators@, 0, Seq::empty(), Seq::empty());
            assert(tokens_bounded(qt@)) by {
                assert(forall|j: int|
                    0 <= j < qt@.len() ==> (#[trigger] token_views(qt@)[j]).len()
                        <= q_low@.len());
                assert(forall|j: int|
                    0 <= j < qt@.len() ==> (#[trigger] qt@[j])@ == token_views(qt@)[j]);
            }
            assert(tokens_bounded(ct@)) by {
                assert(forall|j: int|
                    0 <= j < ct@.len() ==> (#[trigger] token_views(ct@)[j]).len()
                        <= c_low@.len());
                assert(forall|j: int|
                    0 <= j < ct@.len() ==> (#[trigger] ct@[j])@ == token_views(ct@)[j]);
            }
        }
        let score = token_similarity(&qt, &ct);
        Ok(Measurement { score, perfect })
    }
}

/// The first letters of a token list, skipping empty tokens.
pub open spec fn spec_first_letters(ts: Seq<Seq<char>>) -> Seq<char>
    decreases ts.len(),
{
    if ts.len() == 0 {
        Seq::empty()
    } else {
        spec_first_letters(ts.drop_last()) + (if ts.last().len() > 0 {
            seq![ts.last()[0]]
        } else {
            Seq::empty()
        })
    }
}

/// Acronym detection: rewards short queries that spell out the first
/// letters of the candidate's tokens.
#[derive(Clone, Debug)]
pub struct AcronymScorer {
    /// Supplies the tokenizer configuration.
    pub token_scorer: TokenSimilarityScorer,
    /// Longest query still treated as an acronym.
    pub max_acronym_length: usize,
}

impl Default for AcronymScorer {
    /// Default separators, acronyms up to five characters.
    fn default() -> (r: AcronymScorer)
        ensures
            r.token_scorer.separators@ == seq!['_', '-', '.', ' '],
            r.max_acronym_length == ACRONYM_MAX,
    {
        AcronymScorer {
            token_scorer: TokenSimilarityScorer::default(),
            max_acronym_length: ACRONYM_MAX,
        }
    }
}

impl Capability for AcronymScorer {
    open spec fn wf(&self) -> bool {
        true
    }

    open spec fn total(&self) -> bool {
        true
    }

    open spec fn spec_score(&self, q: Seq<char>, c: Seq<char>) -> u64 {
        if q.len() > self.max_acronym_length {
            0
        } else {
            let ql = lower_of(q);
            let ct = spec_tokens(lower_of(c), self.token_scorer.separators@);
            if ct.len() < ql.len() {
                0
            } else if spec_contains(ql, spec_first_letters(ct)) {
                ACRONYM_SCORE
            } else {
                0
            }
        }
    }

    open spec fn spec_perfect(&self, q: Seq<char>, c: Seq<char>) -> bool {
        q == c
    }

    fn measure(&self, query: &String, candidate: &String) -> (r: Result<
        Measurement,
        MetricFailure,
    >) {
        let perfect = query.eq(candidate);
        let q_chars = chars_vec(query);
        if q_chars.len() > self.max_acronym_length {
            return Ok(Measurement { score: 0, perfect });
        }
        let q_low = chars_vec(&lowercase(query));
        let c_low = chars_vec(&lowercase(candidate));
        let ct = split_chars(&c_low, &self.token_scorer.separators);
        if ct.len() < q_low.len() {
            return Ok(Measurement { score: 0, perfect });
        }
        let ghost ct_views = token_views(ct@);
        let mut letters: Vec<char> = Vec::new();
        let mut i: usize = 0;
        proof {
            assert(spec_first_letters(ct_views.take(0)) =~= Seq::<char>::empty());
            assert(letters@ =~= Seq::<char>::empty());
        }
        while i < ct.len()
            invariant
                i <= ct@.len(),
                ct_views == token_views(ct@),
                letters@ == spec_first_letters(ct_views.take(i as int)),
            decreases ct@.len() - i,
        {
            proof {
                assert(ct_views.take(i + 1).drop_last() =~= ct_views.take(i as int));
                assert(ct_views.take(i + 1).last() == ct@[i as int]@);
            }
            let token = &ct[i];
            let token_chars = chars_vec(token);
            if token_chars.len() > 0 {
                letters.push(token_chars[0]);
                proof {
                    assert(letters@ =~= spec_first_letters(ct_views.take(i as int)) + seq![
                        ct@[i as int]@[0],
                    ]);
                }
            } else {
                proof {
                    assert(letters@ =~= spec_first_letters(ct_views.take(i as int))
                        + Seq::<char>::empty());
                }
            }
            i = i + 1;
        }
        proof {
            assert(ct_views.take(ct@.len() as int) =~= ct_views);
        }
        if contains_seq(&q_low, &letters) {
            Ok(Measurement { score: ACRONYM_SCORE, perfect })
        } else {
            Ok(Measurement { score: 0, perfect })
        }
    }
}

pub proof fn lemma_token_similarity_bounds(ts: Seq<Seq<char>>, others: Seq<Seq<char>>)
    ensures
        0 <= spec_token_similarity(ts, others) <= SCALE,
{
    if ts.len() > 0 && others.len() > 0 {
        lemma_sim_total_bounds(ts, others);
        let total = spec_sim_total(ts, others);
        let n = ts.len() as int;
        let count = spec_match_count(ts, others);
        let mean = total / n;
        assert(0 <= mean);
        assert(0 <= mean * count) by (nonlinear_arith)
            requires 0 <= mean && 0 <= count;
        assert(0 <= mean * count / (2 * n));
        assert(mean * count / (2 * n) == mean * spec_match_count(ts, others) / (2 * ts.len() as int));
    }
}

} // verus!
