//! The text side of MML: character classes, the three-part score shape and the
//! tokenizer.

use vstd::prelude::*;

verus! {

/// The characters of `s`, in order.
pub fn chars_of(s: &str) -> (r: Vec<char>)
    ensures
        r@ == s@,
{
    let mut out: Vec<char> = Vec::new();
    for c in it: s.chars()
        invariant
            out@ == it.seq().subrange(0, it.index() as int),
            it.seq() == s@,
    {
        out.push(c);
    }
    out
}

// ----- character classes -----

/// Unicode `White_Space`: the characters that `char::is_whitespace` accepts.
pub open spec fn is_space(c: char) -> bool {
    let u = c as u32;
    (0x09 <= u <= 0x0D) || u == 0x20 || u == 0x85 || u == 0xA0 || u == 0x1680 || (0x2000 <= u
        <= 0x200A) || u == 0x2028 || u == 0x2029 || u == 0x202F || u == 0x205F || u == 0x3000
}

pub open spec fn is_digit(c: char) -> bool {
    '0' <= c <= '9'
}

/// Characters allowed inside a part of a score: whitespace, digits, note letters,
/// command letters and the signs `# < > . & + -`.
pub open spec fn is_part_char(c: char) -> bool {
    is_space(c) || is_digit(c) || ('a' <= c <= 'g') || ('A' <= c <= 'G') || c == 'l' || c == 'n'
        || c == 'o' || c == 'r' || c == 't' || c == 'v' || c == 'L' || c == 'N' || c == 'O' || c
        == 'R' || c == 'T' || c == 'V' || c == '#' || c == '<' || c == '>' || c == '.' || c == '&'
        || c == '+' || c == '-'
}

/// Characters that start a token.
pub open spec fn is_token_head(c: char) -> bool {
    ('a' <= c <= 'g') || ('A' <= c <= 'G') || c == 'o' || c == 't' || c == 'l' || c == 'v' || c
        == 'n' || c == 'r' || c == 'O' || c == 'T' || c == 'L' || c == 'V' || c == 'N' || c == 'R'
        || c == '<' || c == '>'
}

pub open spec fn is_accidental(c: char) -> bool {
    c == '+' || c == '-' || c == '#'
}

pub fn space(c: char) -> (r: bool)
    ensures
        r == is_space(c),
{
    let u = c as u32;
    (0x09 <= u && u <= 0x0D) || u == 0x20 || u == 0x85 || u == 0xA0 || u == 0x1680 || (0x2000 <= u
        && u <= 0x200A) || u == 0x2028 || u == 0x2029 || u == 0x202F || u == 0x205F || u == 0x3000
}

fn digit(c: char) -> (r: bool)
    ensures
        r == is_digit(c),
{
    '0' <= c && c <= '9'
}

fn part_char(c: char) -> (r: bool)
    ensures
        r == is_part_char(c),
{
    space(c) || digit(c) || ('a' <= c && c <= 'g') || ('A' <= c && c <= 'G') || c == 'l' || c
        == 'n' || c == 'o' || c == 'r' || c == 't' || c == 'v' || c == 'L' || c == 'N' || c == 'O'
        || c == 'R' || c == 'T' || c == 'V' || c == '#' || c == '<' || c == '>' || c == '.' || c
        == '&' || c == '+' || c == '-'
}

fn token_head(c: char) -> (r: bool)
    ensures
        r == is_token_head(c),
{
    ('a' <= c && c <= 'g') || ('A' <= c && c <= 'G') || c == 'o' || c == 't' || c == 'l' || c
        == 'v' || c == 'n' || c == 'r' || c == 'O' || c == 'T' || c == 'L' || c == 'V' || c == 'N'
        || c == 'R' || c == '<' || c == '>'
}

fn accidental(c: char) -> (r: bool)
    ensures
        r == is_accidental(c),
{
    c == '+' || c == '-' || c == '#'
}

// ----- the shape of a score: `MML@part,part,part;` -----

/// End of the run of part characters that starts at `i`.
pub open spec fn part_end(s: Seq<char>, i: int) -> int
    decreases s.len() - i,
{
    if i < 0 || i >= s.len() || !is_part_char(s[i]) {
        i
    } else {
        part_end(s, i + 1)
    }
}

/// First index in `[i, end)` that holds no whitespace, or `end`.
pub open spec fn skip_space(s: Seq<char>, i: int, end: int) -> int
    decreases end - i,
{
    if i < 0 || i >= end || !is_space(s[i]) {
        i
    } else {
        skip_space(s, i + 1, end)
    }
}

pub open spec fn is_header_at(s: Seq<char>, p: int) -> bool {
    0 <= p && p + 4 <= s.len() && s[p] == 'M' && s[p + 1] == 'M' && s[p + 2] == 'L' && s[p + 3]
        == '@'
}

/// Ends of the three parts of a score whose header starts at `p`.
pub open spec fn part_ends(s: Seq<char>, p: int) -> (int, int, int) {
    let e1 = part_end(s, p + 4);
    let e2 = part_end(s, e1 + 1);
    let e3 = part_end(s, e2 + 1);
    (e1, e2, e3)
}

/// A whole score starts at `p`: the header, three runs of part characters, the
/// first two closed by `,` and the last by `;`.
pub open spec fn score_at(s: Seq<char>, p: int) -> bool {
    let (e1, e2, e3) = part_ends(s, p);
    is_header_at(s, p) && e1 < s.len() && s[e1] == ',' && e2 < s.len() && s[e2] == ',' && e3
        < s.len() && s[e3] == ';'
}

/// The leftmost position at or after `p` where a whole score starts.
pub open spec fn first_score(s: Seq<char>, p: int) -> Option<int>
    decreases s.len() - p,
{
    if p < 0 || p >= s.len() {
        None
    } else if score_at(s, p) {
        Some(p)
    } else {
        first_score(s, p + 1)
    }
}

/// One part of the score at `p`: its run with the leading whitespace left out.
pub open spec fn part_at(s: Seq<char>, start: int, end: int) -> Seq<char> {
    s.subrange(skip_space(s, start, end), end)
}

/// The three parts of the leftmost score in `s`, or `None` when `s` holds none.
pub open spec fn score_parts(s: Seq<char>) -> Option<Seq<Seq<char>>> {
    match first_score(s, 0) {
        Some(p) => {
            let (e1, e2, e3) = part_ends(s, p);
            Some(seq![part_at(s, p + 4, e1), part_at(s, e1 + 1, e2), part_at(s, e2 + 1, e3)])
        },
        None => None,
    }
}

proof fn lemma_part_end_bounds(s: Seq<char>, i: int)
    requires
        0 <= i <= s.len(),
    ensures
        i <= part_end(s, i) <= s.len(),
        forall|k: int| i <= k < part_end(s, i) ==> is_part_char(#[trigger] s[k]),
    decreases s.len() - i,
{
    if i < s.len() && is_part_char(s[i]) {
        lemma_part_end_bounds(s, i + 1);
    }
}

fn find_part_end(s: &Vec<char>, i: usize) -> (r: usize)
    requires
        i <= s@.len(),
    ensures
        r == part_end(s@, i as int),
{
    let mut j = i;
    while j < s.len() && part_char(s[j])
        invariant
            i <= j <= s@.len(),
            part_end(s@, j as int) == part_end(s@, i as int),
        decreases s@.len() - j,
    {
        j = j + 1;
    }
    j
}

fn find_non_space(s: &Vec<char>, i: usize, end: usize) -> (r: usize)
    requires
        i <= end <= s@.len(),
    ensures
        r == skip_space(s@, i as int, end as int),
        i <= r <= end,
{
    let mut j = i;
    while j < end && space(s[j])
        invariant
            i <= j <= end,
            end <= s@.len(),
            skip_space(s@, j as int, end as int) == skip_space(s@, i as int, end as int),
        decreases end - j,
    {
        j = j + 1;
    }
    j
}

fn copy_range(s: &Vec<char>, from: usize, to: usize) -> (r: Vec<char>)
    requires
        from <= to <= s@.len(),
    ensures
        r@ == s@.subrange(from as int, to as int),
{
    let mut out: Vec<char> = Vec::new();
    let mut i = from;
    while i < to
        invariant
            from <= i <= to,
            to <= s@.len(),
            out@ == s@.subrange(from as int, i as int),
        decreases to - i,
    {
        out.push(s[i]);
        i = i + 1;
        assert(s@.subrange(from as int, i as int) == s@.subrange(from as int, i - 1 as int).push(
            s@[i - 1],
        ));
    }
    out
}

/// Finds the leftmost score `MML@part,part,part;` in `s` and returns its three
/// parts, each without its leading whitespace; `None` when there is no score.
pub fn split_score(s: &Vec<char>) -> (r: Option<Vec<Vec<char>>>)
    ensures
        match score_parts(s@) {
            Some(parts) => r matches Some(v) && v.len() == 3 && forall|k: int|
                0 <= k < 3 ==> (#[trigger] v[k])@ == parts[k] && v[k]@.len() <= s@.len(),
            None => r is None,
        },
{
    let n = s.len();
    let mut p: usize = 0;
    while p < n
        invariant
            n == s@.len(),
            p <= n,
            first_score(s@, 0) == first_score(s@, p as int),
        decreases n - p,
    {
        if n - p >= 4 && s[p] == 'M' && s[p + 1] == 'M' && s[p + 2] == 'L' && s[p + 3] == '@' {
            proof {
                lemma_part_end_bounds(s@, p + 4);
            }
            let e1 = find_part_end(s, p + 4);
            if e1 < n && s[e1] == ',' {
                proof {
                    lemma_part_end_bounds(s@, e1 + 1);
                }
                let e2 = find_part_end(s, e1 + 1);
                if e2 < n && s[e2] == ',' {
                    proof {
                        lemma_part_end_bounds(s@, e2 + 1);
                    }
                    let e3 = find_part_end(s, e2 + 1);
                    if e3 < n && s[e3] == ';' {
                        assert(score_at(s@, p as int));
                        let b1 = find_non_space(s, p + 4, e1);
                        let b2 = find_non_space(s, e1 + 1, e2);
                        let b3 = find_non_space(s, e2 + 1, e3);
                        let mut parts: Vec<Vec<char>> = Vec::new();
                        parts.push(copy_range(s, b1, e1));
                        parts.push(copy_range(s, b2, e2));
                        parts.push(copy_range(s, b3, e3));
                        return Some(parts);
                    }
                }
            }
        }
        p = p + 1;
    }
    None
}

} // verus!

verus! {

// ----- whitespace removal -----

/// `s` with every whitespace character left out.
pub open spec fn without_spaces(s: Seq<char>) -> Seq<char>
    decreases s.len(),
{
    if s.len() == 0 {
        s
    } else {
        let rest = without_spaces(s.drop_last());
        if is_space(s.last()) {
            rest
        } else {
            rest.push(s.last())
        }
    }
}

/// Removes every whitespace character from `s`.
pub fn remove_spaces(s: &Vec<char>) -> (r: Vec<char>)
    ensures
        r@ == without_spaces(s@),
{
    let mut out: Vec<char> = Vec::new();
    let mut i: usize = 0;
    while i < s.len()
        invariant
            i <= s@.len(),
            out@ == without_spaces(s@.subrange(0, i as int)),
        decreases s@.len() - i,
    {
        let c = s[i];
        assert(s@.subrange(0, i + 1 as int).drop_last() == s@.subrange(0, i as int));
        if !space(c) {
            out.push(c);
        }
        i = i + 1;
    }
    assert(s@.subrange(0, s@.len() as int) == s@);
    out
}

// ----- tokens -----

/// A lexical unit: a head character, then an optional accidental, a run of
/// digits, an optional dot and an optional `&`.
pub struct TokenView {
    pub head: char,
    pub accidental: Option<char>,
    pub digits: Seq<char>,
    pub dotted: bool,
    pub tied: bool,
}

pub struct Token {
    pub head: char,
    pub accidental: Option<char>,
    pub digits: Vec<char>,
    pub dotted: bool,
    pub tied: bool,
}

impl View for Token {
    type V = TokenView;

    open spec fn view(&self) -> TokenView {
        TokenView {
            head: self.head,
            accidental: self.accidental,
            digits: self.digits@,
            dotted: self.dotted,
            tied: self.tied,
        }
    }
}

/// End of the run of digits that starts at `i`.
pub open spec fn digits_end(s: Seq<char>, i: int) -> int
    decreases s.len() - i,
{
    if i < 0 || i >= s.len() || !is_digit(s[i]) {
        i
    } else {
        digits_end(s, i + 1)
    }
}

/// Positions inside the token whose head is at `i`: after the accidental, after
/// the digits, after the dot, and the token's end.
pub open spec fn token_marks(s: Seq<char>, i: int) -> (int, int, int, int) {
    let a = if i + 1 < s.len() && is_accidental(s[i + 1]) {
        i + 2
    } else {
        i + 1
    };
    let d = digits_end(s, a);
    let t = if d < s.len() && s[d] == '.' {
        d + 1
    } else {
        d
    };
    let e = if t < s.len() && s[t] == '&' {
        t + 1
    } else {
        t
    };
    (a, d, t, e)
}

/// The longest token that starts at `i`, where `s[i]` is a head character.
pub open spec fn token_at(s: Seq<char>, i: int) -> TokenView {
    let (a, d, t, e) = token_marks(s, i);
    TokenView {
        head: s[i],
        accidental: if a == i + 2 {
            Some(s[i + 1])
        } else {
            None
        },
        digits: s.subrange(a, d),
        dotted: t == d + 1,
        tied: e == t + 1,
    }
}

/// The tokens of `s` from position `i` on: characters that start no token are
/// skipped, and each token is as long as it can be.
pub open spec fn tokens_from(s: Seq<char>, i: int) -> Seq<TokenView>
    decreases s.len() - i,
    via tokens_from_decreases
{
    if i < 0 || i >= s.len() {
        Seq::empty()
    } else if is_token_head(s[i]) {
        seq![token_at(s, i)] + tokens_from(s, token_marks(s, i).3)
    } else {
        tokens_from(s, i + 1)
    }
}

#[via_fn]
proof fn tokens_from_decreases(s: Seq<char>, i: int) {
    if 0 <= i < s.len() && is_token_head(s[i]) {
        lemma_token_marks(s, i);
    }
}

/// The tokens of `s`, in order.
pub open spec fn tokens_of(s: Seq<char>) -> Seq<TokenView> {
    tokens_from(s, 0)
}

proof fn lemma_digits_end(s: Seq<char>, i: int)
    requires
        0 <= i <= s.len(),
    ensures
        i <= digits_end(s, i) <= s.len(),
        forall|k: int| i <= k < digits_end(s, i) ==> is_digit(#[trigger] s[k]),
    decreases s.len() - i,
{
    if i < s.len() && is_digit(s[i]) {
        lemma_digits_end(s, i + 1);
    }
}

proof fn lemma_token_marks(s: Seq<char>, i: int)
    requires
        0 <= i < s.len(),
    ensures
        i < token_marks(s, i).0 <= token_marks(s, i).1 <= token_marks(s, i).2 <= token_marks(
            s,
            i,
        ).3 <= s.len(),
{
    let a = token_marks(s, i).0;
    lemma_digits_end(s, a);
}

/// A token has at most one character of `s` for each token.
pub proof fn lemma_tokens_from_len(s: Seq<char>, i: int)
    requires
        0 <= i <= s.len(),
    ensures
        tokens_from(s, i).len() <= s.len() - i,
    decreases s.len() - i,
{
    if i < s.len() {
        if is_token_head(s[i]) {
            lemma_token_marks(s, i);
            lemma_tokens_from_len(s, token_marks(s, i).3);
        } else {
            lemma_tokens_from_len(s, i + 1);
        }
    }
}

fn find_digits_end(s: &Vec<char>, i: usize) -> (r: usize)
    requires
        i <= s@.len(),
    ensures
        r == digits_end(s@, i as int),
{
    let mut j = i;
    while j < s.len() && digit(s[j])
        invariant
            i <= j <= s@.len(),
            digits_end(s@, j as int) == digits_end(s@, i as int),
        decreases s@.len() - j,
    {
        j = j + 1;
    }
    j
}

/// Reads the token whose head is at `i`; returns it with the position after it.
fn read_token(s: &Vec<char>, i: usize) -> (r: (Token, usize))
    requires
        i < s@.len(),
    ensures
        r.0@ == token_at(s@, i as int),
        r.1 == token_marks(s@, i as int).3,
        i < r.1 <= s@.len(),
{
    proof {
        lemma_token_marks(s@, i as int);
    }
    let n = s.len();
    let (accidental, a) = if i + 1 < n && accidental(s[i + 1]) {
        (Some(s[i + 1]), i + 2)
    } else {
        (None, i + 1)
    };
    let d = find_digits_end(s, a);
    let digits = copy_range(s, a, d);
    let dotted = d < n && s[d] == '.';
    let t = if dotted {
        d + 1
    } else {
        d
    };
    let tied = t < n && s[t] == '&';
    let e = if tied {
        t + 1
    } else {
        t
    };
    (Token { head: s[i], accidental, digits, dotted, tied }, e)
}

/// Splits `s` into tokens; characters that start no token are skipped.
pub fn tokenize(s: &Vec<char>) -> (r: Vec<Token>)
    ensures
        r@.map_values(|t: Token| t@) == tokens_of(s@),
{
    let mut out: Vec<Token> = Vec::new();
    let mut i: usize = 0;
    while i < s.len()
        invariant
            i <= s@.len(),
            out@.map_values(|t: Token| t@) + tokens_from(s@, i as int) == tokens_of(s@),
        decreases s@.len() - i,
    {
        if token_head(s[i]) {
            let (tok, e) = read_token(s, i);
            let ghost old_out = out@;
            out.push(tok);
            assert(out@.map_values(|t: Token| t@) == old_out.map_values(|t: Token| t@).push(
                token_at(s@, i as int),
            ));
            assert(tokens_from(s@, i as int) == seq![token_at(s@, i as int)] + tokens_from(
                s@,
                e as int,
            ));
            assert(out@.map_values(|t: Token| t@) + tokens_from(s@, e as int) == old_out.map_values(
                |t: Token| t@,
            ) + tokens_from(s@, i as int));
            i = e;
        } else {
            i = i + 1;
        }
    }
    assert(tokens_from(s@, i as int) == Seq::<TokenView>::empty());
    assert(out@.map_values(|t: Token| t@) + Seq::<TokenView>::empty() == out@.map_values(
        |t: Token| t@,
    ));
    out
}


proof fn lemma_digits_end_shift(p: Seq<char>, s: Seq<char>, j: int)
    requires
        0 <= j <= s.len(),
    ensures
        digits_end(p + s, p.len() + j) == p.len() + digits_end(s, j),
    decreases s.len() - j,
{
    if j < s.len() {
        assert((p + s)[p.len() + j] == s[j]);
        lemma_digits_end_shift(p, s, j + 1);
    }
}

/// Tokens do not depend on what stands before them.
proof fn lemma_tokens_shift(p: Seq<char>, s: Seq<char>, j: int)
    requires
        0 <= j <= s.len(),
    ensures
        tokens_from(p + s, p.len() + j) == tokens_from(s, j),
    decreases s.len() - j,
{
    let ps = p + s;
    let o = p.len() as int;
    if j < s.len() {
        assert(ps[o + j] == s[j]);
        if is_token_head(s[j]) {
            lemma_token_marks(s, j);
            let (a, d, t, e) = token_marks(s, j);
            if j + 1 < s.len() {
                assert(ps[o + j + 1] == s[j + 1]);
            }
            lemma_digits_end_shift(p, s, a);
            if d < s.len() {
                assert(ps[o + d] == s[d]);
            }
            if t < s.len() {
                assert(ps[o + t] == s[t]);
            }
            assert(token_marks(ps, o + j) == (o + a, o + d, o + t, o + e));
            assert(ps.subrange(o + a, o + d) =~= s.subrange(a, d));
            if a == j + 2 {
                assert(ps[o + j + 1] == s[j + 1]);
            }
            assert(token_at(ps, o + j) == token_at(s, j));
            lemma_tokens_shift(p, s, e);
        } else {
            lemma_tokens_shift(p, s, j + 1);
        }
    }
}

proof fn lemma_skip_run(x: Seq<char>, from: int, to: int)
    requires
        0 <= from <= to <= x.len(),
        forall|k: int| from <= k < to ==> !is_token_head(#[trigger] x[k]),
    ensures
        tokens_from(x, from) == tokens_from(x, to),
    decreases to - from,
{
    if from < to {
        lemma_skip_run(x, from + 1, to);
    }
}

/// Garbage is skipped: characters that start no token, met where the scanner
/// stands (after `a`) or at the very start, are passed over, and the tokens of
/// the rest `b` come out exactly as they would without them.
pub proof fn lemma_garbage_skipped(a: Seq<char>, g: Seq<char>, b: Seq<char>)
    requires
        forall|k: int| 0 <= k < g.len() ==> !is_token_head(#[trigger] g[k]),
    ensures
        tokens_from(a + g + b, a.len() as int) == tokens_of(b),
        tokens_of(g + b) == tokens_of(b),
{
    let x = a + g + b;
    assert forall|k: int| a.len() <= k < a.len() + g.len() implies !is_token_head(
        #[trigger] x[k],
    ) by {
        assert(x[k] == g[k - a.len()]);
    }
    lemma_skip_run(x, a.len() as int, (a.len() + g.len()) as int);
    assert(x =~= (a + g) + b);
    lemma_tokens_shift(a + g, b, 0);
    let y = g + b;
    assert forall|k: int| 0 <= k < g.len() implies !is_token_head(#[trigger] y[k]) by {
        assert(y[k] == g[k]);
    }
    lemma_skip_run(y, 0, g.len() as int);
    lemma_tokens_shift(g, b, 0);
}


/// A character that cannot continue a token: no digit, accidental, `.` or `&`.
pub open spec fn ends_token(c: char) -> bool {
    !is_digit(c) && !is_accidental(c) && c != '.' && c != '&'
}

proof fn lemma_without_spaces_concat(x: Seq<char>, y: Seq<char>)
    ensures
        without_spaces(x + y) == without_spaces(x) + without_spaces(y),
    decreases y.len(),
{
    if y.len() == 0 {
        assert(x + y =~= x);
        assert(without_spaces(x) + without_spaces(y) =~= without_spaces(x));
    } else {
        lemma_without_spaces_concat(x, y.drop_last());
        assert((x + y).drop_last() =~= x + y.drop_last());
        assert((x + y).last() == y.last());
    }
}

pub proof fn lemma_without_spaces_none(g: Seq<char>)
    requires
        forall|k: int| 0 <= k < g.len() ==> !is_space(#[trigger] g[k]),
    ensures
        without_spaces(g) == g,
    decreases g.len(),
{
    if g.len() > 0 {
        lemma_without_spaces_none(g.drop_last());
        assert(without_spaces(g.drop_last()).push(g.last()) =~= g);
    }
}

proof fn lemma_without_spaces_head(b: Seq<char>)
    requires
        b.len() > 0,
        is_token_head(b[0]),
    ensures
        without_spaces(b).len() > 0,
        without_spaces(b)[0] == b[0],
    decreases b.len(),
{
    assert(!is_space(b[0]));
    if b.len() > 1 {
        assert(b.drop_last()[0] == b[0]);
        lemma_without_spaces_head(b.drop_last());
    } else {
        assert(b.drop_last() =~= Seq::<char>::empty());
        assert(without_spaces(b.drop_last()) == Seq::<char>::empty());
        assert(b.last() == b[0]);
    }
}

proof fn lemma_digits_end_prefix(a: Seq<char>, r: Seq<char>, j: int)
    requires
        0 <= j <= a.len(),
        r.len() == 0 || ends_token(r[0]),
    ensures
        digits_end(a + r, j) == digits_end(a, j),
        digits_end(a, j) <= a.len(),
    decreases a.len() - j,
{
    if j < a.len() {
        assert((a + r)[j] == a[j]);
        lemma_digits_end_prefix(a, r, j + 1);
    } else if r.len() > 0 {
        assert((a + r)[j] == r[0]);
    }
}

/// Tokens that start in `a` end in `a` when what follows cannot continue them.
proof fn lemma_tokens_prefix(a: Seq<char>, r: Seq<char>, i: int)
    requires
        0 <= i <= a.len(),
        r.len() == 0 || ends_token(r[0]),
    ensures
        tokens_from(a + r, i) == tokens_from(a, i) + tokens_from(a + r, a.len() as int),
    decreases a.len() - i,
{
    let x = a + r;
    if i == a.len() {
        assert(tokens_from(a, i) == Seq::<TokenView>::empty());
        assert(tokens_from(a, i) + tokens_from(x, i) =~= tokens_from(x, i));
    } else {
        assert(x[i] == a[i]);
        if is_token_head(a[i]) {
            lemma_token_marks(a, i);
            let (p, d, t, e) = token_marks(a, i);
            if i + 1 < a.len() {
                assert(x[i + 1] == a[i + 1]);
            } else if r.len() > 0 {
                assert(x[i + 1] == r[0]);
            }
            lemma_digits_end_prefix(a, r, p);
            if d < a.len() {
                assert(x[d] == a[d]);
            } else if r.len() > 0 {
                assert(x[d] == r[0]);
            }
            if t < a.len() {
                assert(x[t] == a[t]);
            } else if r.len() > 0 {
                assert(x[t] == r[0]);
            }
            assert(token_marks(x, i) == token_marks(a, i));
            assert(x.subrange(p, d) =~= a.subrange(p, d));
            assert(token_at(x, i) == token_at(a, i));
            lemma_tokens_prefix(a, r, e);
            assert(tokens_from(x, i) =~= tokens_from(a, i) + tokens_from(x, a.len() as int));
        } else {
            lemma_tokens_prefix(a, r, i + 1);
        }
    }
}

/// Garbage inside a part is skipped: a run `g` of characters that neither start
/// nor continue a token, nor are whitespace, leaves the part's tokens exactly as
/// without it, when what follows is the start of a token or the end.
pub proof fn lemma_part_garbage_skipped(a: Seq<char>, g: Seq<char>, b: Seq<char>)
    requires
        g.len() > 0,
        forall|k: int|
            0 <= k < g.len() ==> !is_token_head(#[trigger] g[k]) && !is_space(g[k]) && ends_token(
                g[k],
            ),
        b.len() == 0 || is_token_head(b[0]),
    ensures
        tokens_of(without_spaces(a + g + b)) == tokens_of(without_spaces(a + b)),
{
    let a1 = without_spaces(a);
    let b1 = without_spaces(b);
    lemma_without_spaces_concat(a + g, b);
    lemma_without_spaces_concat(a, g);
    lemma_without_spaces_concat(a, b);
    lemma_without_spaces_none(g);
    if b.len() > 0 {
        lemma_without_spaces_head(b);
    } else {
        assert(b1 == b);
    }
    let x1 = a1 + (g + b1);
    let x2 = a1 + b1;
    assert(without_spaces(a + g + b) =~= x1);
    assert((g + b1)[0] == g[0]);
    lemma_tokens_prefix(a1, g + b1, 0);
    lemma_tokens_prefix(a1, b1, 0);
    lemma_garbage_skipped(a1, g, b1);
    assert(a1 + g + b1 =~= x1);
    lemma_tokens_shift(a1, b1, 0);
}


proof fn lemma_digits_end_run(s: Seq<char>, i: int, j: int)
    requires
        0 <= i <= j <= s.len(),
        forall|k: int| i <= k < j ==> is_digit(#[trigger] s[k]),
        j == s.len() || !is_digit(s[j]),
    ensures
        digits_end(s, i) == j,
    decreases j - i,
{
    if i < j {
        lemma_digits_end_run(s, i + 1, j);
    }
}

/// A head, a run of digits, an optional dot, then the start of another token
/// or the end: that is one token, and the scan goes on after it.
pub proof fn lemma_number_token(h: char, ds: Seq<char>, dot: bool, rest: Seq<char>)
    requires
        is_token_head(h),
        ds.len() > 0,
        forall|k: int| 0 <= k < ds.len() ==> is_digit(#[trigger] ds[k]),
        rest.len() == 0 || is_token_head(rest[0]),
    ensures
        ({
            let mid = seq![h] + ds + (if dot {
                seq!['.']
            } else {
                Seq::empty()
            });
            &&& tokens_of(mid + rest) == seq![
                TokenView { head: h, accidental: None, digits: ds, dotted: dot, tied: false },
            ] + tokens_of(rest)
            &&& forall|k: int| 0 <= k < mid.len() ==> !is_space(#[trigger] mid[k])
        }),
{
    let dp: Seq<char> = if dot {
        seq!['.']
    } else {
        Seq::empty()
    };
    let mid = seq![h] + ds + dp;
    let s = mid + rest;
    let m = ds.len() as int;
    assert forall|k: int| 1 <= k < 1 + m implies is_digit(#[trigger] s[k]) by {
        assert(s[k] == ds[k - 1]);
    }
    assert(s[0] == h);
    assert(s[1] == ds[0]);
    if dot {
        assert(s[1 + m] == '.');
    } else if rest.len() > 0 {
        assert(s[1 + m] == rest[0]);
    }
    lemma_digits_end_run(s, 1, 1 + m);
    let e = mid.len() as int;
    if e < s.len() {
        assert(s[e] == rest[0]);
    }
    assert(token_marks(s, 0) == (1int, 1 + m, e, e));
    assert(s.subrange(1, 1 + m) =~= ds);
    assert(s =~= mid + rest);
    lemma_tokens_shift(mid, rest, 0);
    assert(tokens_from(s, 0) == seq![token_at(s, 0)] + tokens_from(s, e));
    assert forall|k: int| 0 <= k < mid.len() implies !is_space(#[trigger] mid[k]) by {
        if k == 0 {
        } else if k < 1 + m {
            assert(mid[k] == ds[k - 1]);
        } else {
            assert(mid[k] == '.');
        }
    }
}

/// A lone head character at the end is one token.
pub proof fn lemma_bare_token(h: char)
    requires
        is_token_head(h),
    ensures
        tokens_of(seq![h]) == seq![
            TokenView { head: h, accidental: None, digits: Seq::empty(), dotted: false, tied: false },
        ],
        !is_space(h),
{
    let s = seq![h];
    assert(token_marks(s, 0) == (1int, 1int, 1int, 1int));
    assert(s.subrange(1, 1) =~= Seq::<char>::empty());
    assert(tokens_from(s, 1) == Seq::<TokenView>::empty());
    assert(tokens_from(s, 0) =~= seq![token_at(s, 0)]);
}

} // verus!
