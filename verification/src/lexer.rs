//! The lexical grammar of the query language: a query text is cut into
//! parentheses, bars and terms. White space separates tokens and is dropped.
//!
//! A term is a tag (`#` and a possibly empty word), a path (an optional
//! `.`, any number of `/word` segments, at most two closing `/`), a bare
//! keyword (a word) or a quoted keyword (any text between double quotes).
//! A word is made of word characters: letters, digits and connectors such
//! as `_`, of any script.
//! A term ends where white space, a parenthesis, a bar or the end of the
//! text follows; anything else after it makes the text unreadable.
use vstd::prelude::*;
use crate::text::{
    is_whitespace, is_word, leading, lemma_leading, lemma_leading_is, skip_leading, to_string,
    whitespace, word, CharClass,
};

verus! {

/// One token of a query.
#[derive(Debug, PartialEq, Eq)]
pub enum Token {
    /// `(`
    Open,
    /// `)`
    Close,
    /// `|`
    Pipe,
    /// A tag, without its `#`.
    Tag(String),
    /// A path, as written.
    Path(String),
    /// A keyword, without quotes.
    Keyword(String),
}

/// The mathematical value of a [`Token`].
pub ghost enum Lexeme {
    Open,
    Close,
    Pipe,
    Tag(Seq<char>),
    Path(Seq<char>),
    Keyword(Seq<char>),
}

impl View for Token {
    type V = Lexeme;

    open spec fn view(&self) -> Lexeme {
        match self {
            Token::Open => Lexeme::Open,
            Token::Close => Lexeme::Close,
            Token::Pipe => Lexeme::Pipe,
            Token::Tag(t) => Lexeme::Tag(t@),
            Token::Path(p) => Lexeme::Path(p@),
            Token::Keyword(k) => Lexeme::Keyword(k@),
        }
    }
}

/// The values of a sequence of tokens.
pub open spec fn lexemes_of(ts: Seq<Token>) -> Seq<Lexeme> {
    Seq::new(ts.len(), |i: int| ts[i]@)
}

/// The end of the longest run of `class` characters of `s` that starts at `i`.
pub open spec fn run_end(s: Seq<char>, i: int, class: CharClass) -> int {
    i + leading(s.skip(i), class)
}

/// The end of the `/word` segments of a path that start at `i`.
pub open spec fn segments_end(s: Seq<char>, i: int) -> int
    decreases s.len() - i,
{
    if 0 <= i && i + 1 < s.len() && s[i] == '/' && is_word(s[i + 1]) && i < run_end(
        s,
        i + 1,
        CharClass::Word,
    ) <= s.len() {
        segments_end(s, run_end(s, i + 1, CharClass::Word))
    } else {
        i
    }
}

/// The end of the at most two `/` that close a path, from `i`.
pub open spec fn slashes_end(s: Seq<char>, i: int) -> int {
    if 0 <= i < s.len() && s[i] == '/' {
        if i + 1 < s.len() && s[i + 1] == '/' {
            i + 2
        } else {
            i + 1
        }
    } else {
        i
    }
}

/// The end of the longest path that starts at `i`.
pub open spec fn path_end(s: Seq<char>, i: int) -> int {
    let after_dot = if 0 <= i < s.len() && s[i] == '.' {
        i + 1
    } else {
        i
    };
    slashes_end(s, segments_end(s, after_dot))
}

/// Whether `t` is a path: it is not empty and the path grammar covers all
/// of it.
pub open spec fn is_path(t: Seq<char>) -> bool {
    t.len() > 0 && path_end(t, 0) == t.len()
}

/// Whether a term may end at `i`: the text ends there, or white space, a
/// parenthesis or a bar follows.
pub open spec fn term_may_end(s: Seq<char>, i: int) -> bool {
    i >= s.len() || is_whitespace(s[i]) || s[i] == '(' || s[i] == ')' || s[i] == '|'
}

/// The token that starts at `i`, and where it ends. `None` where no token
/// starts at `i`, or the term there does not end properly.
pub open spec fn lexeme_at(s: Seq<char>, i: int) -> Option<(Lexeme, int)> {
    if !(0 <= i < s.len()) {
        None
    } else if s[i] == '(' {
        Some((Lexeme::Open, i + 1))
    } else if s[i] == ')' {
        Some((Lexeme::Close, i + 1))
    } else if s[i] == '|' {
        Some((Lexeme::Pipe, i + 1))
    } else if s[i] == '#' {
        let e = run_end(s, i + 1, CharClass::Word);
        if term_may_end(s, e) {
            Some((Lexeme::Tag(s.subrange(i + 1, e)), e))
        } else {
            None
        }
    } else if s[i] == '"' {
        let e = run_end(s, i + 1, CharClass::Unquoted);
        if e < s.len() && term_may_end(s, e + 1) {
            Some((Lexeme::Keyword(s.subrange(i + 1, e)), e + 1))
        } else {
            None
        }
    } else if s[i] == '.' || s[i] == '/' {
        let e = path_end(s, i);
        if term_may_end(s, e) {
            Some((Lexeme::Path(s.subrange(i, e)), e))
        } else {
            None
        }
    } else if is_word(s[i]) {
        let e = run_end(s, i, CharClass::Word);
        if term_may_end(s, e) {
            Some((Lexeme::Keyword(s.subrange(i, e)), e))
        } else {
            None
        }
    } else {
        None
    }
}

/// The tokens of `s` from `i` on. `None` where some part of it is no token.
pub open spec fn lexemes_from(s: Seq<char>, i: int) -> Option<Seq<Lexeme>>
    decreases s.len() - i,
{
    let j = run_end(s, i, CharClass::Whitespace);
    if i < 0 || j >= s.len() {
        Some(Seq::empty())
    } else {
        match lexeme_at(s, j) {
            Some((t, k)) => if i <= j < k <= s.len() {
                match lexemes_from(s, k) {
                    Some(rest) => Some(seq![t] + rest),
                    None => None,
                }
            } else {
                None
            },
            None => None,
        }
    }
}

/// The tokens of the query text `s`.
pub open spec fn lexemes(s: Seq<char>) -> Option<Seq<Lexeme>> {
    lexemes_from(s, 0)
}

/// The end of the longest run of `class` characters of `v` from `i`.
fn scan(v: &Vec<char>, i: usize, class: CharClass) -> (e: usize)
    requires
        i <= v.len(),
    ensures
        e == run_end(v@, i as int, class),
        i <= e <= v.len(),
{
    skip_leading(v, i, v.len(), class)
}

/// The end of the `/word` segments from `i`.
fn scan_segments(v: &Vec<char>, i: usize) -> (e: usize)
    requires
        i <= v.len(),
    ensures
        e == segments_end(v@, i as int),
        i <= e <= v.len(),
{
    let mut j: usize = i;
    while j < v.len() && v.len() - j > 1 && v[j] == '/' && word(v[j + 1])
        invariant
            i <= j <= v.len(),
            segments_end(v@, i as int) == segments_end(v@, j as int),
        decreases v.len() - j,
    {
        j = scan(v, j + 1, CharClass::Word);
    }
    j
}

/// The end of the longest path from `i`.
fn scan_path(v: &Vec<char>, i: usize) -> (e: usize)
    requires
        i < v.len(),
        v[i as int] == '.' || v[i as int] == '/',
    ensures
        e == path_end(v@, i as int),
        i < e <= v.len(),
{
    let after_dot: usize = if v[i] == '.' {
        i + 1
    } else {
        i
    };
    let mut e = scan_segments(v, after_dot);
    if e < v.len() && v[e] == '/' {
        e += 1;
        if e < v.len() && v[e] == '/' {
            e += 1;
        }
    }
    e
}

/// Decides whether a term may end at `i`.
fn may_end(v: &Vec<char>, i: usize) -> (r: bool)
    ensures
        r == term_may_end(v@, i as int),
{
    i >= v.len() || whitespace(v[i]) || v[i] == '(' || v[i] == ')' || v[i] == '|'
}

/// The token that starts at `i`, and where it ends.
fn token_at(v: &Vec<char>, i: usize) -> (r: Option<(Token, usize)>)
    requires
        i < v.len(),
    ensures
        match r {
            Some((t, k)) => lexeme_at(v@, i as int) == Some((t@, k as int)) && i < k <= v.len(),
            None => lexeme_at(v@, i as int) is None,
        },
{
    let c = v[i];
    if c == '(' {
        Some((Token::Open, i + 1))
    } else if c == ')' {
        Some((Token::Close, i + 1))
    } else if c == '|' {
        Some((Token::Pipe, i + 1))
    } else if c == '#' {
        let e = scan(v, i + 1, CharClass::Word);
        if may_end(v, e) {
            Some((Token::Tag(to_string(v, i + 1, e)), e))
        } else {
            None
        }
    } else if c == '"' {
        let e = scan(v, i + 1, CharClass::Unquoted);
        if e < v.len() && may_end(v, e + 1) {
            Some((Token::Keyword(to_string(v, i + 1, e)), e + 1))
        } else {
            None
        }
    } else if c == '.' || c == '/' {
        let e = scan_path(v, i);
        if may_end(v, e) {
            Some((Token::Path(to_string(v, i, e)), e))
        } else {
            None
        }
    } else if word(c) {
        let e = scan(v, i, CharClass::Word);
        proof {
            assert(v@.skip(i as int)[0] == c);
        }
        if may_end(v, e) {
            Some((Token::Keyword(to_string(v, i, e)), e))
        } else {
            None
        }
    } else {
        None
    }
}

/// Cuts a query text into its tokens. `None` where some part of the text
/// is no token.
pub fn tokenize(v: &Vec<char>) -> (r: Option<Vec<Token>>)
    ensures
        match r {
            Some(ts) => lexemes(v@) == Some(lexemes_of(ts@)),
            None => lexemes(v@) is None,
        },
{
    let mut out: Vec<Token> = Vec::new();
    let mut i: usize = 0;
    loop
        invariant
            i <= v.len(),
            lexemes(v@) == match lexemes_from(v@, i as int) {
                Some(rest) => Some(lexemes_of(out@) + rest),
                None => None,
            },
        decreases v.len() - i,
    {
        let j = scan(v, i, CharClass::Whitespace);
        if j >= v.len() {
            proof {
                assert(lexemes_of(out@) + Seq::<Lexeme>::empty() =~= lexemes_of(out@));
            }
            return Some(out);
        }
        match token_at(v, j) {
            None => {
                return None;
            },
            Some((t, k)) => {
                proof {
                    let ghost before = lexemes_of(out@);
                    match lexemes_from(v@, k as int) {
                        Some(rest) => {
                            assert(before + (seq![t@] + rest) =~= lexemes_of(out@.push(t)) + rest);
                        },
                        None => {},
                    }
                }
                out.push(t);
                i = k;
            },
        }
    }
}

/// Whether `w` holds nothing but word characters.
pub open spec fn is_word_text(w: Seq<char>) -> bool {
    forall|i: int| 0 <= i < w.len() ==> is_word(#[trigger] w[i])
}

/// A word alone is one keyword token.
pub proof fn lemma_word_is_a_keyword(w: Seq<char>)
    requires
        w.len() > 0,
        is_word_text(w),
    ensures
        lexemes(w) == Some(seq![Lexeme::Keyword(w)]),
{
    assert(w.skip(0) =~= w);
    assert(is_word(w[0]));
    lemma_leading_is(w, CharClass::Whitespace, 0);
    lemma_leading_is(w, CharClass::Word, w.len());
    assert(w.subrange(0, w.len() as int) =~= w);
    assert(lexeme_at(w, 0) == Some((Lexeme::Keyword(w), w.len() as int)));
    assert(lexemes_from(w, w.len() as int) == Some(Seq::<Lexeme>::empty()));
    assert(seq![Lexeme::Keyword(w)] + Seq::<Lexeme>::empty() =~= seq![Lexeme::Keyword(w)]);
}

/// A `#` and a word behind it, or nothing behind it, are one tag token that
/// holds the word.
pub proof fn lemma_hash_word_is_a_tag(w: Seq<char>)
    requires
        is_word_text(w),
    ensures
        lexemes(seq!['#'] + w) == Some(seq![Lexeme::Tag(w)]),
{
    let s = seq!['#'] + w;
    assert(s.skip(0) =~= s);
    assert(s.skip(1) =~= w);
    lemma_leading_is(s, CharClass::Whitespace, 0);
    lemma_leading_is(w, CharClass::Word, w.len());
    assert(s.subrange(1, s.len() as int) =~= w);
    assert(lexeme_at(s, 0) == Some((Lexeme::Tag(w), s.len() as int)));
    assert(lexemes_from(s, s.len() as int) == Some(Seq::<Lexeme>::empty()));
    assert(seq![Lexeme::Tag(w)] + Seq::<Lexeme>::empty() =~= seq![Lexeme::Tag(w)]);
}

/// A path alone is one path token.
pub proof fn lemma_path_is_a_path(p: Seq<char>)
    requires
        is_path(p),
    ensures
        lexemes(p) == Some(seq![Lexeme::Path(p)]),
{
    assert(p.skip(0) =~= p);
    if p[0] != '.' && p[0] != '/' {
        assert(segments_end(p, 0) == 0);
    }
    lemma_leading_is(p, CharClass::Whitespace, 0);
    assert(p.subrange(0, p.len() as int) =~= p);
    assert(lexeme_at(p, 0) == Some((Lexeme::Path(p), p.len() as int)));
    assert(lexemes_from(p, p.len() as int) == Some(Seq::<Lexeme>::empty()));
    assert(seq![Lexeme::Path(p)] + Seq::<Lexeme>::empty() =~= seq![Lexeme::Path(p)]);
}

/// Whether `w` is a way to write the token: a parenthesis or a bar as
/// itself, a tag as `#` and its word, a path as itself, a keyword as its
/// word or as its text between double quotes.
pub open spec fn is_written(l: Lexeme, w: Seq<char>) -> bool {
    match l {
        Lexeme::Open => w == seq!['('],
        Lexeme::Close => w == seq![')'],
        Lexeme::Pipe => w == seq!['|'],
        Lexeme::Tag(t) => w == seq!['#'] + t && is_word_text(t),
        Lexeme::Path(p) => w == p && is_path(p),
        Lexeme::Keyword(k) => (w == k && k.len() > 0 && is_word_text(k)) || (w == seq!['"'] + k
            + seq!['"'] && forall|i: int| 0 <= i < k.len() ==> k[i] != '"'),
    }
}

/// Whether the tokens `ts` stand in the text `s` at the places `cuts`, one
/// after the other, each written out in full, with nothing but white space
/// around and between them.
pub open spec fn is_lexing(s: Seq<char>, ts: Seq<Lexeme>, cuts: Seq<(int, int)>) -> bool {
    &&& cuts.len() == ts.len()
    &&& forall|k: int|
        0 <= k < cuts.len() ==> 0 <= (#[trigger] cuts[k]).0 < cuts[k].1 <= s.len() && is_written(
            ts[k],
            s.subrange(cuts[k].0, cuts[k].1),
        )
    &&& forall|k: int| 0 <= k < cuts.len() - 1 ==> (#[trigger] cuts[k]).1 <= cuts[k + 1].0
    &&& forall|i: int| 0 <= i < s.len() ==> is_whitespace(#[trigger] s[i]) || is_cut(cuts, i)
}

/// Whether the place `i` lies in one of the cuts.
pub open spec fn is_cut(cuts: Seq<(int, int)>, i: int) -> bool {
    exists|k: int| 0 <= k < cuts.len() && (#[trigger] cuts[k]).0 <= i < cuts[k].1
}

/// A run of class characters, looked at in a window of the text that holds
/// all of it, ends where it ends in the text.
proof fn lemma_run_in_window(s: Seq<char>, from: int, to: int, at: int, class: CharClass)
    requires
        0 <= from <= at <= to <= s.len(),
        run_end(s, at, class) <= to,
    ensures
        run_end(s.subrange(from, to), at - from, class) == run_end(s, at, class) - from,
        at <= run_end(s, at, class),
{
    let rest = s.skip(at);
    let seen = s.subrange(from, to).skip(at - from);
    lemma_leading(rest, class);
    let n = leading(rest, class);
    assert(seen =~= s.subrange(at, to));
    assert forall|i: int| 0 <= i < n implies class.has(#[trigger] seen[i]) by {
        assert(seen[i] == rest[i]);
    }
    if n < seen.len() {
        assert(seen[n as int] == rest[n as int]);
    }
    lemma_leading_is(seen, class, n);
}

/// The `/word` segments from `at` end within the text, and in a window of
/// the text that holds all of them they end where they end in the text.
pub proof fn lemma_segments_in_window(s: Seq<char>, from: int, to: int, at: int)
    requires
        0 <= from <= at <= to <= s.len(),
        segments_end(s, at) <= to,
    ensures
        at <= segments_end(s, at) <= s.len(),
        segments_end(s.subrange(from, to), at - from) == segments_end(s, at) - from,
    decreases s.len() - at,
{
    let p = s.subrange(from, to);
    let e = run_end(s, at + 1, CharClass::Word);
    if at + 1 < s.len() && s[at] == '/' && is_word(s[at + 1]) && at < e <= s.len() {
        lemma_segments_bounds(s, e);
        lemma_run_in_window(s, from, to, at + 1, CharClass::Word);
        lemma_segments_in_window(s, from, to, e);
        assert(p[at - from] == s[at]);
        assert(p[at + 1 - from] == s[at + 1]);
    } else {
        if at + 1 - from < p.len() {
            assert(p[at - from] == s[at]);
            assert(p[at + 1 - from] == s[at + 1]);
            lemma_leading(s.skip(at + 1), CharClass::Word);
        }
    }
}

/// The `/word` segments from `at` end within the text.
pub proof fn lemma_segments_bounds(s: Seq<char>, at: int)
    requires
        0 <= at <= s.len(),
    ensures
        at <= segments_end(s, at) <= s.len(),
    decreases s.len() - at,
{
    let e = run_end(s, at + 1, CharClass::Word);
    if at + 1 < s.len() && s[at] == '/' && is_word(s[at + 1]) && at < e <= s.len() {
        lemma_segments_bounds(s, e);
    }
}

/// What the longest path from `at` covers is a path.
proof fn lemma_path_in_window(s: Seq<char>, at: int)
    requires
        0 <= at < s.len(),
        s[at] == '.' || s[at] == '/',
    ensures
        at < path_end(s, at) <= s.len(),
        is_path(s.subrange(at, path_end(s, at))),
{
    let start = if s[at] == '.' {
        at + 1
    } else {
        at
    };
    let m = segments_end(s, start);
    let e = path_end(s, at);
    lemma_segments_bounds(s, start);
    let p = s.subrange(at, e);
    assert(p[0] == s[at]);
    lemma_segments_in_window(s, at, e, start);
    if m < e {
        assert(p[m - at] == s[m]);
        if m + 1 < e {
            assert(p[m + 1 - at] == s[m + 1]);
        }
    }
    if s[at] == '/' && m == at {
        // the path is made of its closing slashes alone
        assert(e > at);
    }
}

/// The token that starts at `at` is written there in full.
proof fn lemma_lexeme_is_written(s: Seq<char>, at: int)
    requires
        lexeme_at(s, at) is Some,
    ensures
        lexeme_at(s, at) matches Some((t, k)) && at < k <= s.len() && is_written(
            t,
            s.subrange(at, k),
        ),
{
    let (t, k) = lexeme_at(s, at)->0;
    let w = s.subrange(at, k);
    if s[at] == '(' || s[at] == ')' || s[at] == '|' {
        assert(w =~= seq![s[at]]);
    } else if s[at] == '#' {
        lemma_leading(s.skip(at + 1), CharClass::Word);
        let body = s.subrange(at + 1, k);
        assert(w =~= seq!['#'] + body);
        assert forall|i: int| 0 <= i < body.len() implies is_word(#[trigger] body[i]) by {
            assert(body[i] == s.skip(at + 1)[i]);
            assert(CharClass::Word.has(s.skip(at + 1)[i]));
        }
    } else if s[at] == '"' {
        lemma_leading(s.skip(at + 1), CharClass::Unquoted);
        let body = s.subrange(at + 1, k - 1);
        assert(s.skip(at + 1)[k - 1 - (at + 1)] == s[k - 1]);
        assert(w =~= seq!['"'] + body + seq!['"']);
        assert forall|i: int| 0 <= i < body.len() implies body[i] != '"' by {
            assert(body[i] == s.skip(at + 1)[i]);
            assert(CharClass::Unquoted.has(s.skip(at + 1)[i]));
        }
    } else if s[at] == '.' || s[at] == '/' {
        lemma_path_in_window(s, at);
    } else {
        lemma_leading(s.skip(at), CharClass::Word);
        assert(s.skip(at)[0] == s[at]);
        assert forall|i: int| 0 <= i < w.len() implies is_word(#[trigger] w[i]) by {
            assert(w[i] == s.skip(at)[i]);
            assert(CharClass::Word.has(s.skip(at)[i]));
        }
    }
}

/// The places of the tokens of `s` from `from` on.
proof fn lemma_lexing_from(s: Seq<char>, from: int) -> (cuts: Seq<(int, int)>)
    requires
        0 <= from <= s.len(),
        lexemes_from(s, from) is Some,
    ensures
        cuts.len() == lexemes_from(s, from)->0.len(),
        forall|k: int|
            0 <= k < cuts.len() ==> from <= (#[trigger] cuts[k]).0 < cuts[k].1 <= s.len()
                && is_written(lexemes_from(s, from)->0[k], s.subrange(cuts[k].0, cuts[k].1)),
        forall|k: int| 0 <= k < cuts.len() - 1 ==> (#[trigger] cuts[k]).1 <= cuts[k + 1].0,
        forall|i: int| from <= i < s.len() ==> is_whitespace(#[trigger] s[i]) || is_cut(cuts, i),
    decreases s.len() - from,
{
    let j = run_end(s, from, CharClass::Whitespace);
    lemma_leading(s.skip(from), CharClass::Whitespace);
    assert forall|i: int| from <= i < j implies is_whitespace(#[trigger] s[i]) by {
        assert(s[i] == s.skip(from)[i - from]);
        assert(CharClass::Whitespace.has(s.skip(from)[i - from]));
    }
    if j >= s.len() {
        Seq::empty()
    } else {
        lemma_lexeme_is_written(s, j);
        let (t, k) = lexeme_at(s, j)->0;
        let rest = lemma_lexing_from(s, k);
        let cuts = seq![(j, k)] + rest;
        let ts = lexemes_from(s, from)->0;
        let later = lexemes_from(s, k)->0;
        assert(ts == seq![t] + later);
        assert forall|n: int| 0 <= n < cuts.len() implies from <= (#[trigger] cuts[n]).0 < cuts[n].1
            <= s.len() && is_written(ts[n], s.subrange(cuts[n].0, cuts[n].1)) by {
            if n > 0 {
                assert(cuts[n] == rest[n - 1]);
                assert(ts[n] == later[n - 1]);
            }
        }
        assert forall|n: int| 0 <= n < cuts.len() - 1 implies (#[trigger] cuts[n]).1 <= cuts[n
            + 1].0 by {
            assert(cuts[n + 1] == rest[n]);
            if n > 0 {
                assert(cuts[n] == rest[n - 1]);
            }
        }
        assert forall|i: int| from <= i < s.len() implies is_whitespace(#[trigger] s[i]) || is_cut(
            cuts,
            i,
        ) by {
            if j <= i < k {
                assert(cuts[0].0 <= i < cuts[0].1);
            } else if i >= k && !is_whitespace(s[i]) {
                assert(is_cut(rest, i));
                let n = choose|n: int| 0 <= n < rest.len() && (#[trigger] rest[n]).0 <= i < rest[n].1;
                assert(cuts[n + 1] == rest[n]);
            }
        }
        cuts
    }
}

/// The tokens of a text are written in it: each stands in the text in
/// full, in the order of the tokens, and nothing but white space is around
/// and between them. So nothing of the text is dropped but white space,
/// the `#` of a tag and the quotes of a keyword.
pub proof fn lemma_tokens_cover_the_text(s: Seq<char>, ts: Seq<Lexeme>)
    requires
        lexemes(s) == Some(ts),
    ensures
        exists|cuts: Seq<(int, int)>| is_lexing(s, ts, cuts),
{
    let cuts = lemma_lexing_from(s, 0);
    assert(is_lexing(s, ts, cuts));
}

} // verus!
