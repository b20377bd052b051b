//! The grammar of the query language over tokens, and the parser.
//!
//! ```text
//! query     := or
//! or        := and ('|' and)*
//! and       := primitive primitive*
//! primitive := '(' or ')' | tag | path | keyword
//! ```
//!
//! Both operators associate to the left, and juxtaposition binds tighter
//! than the bar. Parentheses stay in the tree.
use vstd::prelude::*;
use crate::errors::{BearQLError, BearQLErrorView};
use crate::lexer::{
    is_lexing, is_path, is_word_text, is_written, lemma_hash_word_is_a_tag, lemma_path_is_a_path,
    lemma_tokens_cover_the_text, lemma_word_is_a_keyword, lexemes, lexemes_of, tokenize, Lexeme,
    Token,
};
use crate::query::{Query, QueryView};
use crate::text::to_chars;

verus! {

/// Whether a primitive can begin with `t`.
pub open spec fn begins_primitive(t: Lexeme) -> bool {
    !(t is Close) && !(t is Pipe)
}

/// The primitive that starts at `i`, and where it ends.
pub open spec fn primitive_at(ts: Seq<Lexeme>, i: int) -> Option<(QueryView, int)>
    decreases ts.len() - i, 0int,
{
    if !(0 <= i < ts.len()) {
        None
    } else {
        match ts[i] {
            Lexeme::Open => match or_at(ts, i + 1) {
                Some((q, k)) => if 0 <= k < ts.len() && ts[k] is Close {
                    Some((QueryView::Parenthesized(Box::new(q)), k + 1))
                } else {
                    None
                },
                None => None,
            },
            Lexeme::Tag(t) => Some((QueryView::Tag(t), i + 1)),
            Lexeme::Path(p) => Some((QueryView::Path(p), i + 1)),
            Lexeme::Keyword(k) => Some((QueryView::Keyword(k), i + 1)),
            Lexeme::Close => None,
            Lexeme::Pipe => None,
        }
    }
}

/// The conjunction of `acc` and the primitives that follow from `i`.
pub open spec fn and_from(ts: Seq<Lexeme>, i: int, acc: QueryView) -> Option<(QueryView, int)>
    decreases ts.len() - i, 1int,
{
    if 0 <= i < ts.len() && begins_primitive(ts[i]) {
        match primitive_at(ts, i) {
            Some((q, k)) => if i < k <= ts.len() {
                and_from(ts, k, QueryView::And(Box::new(acc), Box::new(q)))
            } else {
                None
            },
            None => None,
        }
    } else {
        Some((acc, i))
    }
}

/// The conjunction that starts at `i`: one primitive or more.
pub open spec fn and_at(ts: Seq<Lexeme>, i: int) -> Option<(QueryView, int)>
    decreases ts.len() - i, 2int,
{
    match primitive_at(ts, i) {
        Some((q, k)) => if i < k <= ts.len() {
            and_from(ts, k, q)
        } else {
            None
        },
        None => None,
    }
}

/// The disjunction of `acc` and the `| and` parts that follow from `i`.
pub open spec fn or_from(ts: Seq<Lexeme>, i: int, acc: QueryView) -> Option<(QueryView, int)>
    decreases ts.len() - i, 3int,
{
    if 0 <= i < ts.len() && ts[i] is Pipe {
        match and_at(ts, i + 1) {
            Some((q, k)) => if i < k <= ts.len() {
                or_from(ts, k, QueryView::Or(Box::new(acc), Box::new(q)))
            } else {
                None
            },
            None => None,
        }
    } else {
        Some((acc, i))
    }
}

/// The disjunction that starts at `i`: one conjunction or more, separated
/// by bars.
pub open spec fn or_at(ts: Seq<Lexeme>, i: int) -> Option<(QueryView, int)>
    decreases ts.len() - i, 4int,
{
    match and_at(ts, i) {
        Some((q, k)) => if i < k <= ts.len() {
            or_from(ts, k, q)
        } else {
            None
        },
        None => None,
    }
}

/// The query that the tokens `ts` spell, if they spell one to their end.
pub open spec fn parsed(ts: Seq<Lexeme>) -> Option<QueryView> {
    match or_at(ts, 0) {
        Some((q, k)) => if k == ts.len() {
            Some(q)
        } else {
            None
        },
        None => None,
    }
}

/// The query that the text `s` spells, if it spells one.
pub open spec fn query_of(s: Seq<char>) -> Option<QueryView> {
    match lexemes(s) {
        Some(ts) => parsed(ts),
        None => None,
    }
}

/// Decides whether a primitive can begin with `t`.
fn begins(t: &Token) -> (r: bool)
    ensures
        r == begins_primitive(t@),
{
    match t {
        Token::Close => false,
        Token::Pipe => false,
        _ => true,
    }
}

/// Decides whether `t` is a bar.
fn is_pipe(t: &Token) -> (r: bool)
    ensures
        r == (t@ is Pipe),
{
    match t {
        Token::Pipe => true,
        _ => false,
    }
}

/// Decides whether `t` is a closing parenthesis.
fn is_close(t: &Token) -> (r: bool)
    ensures
        r == (t@ is Close),
{
    match t {
        Token::Close => true,
        _ => false,
    }
}

/// Reads the primitive that starts at `i`.
fn parse_primitive(ts: &Vec<Token>, i: usize) -> (r: Option<(Query, usize)>)
    requires
        i <= ts.len(),
    ensures
        match r {
            Some((q, k)) => primitive_at(lexemes_of(ts@), i as int) == Some((q@, k as int)) && i < k
                <= ts.len(),
            None => primitive_at(lexemes_of(ts@), i as int) is None,
        },
    decreases ts.len() - i, 0int,
{
    if i >= ts.len() {
        return None;
    }
    match &ts[i] {
        Token::Open => match parse_or(ts, i + 1) {
            Some((q, k)) => {
                if k < ts.len() && is_close(&ts[k]) {
                    Some((Query::Parenthesized(Box::new(q)), k + 1))
                } else {
                    None
                }
            },
            None => None,
        },
        Token::Tag(t) => Some((Query::Tag(t.clone()), i + 1)),
        Token::Path(p) => Some((Query::Path(p.clone()), i + 1)),
        Token::Keyword(k) => Some((Query::Keyword(k.clone()), i + 1)),
        Token::Close => None,
        Token::Pipe => None,
    }
}

/// Reads the conjunction that starts at `i`.
fn parse_and(ts: &Vec<Token>, i: usize) -> (r: Option<(Query, usize)>)
    requires
        i <= ts.len(),
    ensures
        match r {
            Some((q, k)) => and_at(lexemes_of(ts@), i as int) == Some((q@, k as int)) && i < k
                <= ts.len(),
            None => and_at(lexemes_of(ts@), i as int) is None,
        },
    decreases ts.len() - i, 2int,
{
    let ghost ls = lexemes_of(ts@);
    let (mut acc, mut k) = match parse_primitive(ts, i) {
        Some(first) => first,
        None => {
            return None;
        },
    };
    while k < ts.len() && begins(&ts[k])
        invariant
            i < k <= ts.len(),
            ls == lexemes_of(ts@),
            and_at(ls, i as int) == and_from(ls, k as int, acc@),
        decreases ts.len() - k,
    {
        match parse_primitive(ts, k) {
            Some((q, next)) => {
                acc = Query::And(Box::new(acc), Box::new(q));
                k = next;
            },
            None => {
                return None;
            },
        }
    }
    Some((acc, k))
}

/// Reads the disjunction that starts at `i`.
fn parse_or(ts: &Vec<Token>, i: usize) -> (r: Option<(Query, usize)>)
    requires
        i <= ts.len(),
    ensures
        match r {
            Some((q, k)) => or_at(lexemes_of(ts@), i as int) == Some((q@, k as int)) && i < k
                <= ts.len(),
            None => or_at(lexemes_of(ts@), i as int) is None,
        },
    decreases ts.len() - i, 4int,
{
    let ghost ls = lexemes_of(ts@);
    let (mut acc, mut k) = match parse_and(ts, i) {
        Some(first) => first,
        None => {
            return None;
        },
    };
    while k < ts.len() && is_pipe(&ts[k])
        invariant
            i < k <= ts.len(),
            ls == lexemes_of(ts@),
            or_at(ls, i as int) == or_from(ls, k as int, acc@),
        decreases ts.len() - k,
    {
        match parse_and(ts, k + 1) {
            Some((q, next)) => {
                acc = Query::Or(Box::new(acc), Box::new(q));
                k = next;
            },
            None => {
                return None;
            },
        }
    }
    Some((acc, k))
}

/// Builds the query that `ts` spells. `None` where the tokens spell no
/// query, or spell one and go on after it.
pub fn parse_tokens(ts: &Vec<Token>) -> (r: Option<Query>)
    ensures
        match r {
            Some(q) => parsed(lexemes_of(ts@)) == Some(q@),
            None => parsed(lexemes_of(ts@)) is None,
        },
{
    match parse_or(ts, 0) {
        Some((q, k)) => {
            if k == ts.len() {
                Some(q)
            } else {
                None
            }
        },
        None => None,
    }
}

/// The diagnostic of a syntax error for the text `s`.
pub open spec fn diagnostic(s: Seq<char>) -> Seq<char> {
    if lexemes(s) is None {
        "unreadable term"@
    } else {
        "unexpected token or end of query"@
    }
}

/// The syntax error for the text `s`: it carries the text and says whether
/// a term was unreadable or the tokens were out of place.
pub open spec fn syntax_error(s: Seq<char>) -> BearQLErrorView {
    BearQLErrorView::SyntaxError {
        msg: "failed to parse query"@,
        ql: s,
        err_msg: diagnostic(s),
    }
}

/// Reads a query. A text that the grammar does not cover to its end is a
/// syntax error that carries the text and says whether a term was
/// unreadable or the tokens were out of place.
pub fn parse_query(raw: &str) -> (r: Result<Query, BearQLError>)
    ensures
        match query_of(raw@) {
            Some(q) => r matches Ok(found) && found@ == q,
            None => r matches Err(e) && e@ == syntax_error(raw@),
        },
{
    let chars = to_chars(raw);
    let found = match tokenize(&chars) {
        Some(ts) => match parse_tokens(&ts) {
            Some(q) => {
                return Ok(q);
            },
            None => "unexpected token or end of query",
        },
        None => "unreadable term",
    };
    Err(
        BearQLError::SyntaxError {
            msg: "failed to parse query".to_owned(),
            ql: raw.to_owned(),
            err_msg: found.to_owned(),
        },
    )
}

/// The tokens that spell the tree: the operands of a conjunction side by
/// side, those of a disjunction with a bar between them, a parenthesized
/// tree within its parentheses.
pub open spec fn spelled(q: QueryView) -> Seq<Lexeme>
    decreases q,
{
    match q {
        QueryView::Or(a, b) => spelled(*a) + seq![Lexeme::Pipe] + spelled(*b),
        QueryView::And(a, b) => spelled(*a) + spelled(*b),
        QueryView::Parenthesized(a) => seq![Lexeme::Open] + spelled(*a) + seq![Lexeme::Close],
        QueryView::Path(p) => seq![Lexeme::Path(p)],
        QueryView::Tag(t) => seq![Lexeme::Tag(t)],
        QueryView::Keyword(k) => seq![Lexeme::Keyword(k)],
    }
}

/// Whether the tree is a primitive: a term or a parenthesized tree.
pub open spec fn is_primitive(q: QueryView) -> bool {
    !(q is Or) && !(q is And)
}

/// Whether the tree is a primitive or a conjunction.
pub open spec fn is_conjunction(q: QueryView) -> bool {
    !(q is Or)
}

/// Whether the tree has the shape that the grammar gives: both operators
/// lean to the left, and a disjunction is an operand of another operator
/// only in parentheses or as the left operand of a disjunction.
pub open spec fn is_canonical(q: QueryView) -> bool
    decreases q,
{
    match q {
        QueryView::Or(a, b) => is_canonical(*a) && is_canonical(*b) && is_conjunction(*b),
        QueryView::And(a, b) => is_canonical(*a) && is_canonical(*b) && is_conjunction(*a)
            && is_primitive(*b),
        QueryView::Parenthesized(a) => is_canonical(*a),
        _ => true,
    }
}

/// A tree is spelled with one token at least, and a conjunction begins
/// with a token that a primitive can begin with.
pub proof fn lemma_spelled_begins(q: QueryView)
    requires
        is_canonical(q),
    ensures
        spelled(q).len() > 0,
        is_conjunction(q) ==> begins_primitive(spelled(q)[0]),
    decreases q,
{
    match q {
        QueryView::Or(a, b) => {
            lemma_spelled_begins(*a);
        },
        QueryView::And(a, b) => {
            lemma_spelled_begins(*a);
        },
        _ => {},
    }
}

/// What each production reads is spelled by the tree it gives, and the tree
/// has the shape of the production.
proof fn lemma_reads_what_is_spelled(ts: Seq<Lexeme>, i: int, rank: int, acc: QueryView, from: int)
    requires
        0 <= rank <= 4,
        rank == 1 ==> 0 <= from < i <= ts.len() && spelled(acc) == ts.subrange(from, i)
            && is_canonical(acc) && is_conjunction(acc),
        rank == 3 ==> 0 <= from < i <= ts.len() && spelled(acc) == ts.subrange(from, i)
            && is_canonical(acc),
    ensures
        rank == 0 ==> (primitive_at(ts, i) matches Some((q, k)) ==> i < k <= ts.len() && spelled(q)
            == ts.subrange(i, k) && is_canonical(q) && is_primitive(q)),
        rank == 1 ==> (and_from(ts, i, acc) matches Some((q, k)) ==> i <= k <= ts.len() && spelled(
            q,
        ) == ts.subrange(from, k) && is_canonical(q) && is_conjunction(q)),
        rank == 2 ==> (and_at(ts, i) matches Some((q, k)) ==> i < k <= ts.len() && spelled(q)
            == ts.subrange(i, k) && is_canonical(q) && is_conjunction(q)),
        rank == 3 ==> (or_from(ts, i, acc) matches Some((q, k)) ==> i <= k <= ts.len() && spelled(q)
            == ts.subrange(from, k) && is_canonical(q)),
        rank == 4 ==> (or_at(ts, i) matches Some((q, k)) ==> i < k <= ts.len() && spelled(q)
            == ts.subrange(i, k) && is_canonical(q)),
    decreases ts.len() - i, rank,
{
    if rank == 0 {
        if 0 <= i < ts.len() {
            match ts[i] {
                Lexeme::Open => {
                    lemma_reads_what_is_spelled(ts, i + 1, 4, acc, from);
                    if let Some((q, k)) = or_at(ts, i + 1) {
                        if 0 <= k < ts.len() && ts[k] is Close {
                            assert(seq![Lexeme::Open] + ts.subrange(i + 1, k) + seq![Lexeme::Close]
                                =~= ts.subrange(i, k + 1));
                        }
                    }
                },
                Lexeme::Tag(t) => {
                    assert(seq![Lexeme::Tag(t)] =~= ts.subrange(i, i + 1));
                },
                Lexeme::Path(p) => {
                    assert(seq![Lexeme::Path(p)] =~= ts.subrange(i, i + 1));
                },
                Lexeme::Keyword(w) => {
                    assert(seq![Lexeme::Keyword(w)] =~= ts.subrange(i, i + 1));
                },
                _ => {},
            }
        }
    } else if rank == 1 {
        if 0 <= i < ts.len() && begins_primitive(ts[i]) {
            lemma_reads_what_is_spelled(ts, i, 0, acc, from);
            if let Some((q, k)) = primitive_at(ts, i) {
                if i < k <= ts.len() {
                    let both = QueryView::And(Box::new(acc), Box::new(q));
                    assert(spelled(both) =~= ts.subrange(from, k));
                    lemma_reads_what_is_spelled(ts, k, 1, both, from);
                }
            }
        }
    } else if rank == 2 {
        lemma_reads_what_is_spelled(ts, i, 0, acc, from);
        if let Some((q, k)) = primitive_at(ts, i) {
            if i < k <= ts.len() {
                lemma_reads_what_is_spelled(ts, k, 1, q, i);
            }
        }
    } else if rank == 3 {
        if 0 <= i < ts.len() && ts[i] is Pipe {
            lemma_reads_what_is_spelled(ts, i + 1, 2, acc, from);
            if let Some((q, k)) = and_at(ts, i + 1) {
                if i < k <= ts.len() {
                    let either = QueryView::Or(Box::new(acc), Box::new(q));
                    assert(spelled(either) =~= ts.subrange(from, k));
                    lemma_reads_what_is_spelled(ts, k, 3, either, from);
                }
            }
        }
    } else {
        lemma_reads_what_is_spelled(ts, i, 2, acc, from);
        if let Some((q, k)) = and_at(ts, i) {
            if i < k <= ts.len() {
                lemma_reads_what_is_spelled(ts, k, 3, q, i);
            }
        }
    }
}

/// What the parser builds spells the tokens it was given, all of them and
/// in their order, and has the shape that the grammar gives: nothing is
/// lost and nothing regrouped.
pub proof fn lemma_parsed_is_spelled(ts: Seq<Lexeme>, q: QueryView)
    requires
        parsed(ts) == Some(q),
    ensures
        spelled(q) == ts,
        is_canonical(q),
{
    lemma_reads_what_is_spelled(ts, 0, 4, q, 0);
    assert(ts.subrange(0, ts.len() as int) =~= ts);
}

/// Whether a primitive can go on at `i`.
pub open spec fn primitive_follows(ts: Seq<Lexeme>, i: int) -> bool {
    0 <= i < ts.len() && begins_primitive(ts[i])
}

/// Where the spelling of a canonical tree stands at `i`, each production
/// that the tree is of reads exactly the tree, up to what may follow it.
proof fn lemma_spelling_is_read(ts: Seq<Lexeme>, i: int, q: QueryView)
    requires
        is_canonical(q),
        0 <= i,
        i + spelled(q).len() <= ts.len(),
        ts.subrange(i, i + spelled(q).len()) == spelled(q),
    ensures
        is_primitive(q) ==> primitive_at(ts, i) == Some((q, i + spelled(q).len())),
        is_conjunction(q) ==> and_at(ts, i) == and_from(ts, i + spelled(q).len(), q),
        !primitive_follows(ts, i + spelled(q).len()) ==> or_at(ts, i) == or_from(
            ts,
            i + spelled(q).len(),
            q,
        ),
    decreases q,
{
    let n = spelled(q).len() as int;
    let here = ts.subrange(i, i + n);
    lemma_spelled_begins(q);
    assert(ts[i] == here[0]);
    match q {
        QueryView::Or(a, b) => {
            let na = spelled(*a).len() as int;
            let nb = spelled(*b).len() as int;
            lemma_spelled_begins(*a);
            lemma_spelled_begins(*b);
            assert(ts.subrange(i, i + na) =~= spelled(*a)) by {
                assert forall|j: int| 0 <= j < na implies ts.subrange(i, i + na)[j] == spelled(
                    *a,
                )[j] by {
                    assert(here[j] == spelled(*a)[j]);
                }
            }
            assert(ts[i + na] == here[na]);
            assert(ts.subrange(i + na + 1, i + na + 1 + nb) =~= spelled(*b)) by {
                assert forall|j: int| 0 <= j < nb implies ts.subrange(i + na + 1, i + na + 1 + nb)[j]
                    == spelled(*b)[j] by {
                    assert(here[na + 1 + j] == spelled(*b)[j]);
                }
            }
            lemma_spelling_is_read(ts, i, *a);
            lemma_spelling_is_read(ts, i + na + 1, *b);
            if !primitive_follows(ts, i + n) {
                assert(or_at(ts, i) == or_from(ts, i + na, *a));
                assert(and_at(ts, i + na + 1) == Some((*b, i + n)));
            }
        },
        QueryView::And(a, b) => {
            let na = spelled(*a).len() as int;
            let nb = spelled(*b).len() as int;
            lemma_spelled_begins(*a);
            lemma_spelled_begins(*b);
            assert(ts.subrange(i, i + na) =~= spelled(*a)) by {
                assert forall|j: int| 0 <= j < na implies ts.subrange(i, i + na)[j] == spelled(
                    *a,
                )[j] by {
                    assert(here[j] == spelled(*a)[j]);
                }
            }
            assert(ts.subrange(i + na, i + na + nb) =~= spelled(*b)) by {
                assert forall|j: int| 0 <= j < nb implies ts.subrange(i + na, i + na + nb)[j]
                    == spelled(*b)[j] by {
                    assert(here[na + j] == spelled(*b)[j]);
                }
            }
            assert(ts[i + na] == spelled(*b)[0]) by {
                assert(here[na] == spelled(*b)[0]);
            }
            lemma_spelling_is_read(ts, i, *a);
            lemma_spelling_is_read(ts, i + na, *b);
            assert(and_at(ts, i) == and_from(ts, i + n, q));
            if !primitive_follows(ts, i + n) {
                assert(and_at(ts, i) == Some((q, i + n)));
            }
        },
        QueryView::Parenthesized(a) => {
            let na = spelled(*a).len() as int;
            assert(ts.subrange(i + 1, i + 1 + na) =~= spelled(*a)) by {
                assert forall|j: int| 0 <= j < na implies ts.subrange(i + 1, i + 1 + na)[j]
                    == spelled(*a)[j] by {
                    assert(here[1 + j] == spelled(*a)[j]);
                }
            }
            assert(ts[i + 1 + na] == here[1 + na]);
            lemma_spelled_begins(*a);
            lemma_spelling_is_read(ts, i + 1, *a);
            assert(or_at(ts, i + 1) == Some((*a, i + 1 + na)));
            assert(primitive_at(ts, i) == Some((q, i + n)));
            if !primitive_follows(ts, i + n) {
                assert(and_at(ts, i) == Some((q, i + n)));
            }
        },
        QueryView::Path(p) => {
            assert(primitive_at(ts, i) == Some((q, i + n)));
            if !primitive_follows(ts, i + n) {
                assert(and_at(ts, i) == Some((q, i + n)));
            }
        },
        QueryView::Tag(t) => {
            assert(primitive_at(ts, i) == Some((q, i + n)));
            if !primitive_follows(ts, i + n) {
                assert(and_at(ts, i) == Some((q, i + n)));
            }
        },
        QueryView::Keyword(w) => {
            assert(primitive_at(ts, i) == Some((q, i + n)));
            if !primitive_follows(ts, i + n) {
                assert(and_at(ts, i) == Some((q, i + n)));
            }
        },
    }
}

/// The parser reads back what a tree of the grammar's shape is spelled
/// with. With the law before, the parser gives the tree `q` for the tokens
/// `ts` exactly if `q` has that shape and is spelled `ts`.
pub proof fn lemma_spelled_is_parsed(q: QueryView)
    requires
        is_canonical(q),
    ensures
        parsed(spelled(q)) == Some(q),
{
    let ts = spelled(q);
    assert(ts.subrange(0, ts.len() as int) =~= ts);
    lemma_spelled_begins(q);
    lemma_spelling_is_read(ts, 0, q);
}

/// A word alone reads as the keyword that it is.
pub proof fn lemma_word_reads_as_keyword(w: Seq<char>)
    requires
        w.len() > 0,
        is_word_text(w),
    ensures
        query_of(w) == Some(QueryView::Keyword(w)),
{
    lemma_word_is_a_keyword(w);
    lemma_spelled_is_parsed(QueryView::Keyword(w));
}

/// A `#` with a word behind it reads as the tag of that name, and a `#`
/// alone as the tag without a name.
pub proof fn lemma_hash_word_reads_as_tag(w: Seq<char>)
    requires
        is_word_text(w),
    ensures
        query_of(seq!['#'] + w) == Some(QueryView::Tag(w)),
{
    lemma_hash_word_is_a_tag(w);
    lemma_spelled_is_parsed(QueryView::Tag(w));
}

/// A path alone reads as the path that it is, as written.
pub proof fn lemma_path_reads_as_path(p: Seq<char>)
    requires
        is_path(p),
    ensures
        query_of(p) == Some(QueryView::Path(p)),
{
    lemma_path_is_a_path(p);
    lemma_spelled_is_parsed(QueryView::Path(p));
}

/// Whether every path term of the tree is a path of the grammar.
pub open spec fn has_grammar_paths(q: QueryView) -> bool
    decreases q,
{
    match q {
        QueryView::Or(a, b) => has_grammar_paths(*a) && has_grammar_paths(*b),
        QueryView::And(a, b) => has_grammar_paths(*a) && has_grammar_paths(*b),
        QueryView::Parenthesized(a) => has_grammar_paths(*a),
        QueryView::Path(p) => is_path(p),
        _ => true,
    }
}

/// Whether every path token is a path of the grammar.
pub open spec fn are_grammar_paths(ts: Seq<Lexeme>) -> bool {
    forall|k: int| 0 <= k < ts.len() ==> (#[trigger] ts[k] matches Lexeme::Path(p) ==> is_path(p))
}

/// A tree spelled with paths of the grammar holds paths of the grammar.
proof fn lemma_spelled_paths(q: QueryView)
    requires
        are_grammar_paths(spelled(q)),
    ensures
        has_grammar_paths(q),
    decreases q,
{
    let ts = spelled(q);
    match q {
        QueryView::Or(a, b) => {
            let sa = spelled(*a);
            let sb = spelled(*b);
            assert forall|k: int| 0 <= k < sa.len() implies (#[trigger] sa[k] matches Lexeme::Path(
                p,
            ) ==> is_path(p)) by {
                assert(ts[k] == sa[k]);
            }
            assert forall|k: int| 0 <= k < sb.len() implies (#[trigger] sb[k] matches Lexeme::Path(
                p,
            ) ==> is_path(p)) by {
                assert(ts[sa.len() + 1 + k] == sb[k]);
            }
            lemma_spelled_paths(*a);
            lemma_spelled_paths(*b);
        },
        QueryView::And(a, b) => {
            let sa = spelled(*a);
            let sb = spelled(*b);
            assert forall|k: int| 0 <= k < sa.len() implies (#[trigger] sa[k] matches Lexeme::Path(
                p,
            ) ==> is_path(p)) by {
                assert(ts[k] == sa[k]);
            }
            assert forall|k: int| 0 <= k < sb.len() implies (#[trigger] sb[k] matches Lexeme::Path(
                p,
            ) ==> is_path(p)) by {
                assert(ts[sa.len() + k] == sb[k]);
            }
            lemma_spelled_paths(*a);
            lemma_spelled_paths(*b);
        },
        QueryView::Parenthesized(a) => {
            let sa = spelled(*a);
            assert forall|k: int| 0 <= k < sa.len() implies (#[trigger] sa[k] matches Lexeme::Path(
                p,
            ) ==> is_path(p)) by {
                assert(ts[1 + k] == sa[k]);
            }
            lemma_spelled_paths(*a);
        },
        QueryView::Path(p) => {
            assert(ts[0] == Lexeme::Path(p));
        },
        _ => {},
    }
}

/// Every path term of a query that was read is a path of the grammar.
pub proof fn lemma_read_paths_are_paths(s: Seq<char>, q: QueryView)
    requires
        query_of(s) == Some(q),
    ensures
        has_grammar_paths(q),
{
    let ts = lexemes(s)->0;
    lemma_tokens_cover_the_text(s, ts);
    let cuts = choose|cuts: Seq<(int, int)>| is_lexing(s, ts, cuts);
    assert forall|k: int| 0 <= k < ts.len() implies (#[trigger] ts[k] matches Lexeme::Path(p)
        ==> is_path(p)) by {
        assert(is_written(ts[k], s.subrange(cuts[k].0, cuts[k].1)));
    }
    lemma_parsed_is_spelled(ts, q);
    lemma_spelled_paths(q);
}

} // verus!
