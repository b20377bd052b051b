//! Character-level helpers: conversions between strings and character
//! vectors, character classes, trimming, prefix and substring tests.
//!
//! Every contract is stated over `Seq<char>`, the view of `str`, `String`
//! and `Vec<char>` alike.
use vstd::prelude::*;

verus! {

/// `String::push` appends one character to the end of the string.
pub assume_specification[ String::push ](s: &mut String, c: char)
    ensures
        final(s)@ == old(s)@.push(c),
;

/// Classes of characters that can be stripped from either end of a text.
#[derive(Clone, Copy, Debug)]
pub enum CharClass {
    /// Unicode white space.
    Whitespace,
    /// The path separator `/`.
    Slash,
    /// Word characters.
    Word,
    /// Every character but the double quote.
    Unquoted,
    /// Every character but the path separator.
    Unslashed,
}

/// Unicode `White_Space`: the characters that `char::is_whitespace` accepts.
pub open spec fn is_whitespace(c: char) -> bool {
    let n = c as u32;
    ||| 0x09 <= n <= 0x0D
    ||| n == 0x20
    ||| n == 0x85
    ||| n == 0xA0
    ||| n == 0x1680
    ||| 0x2000 <= n <= 0x200A
    ||| n == 0x2028
    ||| n == 0x2029
    ||| n == 0x202F
    ||| n == 0x205F
    ||| n == 0x3000
}

/// Whether `c` is a word character of Unicode: one with the property
/// `Alphabetic` or `Join_Control`, or of the general category
/// `Decimal_Number`, `Mark` or `Connector_Punctuation`.
pub uninterp spec fn is_unicode_word(c: char) -> bool;

/// `regex_syntax::is_word_character`: whether the character is a Unicode
/// word character. It depends on the character alone.
#[verifier::external_body]
fn unicode_word(c: char) -> (r: bool)
    ensures
        r == is_unicode_word(c),
{
    regex_syntax::is_word_character(c)
}

/// Whether `c` is an ASCII character.
pub open spec fn is_ascii(c: char) -> bool {
    c <= '\u{7f}'
}

/// A word character of ASCII: a letter, a digit or the underscore.
pub open spec fn is_ascii_word(c: char) -> bool {
    ||| 'a' <= c <= 'z'
    ||| 'A' <= c <= 'Z'
    ||| '0' <= c <= '9'
    ||| c == '_'
}

/// A word character, as `\w` has it: within ASCII a letter, a digit or the
/// underscore, beyond ASCII a word character of Unicode. No white space is
/// a word character, which the definition makes explicit.
pub open spec fn is_word(c: char) -> bool {
    if is_ascii(c) {
        is_ascii_word(c)
    } else {
        is_unicode_word(c) && !is_whitespace(c)
    }
}

impl CharClass {
    /// Whether `c` belongs to the class.
    pub open spec fn has(self, c: char) -> bool {
        match self {
            CharClass::Whitespace => is_whitespace(c),
            CharClass::Slash => c == '/',
            CharClass::Word => is_word(c),
            CharClass::Unquoted => c != '"',
            CharClass::Unslashed => c != '/',
        }
    }

    /// Decides membership of `c` in the class.
    pub fn contains(self, c: char) -> (r: bool)
        ensures
            r == self.has(c),
    {
        match self {
            CharClass::Whitespace => whitespace(c),
            CharClass::Slash => c == '/',
            CharClass::Word => word(c),
            CharClass::Unquoted => c != '"',
            CharClass::Unslashed => c != '/',
        }
    }
}

/// Decides whether `c` is white space.
pub fn whitespace(c: char) -> (r: bool)
    ensures
        r == is_whitespace(c),
{
    let n: u32 = c as u32;
    (0x09 <= n && n <= 0x0D) || n == 0x20 || n == 0x85 || n == 0xA0 || n == 0x1680 || (0x2000 <= n
        && n <= 0x200A) || n == 0x2028 || n == 0x2029 || n == 0x202F || n == 0x205F || n == 0x3000
}

/// Decides whether `c` is a word character, given whether it is a word
/// character of Unicode.
pub fn word_given(c: char, unicode: bool) -> (r: bool)
    ensures
        r == (if is_ascii(c) {
            is_ascii_word(c)
        } else {
            unicode && !is_whitespace(c)
        }),
{
    if c <= '\u{7f}' {
        ('a' <= c && c <= 'z') || ('A' <= c && c <= 'Z') || ('0' <= c && c <= '9') || c == '_'
    } else {
        unicode && !whitespace(c)
    }
}

/// Decides whether `c` is a word character.
pub fn word(c: char) -> (r: bool)
    ensures
        r == is_word(c),
{
    if c <= '\u{7f}' {
        word_given(c, false)
    } else {
        word_given(c, unicode_word(c))
    }
}

/// The number of leading characters of `s` that belong to `class`.
pub open spec fn leading(s: Seq<char>, class: CharClass) -> nat
    decreases s.len(),
{
    if s.len() > 0 && class.has(s[0]) {
        1 + leading(s.skip(1), class)
    } else {
        0
    }
}

/// The number of trailing characters of `s` that belong to `class`.
pub open spec fn trailing(s: Seq<char>, class: CharClass) -> nat
    decreases s.len(),
{
    if s.len() > 0 && class.has(s.last()) {
        1 + trailing(s.drop_last(), class)
    } else {
        0
    }
}

/// `s` without its trailing characters of `class`.
pub open spec fn strip_end(s: Seq<char>, class: CharClass) -> Seq<char> {
    s.take(s.len() - trailing(s, class))
}

/// `s` without its leading characters of `class`.
pub open spec fn strip_start(s: Seq<char>, class: CharClass) -> Seq<char> {
    s.skip(leading(s, class) as int)
}

/// `s` without leading and trailing white space.
pub open spec fn trimmed(s: Seq<char>) -> Seq<char> {
    strip_end(strip_start(s, CharClass::Whitespace), CharClass::Whitespace)
}

/// Whether `s` holds nothing but white space.
pub open spec fn is_blank(s: Seq<char>) -> bool {
    forall|i: int| 0 <= i < s.len() ==> is_whitespace(#[trigger] s[i])
}

/// Nothing is left of a blank text when it is trimmed.
pub proof fn lemma_trimmed_blank(s: Seq<char>)
    requires
        is_blank(s),
    ensures
        trimmed(s) == Seq::<char>::empty(),
{
    lemma_leading_is(s, CharClass::Whitespace, s.len());
    let rest = strip_start(s, CharClass::Whitespace);
    assert(rest.len() == 0);
    assert(trimmed(s) =~= Seq::<char>::empty());
}

/// A text that neither begins nor ends with white space stays as it is
/// when the white space around it is trimmed off.
pub proof fn lemma_trimmed_core(before: Seq<char>, core: Seq<char>, after: Seq<char>)
    requires
        is_blank(before),
        is_blank(after),
        core.len() > 0,
        !is_whitespace(core[0]),
        !is_whitespace(core.last()),
    ensures
        trimmed(before + core + after) == core,
{
    let s = before + core + after;
    assert(s[before.len() as int] == core[0]);
    lemma_leading_is(s, CharClass::Whitespace, before.len());
    let rest = strip_start(s, CharClass::Whitespace);
    assert(rest =~= core + after);
    assert(rest[core.len() - 1] == core.last());
    lemma_trailing_is(rest, CharClass::Whitespace, after.len());
    assert(trimmed(s) =~= core);
}

/// `leading` counts a maximal prefix: all of it is in the class, and the
/// character after it, if any, is not.
pub proof fn lemma_leading(s: Seq<char>, class: CharClass)
    ensures
        leading(s, class) <= s.len(),
        forall|i: int| 0 <= i < leading(s, class) ==> class.has(#[trigger] s[i]),
        leading(s, class) < s.len() ==> !class.has(s[leading(s, class) as int]),
    decreases s.len(),
{
    if s.len() > 0 && class.has(s[0]) {
        let t = s.skip(1);
        lemma_leading(t, class);
        assert forall|i: int| 0 <= i < leading(s, class) implies class.has(#[trigger] s[i]) by {
            if i > 0 {
                assert(s[i] == t[i - 1]);
            }
        }
        if leading(s, class) < s.len() {
            assert(s[leading(s, class) as int] == t[leading(t, class) as int]);
        }
    }
}

/// `trailing` counts a maximal suffix: all of it is in the class, and the
/// character before it, if any, is not.
pub proof fn lemma_trailing(s: Seq<char>, class: CharClass)
    ensures
        trailing(s, class) <= s.len(),
        forall|i: int| s.len() - trailing(s, class) <= i < s.len() ==> class.has(#[trigger] s[i]),
        trailing(s, class) < s.len() ==> !class.has(s[s.len() - trailing(s, class) - 1]),
    decreases s.len(),
{
    if s.len() > 0 && class.has(s.last()) {
        let t = s.drop_last();
        lemma_trailing(t, class);
        assert forall|i: int| s.len() - trailing(s, class) <= i < s.len() implies class.has(
            #[trigger] s[i],
        ) by {
            if i < s.len() - 1 {
                assert(s[i] == t[i]);
            }
        }
        if trailing(s, class) < s.len() {
            assert(s[s.len() - trailing(s, class) - 1] == t[t.len() - trailing(t, class) - 1]);
        }
    }
}

/// A run of `n` class characters at the front of `s`, followed by the end
/// of `s` or a character outside the class, is the leading run.
pub proof fn lemma_leading_is(s: Seq<char>, class: CharClass, n: nat)
    requires
        n <= s.len(),
        forall|i: int| 0 <= i < n ==> class.has(#[trigger] s[i]),
        n < s.len() ==> !class.has(s[n as int]),
    ensures
        leading(s, class) == n,
    decreases s.len(),
{
    if n > 0 {
        let t = s.skip(1);
        assert forall|i: int| 0 <= i < n - 1 implies class.has(#[trigger] t[i]) by {
            assert(t[i] == s[i + 1]);
        }
        if n - 1 < t.len() {
            assert(t[n - 1] == s[n as int]);
        }
        lemma_leading_is(t, class, (n - 1) as nat);
    }
}

/// A run of `n` class characters at the back of `s`, preceded by the start
/// of `s` or a character outside the class, is the trailing run.
pub proof fn lemma_trailing_is(s: Seq<char>, class: CharClass, n: nat)
    requires
        n <= s.len(),
        forall|i: int| s.len() - n <= i < s.len() ==> class.has(#[trigger] s[i]),
        n < s.len() ==> !class.has(s[s.len() - n - 1]),
    ensures
        trailing(s, class) == n,
    decreases s.len(),
{
    if n > 0 {
        let t = s.drop_last();
        assert forall|i: int| t.len() - (n - 1) <= i < t.len() implies class.has(
            #[trigger] t[i],
        ) by {
            assert(t[i] == s[i]);
        }
        if n - 1 < t.len() {
            assert(t[t.len() - (n - 1) - 1] == s[s.len() - n - 1]);
        }
        lemma_trailing_is(t, class, (n - 1) as nat);
    }
}

/// The values of a sequence of texts.
pub open spec fn texts(v: Seq<String>) -> Seq<Seq<char>> {
    Seq::new(v.len(), |i: int| v[i]@)
}

/// The characters of `s`, in order.
pub fn to_chars(s: &str) -> (out: Vec<char>)
    ensures
        out@ == s@,
{
    let mut out: Vec<char> = Vec::new();
    for c in it: s.chars()
        invariant
            out@ == it.seq().take(it.index()),
            it.seq() == s@,
    {
        out.push(c);
    }
    out
}

/// The string made of the characters `v[from..to]`.
pub fn to_string(v: &Vec<char>, from: usize, to: usize) -> (out: String)
    requires
        from <= to <= v.len(),
    ensures
        out@ == v@.subrange(from as int, to as int),
{
    let mut out = String::new();
    let mut i: usize = from;
    while i < to
        invariant
            from <= i <= to <= v.len(),
            out@ == v@.subrange(from as int, i as int),
        decreases to - i,
    {
        out.push(v[i]);
        i += 1;
    }
    out
}

/// Appends the characters `v[from..to]` to `out`.
pub fn push_range(out: &mut Vec<char>, v: &Vec<char>, from: usize, to: usize)
    requires
        from <= to <= v.len(),
    ensures
        final(out)@ == old(out)@ + v@.subrange(from as int, to as int),
{
    let mut i: usize = from;
    while i < to
        invariant
            from <= i <= to <= v.len(),
            out@ == old(out)@ + v@.subrange(from as int, i as int),
        decreases to - i,
    {
        out.push(v[i]);
        i += 1;
    }
}

/// The index of the first character of `v[from..to]` outside `class`, or
/// `to` if there is none.
pub fn skip_leading(v: &Vec<char>, from: usize, to: usize, class: CharClass) -> (at: usize)
    requires
        from <= to <= v.len(),
    ensures
        at == from + leading(v@.subrange(from as int, to as int), class),
        from <= at <= to,
{
    let mut i: usize = from;
    while i < to && class.contains(v[i])
        invariant
            from <= i <= to <= v.len(),
            forall|k: int| from <= k < i ==> class.has(#[trigger] v@[k]),
        decreases to - i,
    {
        i += 1;
    }
    proof {
        lemma_leading_is(v@.subrange(from as int, to as int), class, (i - from) as nat);
    }
    i
}

/// The index just behind the last character of `v[from..to]` outside
/// `class`, or `from` if there is none.
pub fn skip_trailing(v: &Vec<char>, from: usize, to: usize, class: CharClass) -> (at: usize)
    requires
        from <= to <= v.len(),
    ensures
        at == to - trailing(v@.subrange(from as int, to as int), class),
        from <= at <= to,
{
    let mut i: usize = to;
    while i > from && class.contains(v[i - 1])
        invariant
            from <= i <= to <= v.len(),
            forall|k: int| i <= k < to ==> class.has(#[trigger] v@[k]),
        decreases i,
    {
        i -= 1;
    }
    proof {
        lemma_trailing_is(v@.subrange(from as int, to as int), class, (to - i) as nat);
    }
    i
}

/// The bounds of `v[from..to]` without leading and trailing white space.
pub fn trim_bounds(v: &Vec<char>, from: usize, to: usize) -> (b: (usize, usize))
    requires
        from <= to <= v.len(),
    ensures
        from <= b.0 <= b.1 <= to,
        v@.subrange(b.0 as int, b.1 as int) == trimmed(v@.subrange(from as int, to as int)),
{
    let a = skip_leading(v, from, to, CharClass::Whitespace);
    let z = skip_trailing(v, a, to, CharClass::Whitespace);
    proof {
        let whole = v@.subrange(from as int, to as int);
        let rest = v@.subrange(a as int, to as int);
        assert(rest == strip_start(whole, CharClass::Whitespace));
        assert(v@.subrange(a as int, z as int) == rest.take(z - a));
    }
    (a, z)
}

/// Whether `s` begins with `prefix`.
pub open spec fn starts_with(s: Seq<char>, prefix: Seq<char>) -> bool {
    prefix.len() <= s.len() && s.take(prefix.len() as int) == prefix
}

/// Whether `s` ends with `suffix`.
pub open spec fn ends_with(s: Seq<char>, suffix: Seq<char>) -> bool {
    suffix.len() <= s.len() && s.skip(s.len() - suffix.len()) == suffix
}

/// Whether `needle` occurs in `hay` at offset `at`.
pub open spec fn occurs_at(hay: Seq<char>, needle: Seq<char>, at: int) -> bool {
    0 <= at && at + needle.len() <= hay.len() && hay.subrange(at, at + needle.len()) == needle
}

/// Whether `needle` occurs somewhere in `hay`.
pub open spec fn occurs_in(hay: Seq<char>, needle: Seq<char>) -> bool {
    exists|at: int| occurs_at(hay, needle, at)
}

/// Decides whether `a` and `b` hold the same characters.
pub fn same(a: &Vec<char>, b: &Vec<char>) -> (r: bool)
    ensures
        r == (a@ == b@),
{
    if a.len() != b.len() {
        return false;
    }
    let mut i: usize = 0;
    while i < a.len()
        invariant
            i <= a.len() == b.len(),
            a@.take(i as int) == b@.take(i as int),
        decreases a.len() - i,
    {
        if a[i] != b[i] {
            return false;
        }
        proof {
            assert(a@.take(i + 1) == a@.take(i as int).push(a@[i as int]));
            assert(b@.take(i + 1) == b@.take(i as int).push(b@[i as int]));
        }
        i += 1;
    }
    proof {
        assert(a@ == a@.take(a.len() as int));
        assert(b@ == b@.take(b.len() as int));
    }
    true
}

/// Decides whether `needle` occurs in `hay` at offset `at`.
pub fn matches_at(hay: &Vec<char>, needle: &Vec<char>, at: usize) -> (r: bool)
    ensures
        r == occurs_at(hay@, needle@, at as int),
{
    if needle.len() > hay.len() || at > hay.len() - needle.len() {
        return false;
    }
    let ghost window = hay@.subrange(at as int, at + needle.len());
    let mut i: usize = 0;
    while i < needle.len()
        invariant
            i <= needle.len(),
            at + needle.len() <= hay.len(),
            window == hay@.subrange(at as int, at + needle.len()),
            window.take(i as int) == needle@.take(i as int),
        decreases needle.len() - i,
    {
        if hay[at + i] != needle[i] {
            proof {
                assert(window[i as int] != needle@[i as int]);
            }
            return false;
        }
        proof {
            assert(window.take(i + 1) == window.take(i as int).push(window[i as int]));
            assert(needle@.take(i + 1) == needle@.take(i as int).push(needle@[i as int]));
        }
        i += 1;
    }
    proof {
        assert(window == window.take(needle.len() as int));
        assert(needle@ == needle@.take(needle.len() as int));
    }
    true
}

/// Decides whether `s` begins with `prefix`.
pub fn has_prefix(s: &Vec<char>, prefix: &Vec<char>) -> (r: bool)
    ensures
        r == starts_with(s@, prefix@),
{
    let r = matches_at(s, prefix, 0);
    proof {
        if prefix.len() <= s.len() {
            assert(s@.take(prefix.len() as int) == s@.subrange(0, 0 + prefix.len()));
        }
    }
    r
}

/// Decides whether `needle` occurs somewhere in `hay`.
pub fn contains(hay: &Vec<char>, needle: &Vec<char>) -> (r: bool)
    ensures
        r == occurs_in(hay@, needle@),
{
    if needle.len() > hay.len() {
        return false;
    }
    let last: usize = hay.len() - needle.len();
    let mut at: usize = 0;
    loop
        invariant
            needle.len() <= hay.len(),
            last == hay.len() - needle.len(),
            at <= last,
            forall|k: int| 0 <= k < at ==> !occurs_at(hay@, needle@, k),
        decreases last - at,
    {
        if matches_at(hay, needle, at) {
            return true;
        }
        if at == last {
            return false;
        }
        at += 1;
    }
}

} // verus!
