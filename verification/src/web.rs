//! The client side of the bookmark API: the parameters of a search request,
//! the addresses that the client calls and the errors it reports.
use vstd::prelude::*;
use vstd::string::StringSliceAdditionalSpecFns;
use vstd::string::StringExecFns;
use crate::text::{skip_trailing, strip_end, texts, to_chars, to_string, CharClass};

verus! {

/// The parameters of a search request. Each one is sent only where it is
/// set.
#[derive(Debug, PartialEq, Eq)]
pub struct BookmarkSearchParams {
    pub q: Option<String>,
    pub cwd: Option<String>,
    pub before: Option<i64>,
    pub limit: Option<i64>,
}

/// The mathematical value of [`BookmarkSearchParams`].
pub ghost struct BookmarkSearchParamsView {
    pub q: Option<Seq<char>>,
    pub cwd: Option<Seq<char>>,
    pub before: Option<i64>,
    pub limit: Option<i64>,
}

/// The value of an optional text.
pub open spec fn optional_text(s: Option<String>) -> Option<Seq<char>> {
    match s {
        Some(t) => Some(t@),
        None => None,
    }
}

impl View for BookmarkSearchParams {
    type V = BookmarkSearchParamsView;

    open spec fn view(&self) -> BookmarkSearchParamsView {
        BookmarkSearchParamsView {
            q: optional_text(self.q),
            cwd: optional_text(self.cwd),
            before: self.before,
            limit: self.limit,
        }
    }
}

/// The decimal digit of `d`, which is below ten.
pub open spec fn digit(d: nat) -> char {
    if d == 0 {
        '0'
    } else if d == 1 {
        '1'
    } else if d == 2 {
        '2'
    } else if d == 3 {
        '3'
    } else if d == 4 {
        '4'
    } else if d == 5 {
        '5'
    } else if d == 6 {
        '6'
    } else if d == 7 {
        '7'
    } else if d == 8 {
        '8'
    } else {
        '9'
    }
}

/// The decimal digits of `n`, without leading zeros.
pub open spec fn digits(n: nat) -> Seq<char>
    decreases n,
{
    if n < 10 {
        seq![digit(n)]
    } else {
        digits(n / 10).push(digit(n % 10))
    }
}

/// The decimal form of `n`, with a `-` in front where it is negative.
pub open spec fn decimal(n: int) -> Seq<char> {
    if n < 0 {
        seq!['-'] + digits((-n) as nat)
    } else {
        digits(n as nat)
    }
}

/// Whether a byte is written as it is in a query string: ASCII letters and
/// digits, `-`, `_`, `.` and `~`.
pub open spec fn is_unreserved(b: u8) -> bool {
    ||| 0x30 <= b <= 0x39
    ||| 0x41 <= b <= 0x5A
    ||| 0x61 <= b <= 0x7A
    ||| b == 0x2D
    ||| b == 0x2E
    ||| b == 0x5F
    ||| b == 0x7E
}

/// The upper-case hexadecimal digit of `d`, which is below sixteen.
pub open spec fn hex_digit(d: u8) -> char {
    if d < 10 {
        (0x30 + d) as char
    } else {
        (0x41 + d - 10) as char
    }
}

/// One byte, percent-encoded: itself where it is unreserved, else `%` and
/// its two hexadecimal digits.
pub open spec fn encoded_byte(b: u8) -> Seq<char> {
    if is_unreserved(b) {
        seq![b as char]
    } else {
        seq!['%', hex_digit(b / 16), hex_digit(b % 16)]
    }
}

/// The bytes, percent-encoded one after the other.
pub open spec fn percent_encoded(bytes: Seq<u8>) -> Seq<char>
    decreases bytes.len(),
{
    if bytes.len() == 0 {
        Seq::empty()
    } else {
        percent_encoded(bytes.drop_last()) + encoded_byte(bytes.last())
    }
}

/// `urlencoding::encode`: percent-encodes every byte of the UTF-8 form of
/// `s` except ASCII letters and digits and `-`, `_`, `.`, `~`, with
/// upper-case hexadecimal digits.
#[verifier::external_body]
fn url_encode(s: &str) -> (r: String)
    ensures
        r@ == percent_encoded(s.spec_bytes()),
{
    urlencoding::encode(s).into_owned()
}

/// The character of a decimal digit.
fn digit_char(d: u64) -> (c: char)
    requires
        d < 10,
    ensures
        c == digit(d as nat),
{
    match d {
        0 => '0',
        1 => '1',
        2 => '2',
        3 => '3',
        4 => '4',
        5 => '5',
        6 => '6',
        7 => '7',
        8 => '8',
        _ => '9',
    }
}

/// Appends the decimal digits of `n` to `out`.
fn push_digits(out: &mut String, n: u64)
    ensures
        final(out)@ == old(out)@ + digits(n as nat),
    decreases n,
{
    if n >= 10 {
        push_digits(out, n / 10);
    }
    out.push(digit_char(n % 10));
}

/// Appends the decimal form of `n` to `out`.
pub fn push_decimal(out: &mut String, n: i64)
    ensures
        final(out)@ == old(out)@ + decimal(n as int),
{
    if n < 0 {
        out.push('-');
        let magnitude: u64 = if n == i64::MIN {
            9223372036854775808u64
        } else {
            (-n) as u64
        };
        push_digits(out, magnitude);
    } else {
        push_digits(out, n as u64);
    }
}

/// One parameter of a query string: the name, `=` and the value.
pub open spec fn parameter(name: Seq<char>, value: Seq<char>) -> Seq<char> {
    name + seq!['='] + value
}

/// The parameters that are set, each written out, in the order `q`, `cwd`,
/// `before`, `limit`.
pub open spec fn parameters(p: BookmarkSearchParamsView) -> Seq<Seq<char>> {
    let q = match p.q {
        Some(text) => seq![parameter("q"@, percent_encoded(vstd::utf8::encode_utf8(text)))],
        None => Seq::empty(),
    };
    let cwd = match p.cwd {
        Some(text) => seq![parameter("cwd"@, percent_encoded(vstd::utf8::encode_utf8(text)))],
        None => Seq::empty(),
    };
    let before = match p.before {
        Some(n) => seq![parameter("before"@, decimal(n as int))],
        None => Seq::empty(),
    };
    let limit = match p.limit {
        Some(n) => seq![parameter("limit"@, decimal(n as int))],
        None => Seq::empty(),
    };
    q + cwd + before + limit
}

/// The parts written one after the other with `&` between them.
pub open spec fn joined_parameters(parts: Seq<Seq<char>>) -> Seq<char>
    decreases parts.len(),
{
    if parts.len() == 0 {
        Seq::empty()
    } else if parts.len() == 1 {
        parts[0]
    } else {
        joined_parameters(parts.drop_last()) + seq!['&'] + parts.last()
    }
}

/// The query string of the parameters: empty where none is set, else `?`
/// and the parameters joined with `&`.
pub open spec fn query_string(p: BookmarkSearchParamsView) -> Seq<char> {
    if parameters(p).len() == 0 {
        Seq::empty()
    } else {
        seq!['?'] + joined_parameters(parameters(p))
    }
}

/// Starts the parameter `name` in `out`, which holds `?` and the
/// parameters `done` where there are any.
fn begin_parameter(out: &mut String, name: &str, Ghost(done): Ghost<Seq<Seq<char>>>)
    requires
        old(out)@ == (if done.len() == 0 {
            Seq::<char>::empty()
        } else {
            seq!['?'] + joined_parameters(done)
        }),
    ensures
        final(out)@ == (if done.len() == 0 {
            seq!['?']
        } else {
            seq!['?'] + joined_parameters(done) + seq!['&']
        }) + name@ + seq!['='],
{
    if out.as_str().is_empty() {
        out.push('?');
    } else {
        out.push('&');
    }
    out.append(name);
    out.push('=');
    proof {
        assert(final(out)@ =~= (if done.len() == 0 {
            seq!['?']
        } else {
            seq!['?'] + joined_parameters(done) + seq!['&']
        }) + name@ + seq!['=']);
    }
}

/// Once a parameter has been written behind the parameters `done`, `out`
/// holds `?` and all of them joined.
proof fn lemma_parameter_written(out: Seq<char>, done: Seq<Seq<char>>, name: Seq<char>, value: Seq<char>)
    requires
        out == (if done.len() == 0 {
            seq!['?']
        } else {
            seq!['?'] + joined_parameters(done) + seq!['&']
        }) + name + seq!['='] + value,
    ensures
        out == seq!['?'] + joined_parameters(done.push(parameter(name, value))),
{
    let all = done.push(parameter(name, value));
    assert(all.drop_last() =~= done);
    assert(out =~= seq!['?'] + joined_parameters(all));
}

impl BookmarkSearchParams {
    /// Parameters of which none is set.
    pub fn new() -> (p: Self)
        ensures
            p@ == (BookmarkSearchParamsView { q: None, cwd: None, before: None, limit: None }),
    {
        Self { q: None, cwd: None, before: None, limit: None }
    }

    /// The same parameters with the query set.
    pub fn with_query(self, query: String) -> (p: Self)
        ensures
            p@ == (BookmarkSearchParamsView { q: Some(query@), ..self@ }),
    {
        let mut p = self;
        p.q = Some(query);
        p
    }

    /// The same parameters with the folder set.
    pub fn with_cwd(self, cwd: String) -> (p: Self)
        ensures
            p@ == (BookmarkSearchParamsView { cwd: Some(cwd@), ..self@ }),
    {
        let mut p = self;
        p.cwd = Some(cwd);
        p
    }

    /// The same parameters with the cursor set.
    pub fn with_before(self, before: i64) -> (p: Self)
        ensures
            p@ == (BookmarkSearchParamsView { before: Some(before), ..self@ }),
    {
        let mut p = self;
        p.before = Some(before);
        p
    }

    /// The same parameters with the page size set.
    pub fn with_limit(self, limit: i64) -> (p: Self)
        ensures
            p@ == (BookmarkSearchParamsView { limit: Some(limit), ..self@ }),
    {
        let mut p = self;
        p.limit = Some(limit);
        p
    }

    /// The query string that carries the parameters: the texts
    /// percent-encoded, the numbers in decimal.
    pub fn to_query_string(&self) -> (out: String)
        ensures
            out@ == query_string(self@),
    {
        let mut out = String::new();
        let ghost mut done: Seq<Seq<char>> = Seq::empty();
        if let Some(q) = &self.q {
            begin_parameter(&mut out, "q", Ghost(done));
            let value = url_encode(q.as_str());
            out.append(value.as_str());
            proof {
                lemma_parameter_written(out@, done, "q"@, value@);
                done = done.push(parameter("q"@, value@));
            }
        }
        if let Some(cwd) = &self.cwd {
            begin_parameter(&mut out, "cwd", Ghost(done));
            let value = url_encode(cwd.as_str());
            out.append(value.as_str());
            proof {
                lemma_parameter_written(out@, done, "cwd"@, value@);
                done = done.push(parameter("cwd"@, value@));
            }
        }
        if let Some(before) = self.before {
            begin_parameter(&mut out, "before", Ghost(done));
            push_decimal(&mut out, before);
            proof {
                lemma_parameter_written(out@, done, "before"@, decimal(before as int));
                done = done.push(parameter("before"@, decimal(before as int)));
            }
        }
        if let Some(limit) = self.limit {
            begin_parameter(&mut out, "limit", Ghost(done));
            push_decimal(&mut out, limit);
            proof {
                lemma_parameter_written(out@, done, "limit"@, decimal(limit as int));
                done = done.push(parameter("limit"@, decimal(limit as int)));
            }
        }
        proof {
            assert(done =~= parameters(self@));
        }
        out
    }
}

impl Default for BookmarkSearchParams {
    fn default() -> (p: Self)
        ensures
            p@ == (BookmarkSearchParamsView { q: None, cwd: None, before: None, limit: None }),
    {
        Self::new()
    }
}

/// A client of the bookmark API.
#[derive(Debug)]
pub struct ApiClient {
    base_url: String,
    api_key: Option<String>,
}

/// A failure of a call of the API.
#[derive(Debug, PartialEq, Eq)]
pub struct ApiError {
    pub message: String,
    pub code: Option<u16>,
}

/// The address of the API for a page at `href`: `href` without its closing
/// slashes, and `/api` behind it.
pub open spec fn api_base(href: Seq<char>) -> Seq<char> {
    strip_end(href, CharClass::Slash) + "/api"@
}

impl ApiClient {
    /// The address that the paths of the API are appended to.
    pub closed spec fn base(&self) -> Seq<char> {
        self.base_url@
    }

    /// The key that the client shows, if it has one.
    pub closed spec fn key(&self) -> Option<Seq<char>> {
        optional_text(self.api_key)
    }

    /// A client for the API of the site whose page is at `href`, or of
    /// `http://localhost:8000` where the address of the page is not known.
    /// It has no key yet.
    pub fn from_location(href: Option<&str>) -> (client: Self)
        ensures
            client.base() == api_base(
                match href {
                    Some(h) => h@,
                    None => "http://localhost:8000"@,
                },
            ),
            client.key() is None,
    {
        let page = match href {
            Some(h) => h,
            None => "http://localhost:8000",
        };
        let v = to_chars(page);
        let end = skip_trailing(&v, 0, v.len(), CharClass::Slash);
        proof {
            assert(v@.subrange(0, v.len() as int) == v@);
        }
        let mut base_url = to_string(&v, 0, end);
        base_url.append("/api");
        Self { base_url, api_key: None }
    }

    /// The same client with the key set.
    pub fn with_api_key(self, api_key: String) -> (client: Self)
        ensures
            client.base() == self.base(),
            client.key() == Some(api_key@),
    {
        let mut client = self;
        client.api_key = Some(api_key);
        client
    }

    /// Sets the key.
    pub fn set_api_key(&mut self, api_key: String)
        ensures
            final(self).base() == old(self).base(),
            final(self).key() == Some(api_key@),
    {
        self.api_key = Some(api_key);
    }

    /// The key that goes into the `Authorization` header, if the client has
    /// one.
    pub fn api_key(&self) -> (key: Option<&String>)
        ensures
            match key {
                Some(k) => self.key() == Some(k@),
                None => self.key() is None,
            },
    {
        self.api_key.as_ref()
    }

    /// The address of the path `path` of the API.
    pub fn url(&self, path: &str) -> (out: String)
        ensures
            out@ == self.base() + path@,
    {
        let mut out = self.base_url.clone();
        out.append(path);
        out
    }
}

impl ApiError {
    /// The request could not be sent; `detail` says why.
    pub fn request_failed(detail: &str) -> (e: Self)
        ensures
            e.message@ == "Request failed: "@ + detail@,
            e.code is None,
    {
        let mut message = "Request failed: ".to_owned();
        message.append(detail);
        Self { message, code: None }
    }

    /// The body of the request could not be written; `detail` says why.
    pub fn serialize_failed(detail: &str) -> (e: Self)
        ensures
            e.message@ == "Failed to serialize request: "@ + detail@,
            e.code is None,
    {
        let mut message = "Failed to serialize request: ".to_owned();
        message.append(detail);
        Self { message, code: None }
    }

    /// The answer could not be read; `detail` says why.
    pub fn parse_failed(detail: &str) -> (e: Self)
        ensures
            e.message@ == "Failed to parse response: "@ + detail@,
            e.code is None,
    {
        let mut message = "Failed to parse response: ".to_owned();
        message.append(detail);
        Self { message, code: None }
    }

    /// The server answered with the failure `status`. The message is the
    /// body of the answer, or `Unknown error` where it could not be read.
    pub fn from_status(status: u16, body: Option<String>) -> (e: Self)
        ensures
            e.message@ == (match body {
                Some(text) => text@,
                None => "Unknown error"@,
            }),
            e.code == Some(status),
    {
        let message = match body {
            Some(text) => text,
            None => "Unknown error".to_owned(),
        };
        Self { message, code: Some(status) }
    }

    /// The error as a line of text.
    pub fn to_string(&self) -> (r: String)
        ensures
            r@ == "API Error: "@ + self.message@,
    {
        let mut r = "API Error: ".to_owned();
        r.append(self.message.as_str());
        r
    }
}

/// The path of the list of bookmarks for the parameters, or for none.
pub fn bookmarks_path(params: Option<BookmarkSearchParams>) -> (path: String)
    ensures
        path@ == "/bookmarks/"@ + (match params {
            Some(p) => query_string(p@),
            None => Seq::<char>::empty(),
        }),
{
    let mut path = "/bookmarks/".to_owned();
    match params {
        Some(p) => {
            let query = p.to_query_string();
            path.append(query.as_str());
        },
        None => {
            proof {
                assert("/bookmarks/"@ + Seq::<char>::empty() =~= "/bookmarks/"@);
            }
        },
    }
    path
}

/// The path of the bookmark `id`.
pub fn bookmark_path(id: i64) -> (path: String)
    ensures
        path@ == "/bookmarks/"@ + decimal(id as int),
{
    let mut path = "/bookmarks/".to_owned();
    push_decimal(&mut path, id);
    path
}

/// The texts written one after the other with `, ` between them.
pub open spec fn listed(parts: Seq<Seq<char>>) -> Seq<char>
    decreases parts.len(),
{
    if parts.len() == 0 {
        Seq::empty()
    } else if parts.len() == 1 {
        parts[0]
    } else {
        listed(parts.drop_last()) + ", "@ + parts.last()
    }
}

/// The line that shows the tags of a bookmark.
pub open spec fn tags_shown(tags: Seq<Seq<char>>) -> Seq<char> {
    if listed(tags).len() == 0 {
        "No tags"@
    } else {
        "Tags: "@ + listed(tags)
    }
}

/// The line that shows the tags of a bookmark: `Tags: ` and the names with
/// `, ` between them, or `No tags` where that list is empty.
pub fn tags_line(tags: &Vec<String>) -> (line: String)
    ensures
        line@ == tags_shown(texts(tags@)),
{
    let mut list = String::new();
    let mut k: usize = 0;
    proof {
        assert(texts(tags@).take(0) =~= Seq::<Seq<char>>::empty());
    }
    while k < tags.len()
        invariant
            k <= tags.len(),
            list@ == listed(texts(tags@).take(k as int)),
        decreases tags.len() - k,
    {
        proof {
            let seen = texts(tags@).take(k + 1);
            assert(seen.drop_last() =~= texts(tags@).take(k as int));
            assert(seen.last() == tags@[k as int]@);
        }
        if k > 0 {
            list.append(", ");
        }
        list.append(tags[k].as_str());
        k += 1;
    }
    proof {
        assert(texts(tags@).take(tags@.len() as int) =~= texts(tags@));
    }
    if list.as_str().is_empty() {
        "No tags".to_owned()
    } else {
        let mut line = "Tags: ".to_owned();
        line.append(list.as_str());
        line
    }
}

/// The line that shows the folder of a bookmark: its path, or `No folder`.
pub fn folder_line(folder: Option<String>) -> (line: String)
    ensures
        line@ == (match folder {
            Some(path) => path@,
            None => "No folder"@,
        }),
{
    match folder {
        Some(path) => path,
        None => "No folder".to_owned(),
    }
}

/// The line that says how many bookmarks are shown.
pub fn count_line(count: usize) -> (line: String)
    ensures
        line@ == digits(count as nat) + " bookmarks"@,
{
    let mut line = String::new();
    push_digits(&mut line, count as u64);
    line.append(" bookmarks");
    proof {
        assert(Seq::<char>::empty() + digits(count as nat) =~= digits(count as nat));
    }
    line
}

} // verus!
