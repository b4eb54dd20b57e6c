//! Where the server is and how requests to it are addressed and
//! authenticated. The HTTP transport itself belongs to the caller.

use vstd::prelude::*;

use crate::config::{Config, Pat};
use crate::error::AzdoError;
use crate::text::{
    byte_prefix, chars_of, dec, push_char, push_decimal, push_str, string_from_chars, take_utf8_prefix,
};

verus! {

/// Bytes of UTF-8 kept of a failed response's body.
pub const ERROR_BODY_LIMIT: usize = 500;

/// The character of the 6-bit value `n` in the standard base64 alphabet:
/// `A`-`Z`, `a`-`z`, `0`-`9`, `+`, `/`.
pub open spec fn base64_digit(n: int) -> char {
    if n < 26 {
        (('A' as int) + n) as char
    } else if n < 52 {
        (('a' as int) + n - 26) as char
    } else if n < 62 {
        (('0' as int) + n - 52) as char
    } else if n == 62 {
        '+'
    } else {
        '/'
    }
}

/// Standard base64 of `b` (RFC 4648, with `=` padding): each group of three
/// bytes, read as a 24-bit number, gives four characters of six bits each;
/// a last group of one or two bytes is filled with zero bits and padded
/// with `=` to four characters.
pub open spec fn base64_bytes(b: Seq<u8>) -> Seq<char>
    decreases b.len(),
{
    if b.len() == 0 {
        Seq::empty()
    } else if b.len() == 1 {
        let n = b[0] * 65536;
        seq![base64_digit(n / 262144), base64_digit((n / 4096) % 64), '=', '=']
    } else if b.len() == 2 {
        let n = b[0] * 65536 + b[1] * 256;
        seq![base64_digit(n / 262144), base64_digit((n / 4096) % 64), base64_digit((n / 64) % 64), '=']
    } else {
        let n = b[0] * 65536 + b[1] * 256 + b[2];
        seq![
            base64_digit(n / 262144),
            base64_digit((n / 4096) % 64),
            base64_digit((n / 64) % 64),
            base64_digit(n % 64),
        ] + base64_bytes(b.subrange(3, b.len() as int))
    }
}

/// Standard base64 of the UTF-8 bytes of `text`.
pub open spec fn base64_standard(text: Seq<char>) -> Seq<char> {
    base64_bytes(vstd::utf8::encode_utf8(text))
}

/// A character of the standard base64 alphabet, or the `=` padding.
pub open spec fn is_base64_char(c: char) -> bool {
    ('A' <= c <= 'Z') || ('a' <= c <= 'z') || ('0' <= c <= '9') || c == '+' || c == '/' || c == '='
}

/// Every base64 digit is in the alphabet.
proof fn lemma_base64_digit(n: int)
    requires
        0 <= n < 64,
    ensures
        is_base64_char(base64_digit(n)),
{
}

/// Base64 text is made of the alphabet and the padding.
proof fn lemma_base64_alphabet(b: Seq<u8>)
    ensures
        forall|i: int| 0 <= i < base64_bytes(b).len() ==> is_base64_char(#[trigger] base64_bytes(b)[i]),
    decreases b.len(),
{
    if b.len() == 1 {
        let n = b[0] * 65536;
        lemma_base64_digit(n / 262144);
        lemma_base64_digit((n / 4096) % 64);
    } else if b.len() == 2 {
        let n = b[0] * 65536 + b[1] * 256;
        lemma_base64_digit(n / 262144);
        lemma_base64_digit((n / 4096) % 64);
        lemma_base64_digit((n / 64) % 64);
    } else if b.len() > 2 {
        let n = b[0] * 65536 + b[1] * 256 + b[2];
        lemma_base64_digit(n / 262144);
        lemma_base64_digit((n / 4096) % 64);
        lemma_base64_digit((n / 64) % 64);
        lemma_base64_digit(n % 64);
        lemma_base64_alphabet(b.subrange(3, b.len() as int));
        let head = seq![
            base64_digit(n / 262144),
            base64_digit((n / 4096) % 64),
            base64_digit((n / 64) % 64),
            base64_digit(n % 64),
        ];
        let tail = base64_bytes(b.subrange(3, b.len() as int));
        assert forall|i: int| 0 <= i < base64_bytes(b).len() implies is_base64_char(#[trigger] base64_bytes(b)[i]) by {
            if i >= 4 {
                assert(base64_bytes(b)[i] == tail[i - 4]);
            }
        }
    }
}

/// `base64::engine::general_purpose::STANDARD.encode`: the crate's
/// standard, padded base64 of the UTF-8 bytes of `text`. Claimed: the
/// result is that encoding, as `base64_standard` spells it out.
#[verifier::external_body]
fn base64_encode(text: &str) -> (r: String)
    ensures
        r@ == base64_standard(text@),
{
    base64::Engine::encode(&base64::engine::general_purpose::STANDARD, text)
}

/// A character that may stand in an HTTP header value: every UTF-8 byte of
/// it is visible (32 or more, but not 127) or a tab.
pub open spec fn header_char_ok(c: char) -> bool {
    c == '\t' || (' ' <= c && c != '\x7f')
}

/// `reqwest::header::HeaderValue::from_str(s).is_ok()`. Claimed, as the
/// http crate's source shows: the value is accepted exactly when every
/// byte of `s` is a tab or at least 32 and not 127; a character outside
/// ASCII has only bytes of 128 and more.
#[verifier::external_body]
fn header_value_ok(s: &str) -> (r: bool)
    ensures
        r == forall|i: int| 0 <= i < s@.len() ==> header_char_ok(#[trigger] s@[i]),
{
    reqwest::header::HeaderValue::from_str(s).is_ok()
}

/// The value of the `Authorization` header for a token: HTTP Basic with an
/// empty user name.
pub open spec fn basic_auth_text(token: Seq<char>) -> Seq<char> {
    "Basic "@ + base64_standard(":"@ + token)
}

/// The `Authorization` header value for `pat`.
pub fn basic_auth_value(pat: &Pat) -> (r: String)
    ensures
        r@ == basic_auth_text(pat.secret()),
        forall|i: int| 0 <= i < r@.len() ==> header_char_ok(#[trigger] r@[i]),
{
    let mut raw = String::from_str(":");
    push_str(&mut raw, pat.as_str());
    let token = base64_encode(raw.as_str());
    proof {
        lemma_base64_alphabet(vstd::utf8::encode_utf8(raw@));
    }
    let mut out = String::from_str("Basic ");
    proof {
        reveal_strlit("Basic ");
    }
    push_str(&mut out, token.as_str());
    assert forall|i: int| 0 <= i < out@.len() implies header_char_ok(#[trigger] out@[i]) by {
        if i >= 6 {
            assert(out@[i] == token@[i - 6]);
            assert(is_base64_char(token@[i - 6]));
        }
    }
    out
}

/// `s` without any trailing `/`.
pub open spec fn trim_slashes(s: Seq<char>) -> Seq<char>
    decreases s.len(),
{
    if s.len() > 0 && s.last() == '/' {
        trim_slashes(s.drop_last())
    } else {
        s
    }
}

/// `str::trim_end_matches('/')`.
pub fn trim_slash(s: &str) -> (r: String)
    ensures
        r@ == trim_slashes(s@),
{
    let v = chars_of(s);
    let mut n: usize = v.len();
    assert(v@.subrange(0, n as int) == v@);
    while n > 0 && v[n - 1] == '/'
        invariant
            n <= v@.len(),
            trim_slashes(v@) == trim_slashes(v@.subrange(0, n as int)),
        decreases n,
    {
        assert(v@.subrange(0, n as int).drop_last() == v@.subrange(0, n - 1));
        n = n - 1;
    }
    let mut out: Vec<char> = Vec::new();
    let mut i: usize = 0;
    while i < n
        invariant
            n <= v@.len(),
            i <= n,
            out@ == v@.subrange(0, i as int),
        decreases n - i,
    {
        out.push(v[i]);
        assert(v@.subrange(0, i + 1) == v@.subrange(0, i as int).push(v@[i as int]));
        i = i + 1;
    }
    string_from_chars(out.as_slice())
}

/// `path` with a `/` in front unless it is empty or already has one.
pub open spec fn leading_slash(path: Seq<char>) -> Seq<char> {
    if path.len() == 0 {
        Seq::empty()
    } else if path[0] == '/' {
        path
    } else {
        seq!['/'] + path
    }
}

/// `s` with a leading `/`, unless it is empty or already has one.
pub fn ensure_leading_slash(s: &str) -> (r: String)
    ensures
        r@ == leading_slash(s@),
{
    let v = chars_of(s);
    if v.len() == 0 {
        String::new()
    } else if v[0] == '/' {
        String::from_str(s)
    } else {
        let mut out = String::from_str("/");
        push_str(&mut out, s);
        proof {
            reveal_strlit("/");
        }
        assert(out@ =~= leading_slash(s@));
        out
    }
}

/// The server's coordinates: base URL, collection, project and API version.
#[derive(Debug, Clone)]
pub struct AzdoClient {
    server: String,
    collection: String,
    project: String,
    api_version: String,
    authorization: String,
}

/// Whether an HTTP status reports success.
pub open spec fn is_success(status: u16) -> bool {
    200 <= status <= 299
}

impl AzdoClient {
    /// The server's base URL, without trailing `/`.
    pub closed spec fn server_text(&self) -> Seq<char> {
        self.server@
    }

    /// The collection name, without trailing `/`.
    pub closed spec fn collection_text(&self) -> Seq<char> {
        self.collection@
    }

    /// The project name, without trailing `/`.
    pub closed spec fn project_text(&self) -> Seq<char> {
        self.project@
    }

    /// The `api-version` sent with requests.
    pub closed spec fn api_version_text(&self) -> Seq<char> {
        self.api_version@
    }

    /// The `Authorization` header sent with requests.
    pub closed spec fn authorization_text(&self) -> Seq<char> {
        self.authorization@
    }

    /// The URL of `path` inside the collection.
    pub open spec fn collection_url_text(&self, path: Seq<char>) -> Seq<char> {
        self.server_text() + "/"@ + self.collection_text() + leading_slash(path)
    }

    /// The URL of `path` inside the project.
    pub open spec fn project_url_text(&self, path: Seq<char>) -> Seq<char> {
        self.server_text() + "/"@ + self.collection_text() + "/"@ + self.project_text()
            + leading_slash(path)
    }

    /// The coordinates from the configuration, trailing slashes removed,
    /// and the `Authorization` header for `pat`. The header is checked as
    /// an HTTP header value; being base64 after `Basic `, it always passes,
    /// so a client is built for every configuration and token.
    pub fn new(cfg: &Config, pat: &Pat) -> (r: Result<AzdoClient, AzdoError>)
        ensures
            r matches Ok(c) && c.server_text() == trim_slashes(cfg.server@) && c.collection_text()
                == trim_slashes(cfg.collection@) && c.project_text() == trim_slashes(cfg.project@)
                && c.api_version_text() == cfg.api_version@ && c.authorization_text()
                == basic_auth_text(pat.secret()),
    {
        let authorization = basic_auth_value(pat);
        if !header_value_ok(authorization.as_str()) {
            return Err(AzdoError::Header(String::from_str("failed to parse header value")));
        }
        Ok(AzdoClient {
            server: trim_slash(cfg.server.as_str()),
            collection: trim_slash(cfg.collection.as_str()),
            project: trim_slash(cfg.project.as_str()),
            api_version: cfg.api_version.clone(),
            authorization,
        })
    }

    /// The `Authorization` header value.
    pub fn authorization(&self) -> (r: &str)
        ensures
            r@ == self.authorization_text(),
    {
        self.authorization.as_str()
    }

    /// `{server}/{collection}{path}`.
    pub fn collection_url(&self, path: &str) -> (r: String)
        ensures
            r@ == self.collection_url_text(path@),
    {
        let mut out = self.server.clone();
        push_str(&mut out, "/");
        push_str(&mut out, self.collection.as_str());
        let p = ensure_leading_slash(path);
        push_str(&mut out, p.as_str());
        out
    }

    /// `{server}/{collection}/{project}{path}`.
    pub fn project_url(&self, path: &str) -> (r: String)
        ensures
            r@ == self.project_url_text(path@),
    {
        let mut out = self.server.clone();
        push_str(&mut out, "/");
        push_str(&mut out, self.collection.as_str());
        push_str(&mut out, "/");
        push_str(&mut out, self.project.as_str());
        let p = ensure_leading_slash(path);
        push_str(&mut out, p.as_str());
        out
    }

    /// The configured project.
    pub fn project_name(&self) -> (r: &str)
        ensures
            r@ == self.project_text(),
    {
        self.project.as_str()
    }

    /// The configured API version.
    pub fn api_version(&self) -> (r: &str)
        ensures
            r@ == self.api_version_text(),
    {
        self.api_version.as_str()
    }

    /// The URL that `ping` fetches: the project's record.
    pub fn ping_url(&self) -> (r: String)
        ensures
            r@ == self.collection_url_text(Seq::empty()) + "/_apis/projects/"@
                + self.project_text() + "?api-version="@ + self.api_version_text(),
    {
        let mut out = self.collection_url("");
        proof {
            reveal_strlit("");
        }
        assert(""@ =~= Seq::<char>::empty());
        push_str(&mut out, "/_apis/projects/");
        push_str(&mut out, self.project.as_str());
        push_str(&mut out, "?api-version=");
        push_str(&mut out, self.api_version.as_str());
        out
    }

    /// The browser URL of work item `id`.
    pub fn web_item_url(&self, id: u64) -> (r: String)
        ensures
            r@ == self.project_url_text("/_workitems/edit/"@ + dec(id as nat)),
    {
        let mut path = String::from_str("/_workitems/edit/");
        push_decimal(&mut path, id);
        self.project_url(path.as_str())
    }

    /// `path` inside the project, with `?api-version=` appended.
    pub fn project_api_url(&self, path: &str) -> (r: String)
        ensures
            r@ == self.project_url_text(path@) + "?api-version="@ + self.api_version_text(),
    {
        let mut out = self.project_url(path);
        push_str(&mut out, "?api-version=");
        push_str(&mut out, self.api_version.as_str());
        out
    }

    /// `path` inside the collection, with `?api-version=` appended.
    pub fn collection_api_url(&self, path: &str) -> (r: String)
        ensures
            r@ == self.collection_url_text(path@) + "?api-version="@ + self.api_version_text(),
    {
        let mut out = self.collection_url(path);
        push_str(&mut out, "?api-version=");
        push_str(&mut out, self.api_version.as_str());
        out
    }
}

/// Whether a response with `status` succeeded.
pub fn status_ok(status: u16) -> (r: bool)
    ensures
        r == is_success(status),
{
    status >= 200 && status <= 299
}

/// The error for a failed response: its status, its URL and an excerpt of
/// its body of at most 500 bytes, cut at a character boundary.
pub fn http_error(status: u16, url: String, body: &str) -> (e: AzdoError)
    ensures
        e matches AzdoError::Http { status: s, url: u, body: b } && s == status && u@ == url@
            && byte_prefix(body@, b@, 500),
{
    let truncated = take_utf8_prefix(body, ERROR_BODY_LIMIT);
    AzdoError::Http { status, url, body: truncated }
}

/// What a response's status decides: success passes, anything else is an
/// HTTP error carrying the status, the URL and the longest prefix of the
/// body that fits in 500 bytes.
pub fn check_status(status: u16, url: String, body: &str) -> (r: Result<(), AzdoError>)
    ensures
        r is Ok <==> is_success(status),
        r matches Err(e) ==> e matches AzdoError::Http { status: s, url: u, body: b } && s == status
            && u@ == url@ && byte_prefix(body@, b@, 500),
{
    if status_ok(status) {
        return Ok(());
    }
    Err(http_error(status, url, body))
}

} // verus!
