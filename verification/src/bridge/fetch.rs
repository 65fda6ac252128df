//! Fetch requests of watch apps and the responses that go back to them.
//!
//! The HTTP exchange happens outside. [`RequestState`] says what to send next and
//! [`RequestState::next_hop`] takes what came back.
use vstd::prelude::*;
use vstd::string::*;
use vstd::utf8::*;

use crate::bridge::codec::{self, BodyEncoding, Compression, COMPRESS_MIN_SIZE};
use crate::bridge::handshake::{self, CapsView, HandshakeState, NegotiatedCaps};
use crate::bridge::state::{self, PluginState};
use crate::bridge::stream::{self, PendingStream, StreamConfig, StreamFrame};
use crate::bridge::table;
use crate::bridge::transfer;
use crate::json::{self, Json, JsonObject, JsonView};
use crate::text::{self, str_eq};

verus! {

/// Tag of fetch requests and responses.
pub const FETCH_TAG: &'static str = "fetch";

/// Tag of chunked response data.
pub const FETCH_CHUNK_TAG: &'static str = "fetch-chunk";

/// Tag with which a peer acknowledges chunks.
pub const FETCH_ACK_TAG: &'static str = "fetch-ack";

/// Longest body, in bytes on the wire, of a response that is not chunked.
pub const MAX_UNCHUNKED_WIRE_LEN: usize = 16384;

/// Responses at least this large are streamed unless the caller chose.
pub const AUTO_STREAM_MIN_BYTES: usize = 65536;

/// Most redirects that are followed.
pub const MAX_REDIRECTS: usize = 10;

#[derive(Debug)]
pub struct FetchRequest {
    pub id: Option<String>,
    pub url: String,
    pub options: Option<FetchOptions>,
}

#[derive(Debug)]
pub struct FetchOptions {
    pub method: Option<String>,
    /// Header names, each once, with their values.
    pub headers: Option<Vec<(String, Json)>>,
    pub body: Option<String>,
    /// Whether the raw bytes are wanted rather than text.
    pub raw: Option<bool>,
    /// Whether to stream; unset leaves it to the response.
    pub stream: Option<bool>,
    pub follow_redirects: Option<bool>,
    /// Whether every stream frame but the last has exactly the chunk size.
    pub fixed_chunks: Option<bool>,
}

impl Default for FetchOptions {
    fn default() -> (r: Self)
        ensures
            r.method is None,
            r.headers is None,
            r.body is None,
            r.raw is None,
            r.stream is None,
            r.follow_redirects is None,
            r.fixed_chunks is None,
    {
        FetchOptions {
            method: None,
            headers: None,
            body: None,
            raw: None,
            stream: None,
            follow_redirects: None,
            fixed_chunks: None,
        }
    }
}

// ---------------------------------------------------------------- URLs

/// A URL with the parts that make its origin.
#[derive(Debug)]
pub struct ParsedUrl {
    /// The URL as it is requested.
    pub text: String,
    pub scheme: String,
    pub host: Option<String>,
    /// The port, or the default one of the scheme.
    pub port: Option<u16>,
}

/// The mathematical value of a [`ParsedUrl`].
pub struct UrlView {
    pub text: Seq<char>,
    pub scheme: Seq<char>,
    pub host: Option<Seq<char>>,
    pub port: Option<u16>,
}

impl ParsedUrl {
    pub open spec fn view(&self) -> UrlView {
        UrlView {
            text: self.text@,
            scheme: self.scheme@,
            host: text::opt_text(self.host),
            port: self.port,
        }
    }
}

/// What the `url` crate reads from an absolute URL, or the message of its error.
pub uninterp spec fn url_parsed(text: Seq<char>) -> Result<UrlView, Seq<char>>;

/// What the `url` crate makes of a reference relative to a URL.
pub uninterp spec fn url_joined(base: Seq<char>, reference: Seq<char>) -> Result<UrlView, Seq<char>>;

/// The text between quotes, with escapes, as Rust's debug format writes it.
pub uninterp spec fn debug_text(s: Seq<char>) -> Seq<char>;

/// Wrapper of `url::Url::parse`, with the parts that `as_str`, `scheme`,
/// `host_str` and `port_or_known_default` give. The result depends on the text
/// alone.
#[verifier::external_body]
fn url_parse(text: &str) -> (r: Result<ParsedUrl, String>)
    ensures
        match r {
            Ok(u) => url_parsed(text@) == Ok::<UrlView, Seq<char>>(u@),
            Err(e) => url_parsed(text@) == Err::<UrlView, Seq<char>>(e@),
        },
{
    match url::Url::parse(text) {
        Ok(u) => Ok(ParsedUrl {
            text: u.as_str().to_string(),
            scheme: u.scheme().to_string(),
            host: u.host_str().map(|h| h.to_string()),
            port: u.port_or_known_default(),
        }),
        Err(e) => Err(e.to_string()),
    }
}

/// Wrapper of `url::Url::join` on the URL that the first text spells. The result
/// depends on the two texts alone.
#[verifier::external_body]
fn url_join(base: &str, reference: &str) -> (r: Result<ParsedUrl, String>)
    ensures
        match r {
            Ok(u) => url_joined(base@, reference@) == Ok::<UrlView, Seq<char>>(u@),
            Err(e) => url_joined(base@, reference@) == Err::<UrlView, Seq<char>>(e@),
        },
{
    match url::Url::parse(base).and_then(|b| b.join(reference)) {
        Ok(u) => Ok(ParsedUrl {
            text: u.as_str().to_string(),
            scheme: u.scheme().to_string(),
            host: u.host_str().map(|h| h.to_string()),
            port: u.port_or_known_default(),
        }),
        Err(e) => Err(e.to_string()),
    }
}

/// Wrapper of the debug format of `str`. The result depends on the text alone.
#[verifier::external_body]
fn quoted(s: &str) -> (r: String)
    ensures
        r@ == debug_text(s@),
{
    format!("{s:?}")
}

impl ParsedUrl {
    /// Reads an absolute URL.
    pub fn parse(text: &str) -> (r: Result<ParsedUrl, String>)
        ensures
            match r {
                Ok(u) => url_parsed(text@) == Ok::<UrlView, Seq<char>>(u@),
                Err(e) => url_parsed(text@) == Err::<UrlView, Seq<char>>(e@),
            },
    {
        url_parse(text)
    }
}

/// Whether two URLs have the same origin.
pub open spec fn origins_match(a: UrlView, b: UrlView) -> bool {
    a.scheme == b.scheme && a.host == b.host && a.port == b.port
}

pub fn same_origin(left: &ParsedUrl, right: &ParsedUrl) -> (r: bool)
    ensures
        r == origins_match(left@, right@),
{
    let hosts = match (&left.host, &right.host) {
        (Some(a), Some(b)) => str_eq(a.as_str(), b.as_str()),
        (None, None) => true,
        _ => false,
    };
    let ports = match (left.port, right.port) {
        (Some(a), Some(b)) => a == b,
        (None, None) => true,
        _ => false,
    };
    str_eq(left.scheme.as_str(), right.scheme.as_str()) && hosts && ports
}

// ---------------------------------------------------------------- redirects

pub open spec fn redirects(status: u16) -> bool {
    status == 301 || status == 302 || status == 303 || status == 307 || status == 308
}

pub fn is_redirect_status(status: u16) -> (r: bool)
    ensures
        r == redirects(status),
{
    status == 301 || status == 302 || status == 303 || status == 307 || status == 308
}

/// POST becomes GET for 301 and 302; every method but HEAD becomes GET for 303.
pub open spec fn becomes_get(status: u16, method: Seq<char>) -> bool {
    ||| (status == 301 || status == 302) && text::lowered(method) == text::lowered("POST"@)
    ||| status == 303 && text::lowered(method) != text::lowered("HEAD"@)
}

pub fn should_redirect_as_get(status: u16, method: &str) -> (r: bool)
    ensures
        r == becomes_get(status, method@),
{
    ((status == 301 || status == 302) && text::eq_ignore_case(method, "POST")) || (status == 303
        && !text::eq_ignore_case(method, "HEAD"))
}

/// Whether a header describes the body, whatever the case of its name.
pub open spec fn describes_body(name: Seq<char>) -> bool {
    let n = text::lowered(name);
    n == "content-length"@ || n == "content-type"@ || n == "content-encoding"@ || n
        == "transfer-encoding"@
}

/// Whether a header must not reach another origin.
pub open spec fn is_sensitive(name: Seq<char>) -> bool {
    let n = text::lowered(name);
    n == "authorization"@ || n == "proxy-authorization"@ || n == "cookie"@ || n == "host"@
}

/// The mathematical value of some headers.
pub open spec fn headers_view(h: Seq<(String, Json)>) -> Seq<(Seq<char>, JsonView)> {
    h.map_values(|e: (String, Json)| (e.0@, e.1@))
}

/// The headers without those that describe a body.
pub open spec fn without_body_headers(h: Seq<(Seq<char>, JsonView)>) -> Seq<(Seq<char>, JsonView)> {
    h.filter(|e: (Seq<char>, JsonView)| !describes_body(e.0))
}

/// The headers without the sensitive ones.
pub open spec fn without_sensitive_headers(h: Seq<(Seq<char>, JsonView)>) -> Seq<
    (Seq<char>, JsonView),
> {
    h.filter(|e: (Seq<char>, JsonView)| !is_sensitive(e.0))
}

fn one_of(name: &str, a: &str, b: &str, c: &str, d: &str) -> (r: bool)
    ensures
        r == ({
            let n = text::lowered(name@);
            n == a@ || n == b@ || n == c@ || n == d@
        }),
{
    let n = text::to_lower(name);
    str_eq(n.as_str(), a) || str_eq(n.as_str(), b) || str_eq(n.as_str(), c) || str_eq(
        n.as_str(),
        d,
    )
}

pub fn remove_body_headers(headers: Vec<(String, Json)>) -> (r: Vec<(String, Json)>)
    ensures
        headers_view(r@) == without_body_headers(headers_view(headers@)),
{
    let ghost keep = |e: (Seq<char>, JsonView)| !describes_body(e.0);
    let ghost all = headers_view(headers@);
    let mut out: Vec<(String, Json)> = Vec::new();
    let mut i: usize = 0;
    assert(headers_view(out@) =~= Seq::empty());
    assert(all.take(0).filter(keep) =~= Seq::empty()) by {
        reveal(Seq::filter);
    }
    while i < headers.len()
        invariant
            i <= headers@.len(),
            all == headers_view(headers@),
            keep == (|e: (Seq<char>, JsonView)| !describes_body(e.0)),
            headers_view(out@) == all.take(i as int).filter(keep),
        decreases headers.len() - i,
    {
        let ghost before = out@;
        proof {
            reveal(Seq::filter);
            assert(all.take(i + 1).drop_last() =~= all.take(i as int));
            assert(all.take(i + 1).last() == (headers@[i as int].0@, headers@[i as int].1@));
        }
        let name = headers[i].0.as_str();
        if !one_of(name, "content-length", "content-type", "content-encoding", "transfer-encoding") {
            out.push((headers[i].0.clone(), headers[i].1.duplicate()));
            assert(headers_view(out@) =~= headers_view(before).push(
                (headers@[i as int].0@, headers@[i as int].1@),
            ));
        }
        i = i + 1;
    }
    assert(all.take(i as int) =~= all);
    out
}

pub fn remove_sensitive_headers(headers: Vec<(String, Json)>) -> (r: Vec<(String, Json)>)
    ensures
        headers_view(r@) == without_sensitive_headers(headers_view(headers@)),
{
    let ghost keep = |e: (Seq<char>, JsonView)| !is_sensitive(e.0);
    let ghost all = headers_view(headers@);
    let mut out: Vec<(String, Json)> = Vec::new();
    let mut i: usize = 0;
    assert(headers_view(out@) =~= Seq::empty());
    assert(all.take(0).filter(keep) =~= Seq::empty()) by {
        reveal(Seq::filter);
    }
    while i < headers.len()
        invariant
            i <= headers@.len(),
            all == headers_view(headers@),
            keep == (|e: (Seq<char>, JsonView)| !is_sensitive(e.0)),
            headers_view(out@) == all.take(i as int).filter(keep),
        decreases headers.len() - i,
    {
        let ghost before = out@;
        proof {
            reveal(Seq::filter);
            assert(all.take(i + 1).drop_last() =~= all.take(i as int));
            assert(all.take(i + 1).last() == (headers@[i as int].0@, headers@[i as int].1@));
        }
        let name = headers[i].0.as_str();
        if !one_of(name, "authorization", "proxy-authorization", "cookie", "host") {
            out.push((headers[i].0.clone(), headers[i].1.duplicate()));
            assert(headers_view(out@) =~= headers_view(before).push(
                (headers@[i as int].0@, headers@[i as int].1@),
            ));
        }
        i = i + 1;
    }
    assert(all.take(i as int) =~= all);
    out
}

/// A request that is to be sent: over redirects its parts change.
pub struct RequestState {
    pub method: String,
    pub url: ParsedUrl,
    pub headers: Vec<(String, Json)>,
    pub body: Option<String>,
    pub redirect_count: usize,
}

/// The mathematical value of a [`RequestState`].
pub struct RequestView {
    pub method: Seq<char>,
    pub url: UrlView,
    pub headers: Seq<(Seq<char>, JsonView)>,
    pub body: Option<Seq<char>>,
    pub redirect_count: nat,
}

/// What a response leads to.
pub enum Hop {
    /// The response goes to the caller.
    Deliver,
    /// The request is sent again, as it now stands.
    Follow,
    /// The fetch fails with a message.
    Fail(String),
}

/// The mathematical value of a [`Hop`], with the request that is sent next.
pub enum HopView {
    Deliver,
    Follow(RequestView),
    Fail(Seq<char>),
}

/// The `Location` of a response: absent, a text, or the message why its bytes are
/// no text.
pub enum Location {
    Absent,
    Text(String),
    Unreadable(String),
}

impl RequestState {
    pub open spec fn view(&self) -> RequestView {
        RequestView {
            method: self.method@,
            url: self.url@,
            headers: headers_view(self.headers@),
            body: text::opt_text(self.body),
            redirect_count: self.redirect_count as nat,
        }
    }
}

impl RequestView {
    /// The request after a redirect to `next`.
    pub open spec fn redirected(self, status: u16, next: UrlView) -> RequestView {
        let as_get = becomes_get(status, self.method);
        let kept = if as_get {
            without_body_headers(self.headers)
        } else {
            self.headers
        };
        RequestView {
            method: if as_get {
                "GET"@
            } else {
                self.method
            },
            url: next,
            headers: if origins_match(self.url, next) {
                kept
            } else {
                without_sensitive_headers(kept)
            },
            body: if as_get {
                None
            } else {
                self.body
            },
            redirect_count: self.redirect_count + 1,
        }
    }

    /// What a response with a status and a `Location` leads to; `joined` is the
    /// URL that the location stands for.
    pub open spec fn hop(
        self,
        follow: bool,
        status: u16,
        location: Location,
        joined: Result<UrlView, Seq<char>>,
    ) -> HopView {
        if !follow || !redirects(status) {
            HopView::Deliver
        } else {
            match location {
                Location::Absent => HopView::Deliver,
                Location::Unreadable(e) => HopView::Fail(
                    "invalid redirect Location header: "@ + e@,
                ),
                Location::Text(t) => if self.redirect_count >= MAX_REDIRECTS {
                    HopView::Fail("too many HTTP redirects (limit 10)"@)
                } else {
                    match joined {
                        Ok(next) => HopView::Follow(self.redirected(status, next)),
                        Err(e) => HopView::Fail(
                            "invalid redirect Location "@ + debug_text(t@) + ": "@ + e,
                        ),
                    }
                },
            }
        }
    }
}

/// The URL that a `Location` stands for, relative to the URL that was requested.
pub open spec fn located(base: Seq<char>, location: Location) -> Result<UrlView, Seq<char>> {
    match location {
        Location::Text(t) => url_joined(base, t@),
        _ => Err(Seq::empty()),
    }
}

impl RequestState {
    /// The first request of a fetch, or the message why its URL is none.
    pub fn start(
        method: &str,
        url: &str,
        headers: Option<Vec<(String, Json)>>,
        body: Option<String>,
    ) -> (r: Result<RequestState, String>)
        ensures
            match r {
                Ok(s) => url_parsed(url@) == Ok::<UrlView, Seq<char>>(s.url@) && s.method@
                    == text::uppered(method@) && headers_view(s.headers@) == (match headers {
                    Some(h) => headers_view(h@),
                    None => Seq::empty(),
                }) && s.body == body && s.redirect_count == 0,
                Err(e) => url_parsed(url@) is Err && e@ == "invalid URL: "@ + url_parsed(
                    url@,
                )->Err_0,
            },
    {
        match url_parse(url) {
            Ok(u) => {
                let headers = match headers {
                    Some(h) => h,
                    None => Vec::new(),
                };
                assert(headers@.len() == 0 ==> headers_view(headers@) =~= Seq::empty());
                Ok(
                    RequestState {
                        method: text::to_upper(method),
                        url: u,
                        headers,
                        body,
                        redirect_count: 0,
                    },
                )
            },
            Err(e) => Err(text::cat("invalid URL: ", e.as_str())),
        }
    }

    /// Takes the status and the `Location` of a response to the request.
    pub fn next_hop(self, follow: bool, status: u16, location: Location) -> (r: (Self, Hop))
        requires
            self.redirect_count <= MAX_REDIRECTS,
        ensures
            r.0.redirect_count <= MAX_REDIRECTS,
            match r.1 {
                Hop::Deliver => self@.hop(
                    follow,
                    status,
                    location,
                    located(self.url.text@, location),
                ) == HopView::Deliver && r.0 == self,
                Hop::Follow => self@.hop(
                    follow,
                    status,
                    location,
                    located(self.url.text@, location),
                ) == HopView::Follow(r.0@),
                Hop::Fail(e) => self@.hop(
                    follow,
                    status,
                    location,
                    located(self.url.text@, location),
                ) == HopView::Fail(e@) && r.0 == self,
            },
    {
        let joined = match &location {
            Location::Text(t) => url_join(self.url.text.as_str(), t.as_str()),
            _ => Err(String::new()),
        };
        assert(location !is Text ==> joined->Err_0@ =~= Seq::empty());
        self.take_hop(follow, status, location, joined)
    }

    /// Takes the status and the `Location` of a response, with the URL that the
    /// location stands for.
    pub fn take_hop(
        self,
        follow: bool,
        status: u16,
        location: Location,
        joined: Result<ParsedUrl, String>,
    ) -> (r: (Self, Hop))
        requires
            self.redirect_count <= MAX_REDIRECTS,
        ensures
            r.0.redirect_count <= MAX_REDIRECTS,
            ({
                let outcome = self@.hop(
                    follow,
                    status,
                    location,
                    match joined {
                        Ok(u) => Ok(u@),
                        Err(e) => Err(e@),
                    },
                );
                match r.1 {
                    Hop::Deliver => outcome == HopView::Deliver && r.0 == self,
                    Hop::Follow => outcome == HopView::Follow(r.0@),
                    Hop::Fail(e) => outcome == HopView::Fail(e@) && r.0 == self,
                }
            }),
    {
        if !follow || !is_redirect_status(status) {
            return (self, Hop::Deliver);
        }
        let target = match location {
            Location::Absent => return (self, Hop::Deliver),
            Location::Unreadable(e) => {
                let m = text::cat("invalid redirect Location header: ", e.as_str());
                return (self, Hop::Fail(m));
            },
            Location::Text(t) => t,
        };
        if self.redirect_count >= MAX_REDIRECTS {
            return (self, Hop::Fail("too many HTTP redirects (limit 10)".to_owned()));
        }
        let next = match joined {
            Ok(u) => u,
            Err(e) => {
                let q = quoted(target.as_str());
                let mut m = text::cat3("invalid redirect Location ", q.as_str(), ": ");
                m.append(e.as_str());
                return (self, Hop::Fail(m));
            },
        };
        let same = same_origin(&self.url, &next);
        let as_get = should_redirect_as_get(status, self.method.as_str());
        let RequestState { method, url: _, headers, body, redirect_count } = self;
        let (method, body, headers) = if as_get {
            ("GET".to_owned(), None, remove_body_headers(headers))
        } else {
            (method, body, headers)
        };
        let headers = if same {
            headers
        } else {
            remove_sensitive_headers(headers)
        };
        (
            RequestState { method, url: next, headers, body, redirect_count: redirect_count + 1 },
            Hop::Follow,
        )
    }
}

/// The value of a header as it is sent: a text as it is, anything else as JSON.
pub fn header_text(v: &Json) -> (r: String)
    ensures
        r@ == match v@ {
            JsonView::Str(s) => s,
            other => json::json_text(other),
        },
{
    match v {
        Json::Str(s) => s.clone(),
        other => json::write_json(other),
    }
}

/// A method of HTTP.
#[derive(Debug)]
pub enum Method {
    Get,
    Post,
    Put,
    Delete,
    Head,
    Patch,
    Options,
    Connect,
    Trace,
    Other(String),
}

/// The method of a name in upper case.
pub open spec fn named_method(upper: Seq<char>, m: Method) -> bool {
    if upper == "GET"@ {
        m is Get
    } else if upper == "POST"@ {
        m is Post
    } else if upper == "PUT"@ {
        m is Put
    } else if upper == "DELETE"@ {
        m is Delete
    } else if upper == "HEAD"@ {
        m is Head
    } else if upper == "PATCH"@ {
        m is Patch
    } else if upper == "OPTIONS"@ {
        m is Options
    } else if upper == "CONNECT"@ {
        m is Connect
    } else if upper == "TRACE"@ {
        m is Trace
    } else {
        m matches Method::Other(o) && o@ == upper
    }
}

pub fn parse_method(method: &str) -> (r: Method)
    ensures
        named_method(text::uppered(method@), r),
{
    let m = text::to_upper(method);
    let s = m.as_str();
    if str_eq(s, "GET") {
        Method::Get
    } else if str_eq(s, "POST") {
        Method::Post
    } else if str_eq(s, "PUT") {
        Method::Put
    } else if str_eq(s, "DELETE") {
        Method::Delete
    } else if str_eq(s, "HEAD") {
        Method::Head
    } else if str_eq(s, "PATCH") {
        Method::Patch
    } else if str_eq(s, "OPTIONS") {
        Method::Options
    } else if str_eq(s, "CONNECT") {
        Method::Connect
    } else if str_eq(s, "TRACE") {
        Method::Trace
    } else {
        Method::Other(m)
    }
}

// ---------------------------------------------------------------- laws of redirects

proof fn lemma_filtered_has(
    h: Seq<(Seq<char>, JsonView)>,
    p: spec_fn((Seq<char>, JsonView)) -> bool,
    e: (Seq<char>, JsonView),
)
    ensures
        h.filter(p).contains(e) <==> h.contains(e) && p(e),
{
    if h.filter(p).contains(e) {
        lemma_filter_sub(h, p, e);
    }
    if h.contains(e) && p(e) {
        let i = choose|i: int| 0 <= i < h.len() && h[i] == e;
        h.lemma_filter_contains(p, i);
    }
}

proof fn lemma_filter_sub(
    h: Seq<(Seq<char>, JsonView)>,
    p: spec_fn((Seq<char>, JsonView)) -> bool,
    e: (Seq<char>, JsonView),
)
    requires
        h.filter(p).contains(e),
    ensures
        h.contains(e) && p(e),
    decreases h.len(),
{
    reveal(Seq::filter);
    if h.len() > 0 {
        let front = h.drop_last();
        if front.filter(p).contains(e) {
            lemma_filter_sub(front, p, e);
            let i = choose|i: int| 0 <= i < front.len() && front[i] == e;
            assert(h[i] == e);
        } else {
            let f = h.filter(p);
            let i = choose|i: int| 0 <= i < f.len() && f[i] == e;
            assert(i == front.filter(p).len()) by {
                if i < front.filter(p).len() {
                    assert(front.filter(p)[i] == e);
                }
            }
            assert(h[h.len() - 1] == e);
        }
    }
}

/// A redirect to another origin carries no credentials, whatever the request held
/// and however the names are spelled.
pub proof fn cross_origin_drops_credentials(
    r: RequestView,
    status: u16,
    next: UrlView,
    e: (Seq<char>, JsonView),
)
    requires
        !origins_match(r.url, next),
        is_sensitive(e.0),
    ensures
        !r.redirected(status, next).headers.contains(e),
{
    let kept = if becomes_get(status, r.method) {
        without_body_headers(r.headers)
    } else {
        r.headers
    };
    lemma_filtered_has(kept, |x: (Seq<char>, JsonView)| !is_sensitive(x.0), e);
}

/// A header that neither describes the body nor is sensitive survives every
/// redirect.
pub proof fn other_headers_survive(
    r: RequestView,
    status: u16,
    next: UrlView,
    e: (Seq<char>, JsonView),
)
    requires
        r.headers.contains(e),
        !is_sensitive(e.0),
        !describes_body(e.0),
    ensures
        r.redirected(status, next).headers.contains(e),
{
    lemma_filtered_has(r.headers, |x: (Seq<char>, JsonView)| !describes_body(x.0), e);
    let kept = if becomes_get(status, r.method) {
        without_body_headers(r.headers)
    } else {
        r.headers
    };
    lemma_filtered_has(kept, |x: (Seq<char>, JsonView)| !is_sensitive(x.0), e);
}

/// 307 and 308 keep the method and the body.
pub proof fn permanent_forms_keep_the_request(r: RequestView, status: u16, next: UrlView)
    requires
        status == 307 || status == 308,
    ensures
        r.redirected(status, next).method == r.method,
        r.redirected(status, next).body == r.body,
{
}

/// A chain of redirects ends: after the limit every further one fails.
pub proof fn redirects_are_bounded(
    r: RequestView,
    status: u16,
    t: String,
    joined: Result<UrlView, Seq<char>>,
)
    requires
        r.redirect_count >= MAX_REDIRECTS,
        redirects(status),
    ensures
        r.hop(true, status, Location::Text(t), joined) is Fail,
{
}

// ---------------------------------------------------------------- responses

/// A response whose body is read.
pub struct FetchResponse {
    pub ok: bool,
    pub status: u16,
    pub status_text: &'static str,
    pub headers: JsonObject,
    pub body_bytes: Vec<u8>,
    /// Whether the peer is to treat the bytes as binary rather than as text.
    pub raw: bool,
}

/// A response before its body is read.
pub struct HttpResponse {
    pub ok: bool,
    pub status: u16,
    pub status_text: &'static str,
    pub headers: JsonObject,
    pub raw_requested: bool,
}

/// The text of the common statuses.
pub open spec fn status_phrase(status: u16) -> &'static str {
    if status == 200 {
        "OK"
    } else if status == 201 {
        "Created"
    } else if status == 204 {
        "No Content"
    } else if status == 301 {
        "Moved Permanently"
    } else if status == 302 {
        "Found"
    } else if status == 303 {
        "See Other"
    } else if status == 304 {
        "Not Modified"
    } else if status == 307 {
        "Temporary Redirect"
    } else if status == 308 {
        "Permanent Redirect"
    } else if status == 400 {
        "Bad Request"
    } else if status == 401 {
        "Unauthorized"
    } else if status == 403 {
        "Forbidden"
    } else if status == 404 {
        "Not Found"
    } else if status == 500 {
        "Internal Server Error"
    } else if status == 502 {
        "Bad Gateway"
    } else if status == 503 {
        "Service Unavailable"
    } else {
        ""
    }
}

pub fn status_text(status: u16) -> (r: &'static str)
    ensures
        r == status_phrase(status),
{
    match status {
        200 => "OK",
        201 => "Created",
        204 => "No Content",
        301 => "Moved Permanently",
        302 => "Found",
        303 => "See Other",
        304 => "Not Modified",
        307 => "Temporary Redirect",
        308 => "Permanent Redirect",
        400 => "Bad Request",
        401 => "Unauthorized",
        403 => "Forbidden",
        404 => "Not Found",
        500 => "Internal Server Error",
        502 => "Bad Gateway",
        503 => "Service Unavailable",
        _ => "",
    }
}

/// The headers of a response as an object; a name that comes again replaces the
/// earlier value, and a value that is no text counts as empty.
pub open spec fn header_object(h: Seq<(String, Option<String>)>) -> Map<Seq<char>, JsonView>
    decreases h.len(),
{
    if h.len() == 0 {
        Map::empty()
    } else {
        header_object(h.drop_last()).insert(
            h.last().0@,
            JsonView::Str(
                match h.last().1 {
                    Some(v) => v@,
                    None => Seq::empty(),
                },
            ),
        )
    }
}

/// Whether a status says that a request succeeded.
pub open spec fn succeeded(status: u16) -> bool {
    status as int / 100 == 2
}

/// Takes the status and the headers of a response.
pub fn into_http_response(status: u16, headers: &Vec<(String, Option<String>)>, raw: bool) -> (r:
    HttpResponse)
    ensures
        r.ok == (200 <= status < 300),
        r.status == status,
        r.status_text == status_phrase(status),
        r.headers@ == header_object(headers@),
        r.raw_requested == raw,
        r.ok == succeeded(status),
{
    let mut obj = JsonObject::new();
    let mut i: usize = 0;
    while i < headers.len()
        invariant
            i <= headers@.len(),
            obj@ == header_object(headers@.take(i as int)),
        decreases headers.len() - i,
    {
        proof {
            assert(headers@.take(i + 1).drop_last() =~= headers@.take(i as int));
        }
        let value = match &headers[i].1 {
            Some(v) => v.clone(),
            None => String::new(),
        };
        assert(headers@[i as int].1 is None ==> value@ =~= Seq::empty());
        obj.put(headers[i].0.as_str(), Json::Str(value));
        i = i + 1;
    }
    assert(headers@.take(i as int) =~= headers@);
    HttpResponse {
        ok: status >= 200 && status < 300,
        status,
        status_text: status_text(status),
        headers: obj,
        raw_requested: raw,
    }
}

impl HttpResponse {
    /// The response with its body. Bytes that are no text are raw in any case.
    pub fn into_buffered(self, body_bytes: Vec<u8>) -> (r: FetchResponse)
        ensures
            r.ok == self.ok,
            r.status == self.status,
            r.status_text == self.status_text,
            r.headers == self.headers,
            r.body_bytes == body_bytes,
            r.raw == (self.raw_requested || !valid_utf8(body_bytes@)),
    {
        let raw = self.raw_requested || text::utf8_text(body_bytes.as_slice()).is_none();
        FetchResponse {
            ok: self.ok,
            status: self.status,
            status_text: self.status_text,
            headers: self.headers,
            body_bytes,
            raw,
        }
    }
}

/// The text of a header, empty where it is absent.
pub open spec fn header_value(headers: Map<Seq<char>, JsonView>, name: Seq<char>) -> Seq<char> {
    match JsonView::Object(headers).str_at(name) {
        Some(s) => s,
        None => Seq::empty(),
    }
}

fn header_str(headers: &JsonObject, name: &str) -> (r: String)
    ensures
        r@ == header_value(headers@, name@),
{
    match headers.get(name) {
        Some(v) => match v.as_str() {
            Some(s) => s.to_owned(),
            None => String::new(),
        },
        None => String::new(),
    }
}

/// The media type of a response, in lower case.
pub open spec fn media_type(headers: Map<Seq<char>, JsonView>) -> Seq<char> {
    text::lowered(header_value(headers, "content-type"@))
}

fn media_type_of(headers: &JsonObject) -> (r: String)
    ensures
        r@ == media_type(headers@),
{
    let v = header_str(headers, "content-type");
    text::to_lower(v.as_str())
}

/// The announced length of a body.
pub open spec fn announced_length(headers: Map<Seq<char>, JsonView>) -> Option<nat> {
    match JsonView::Object(headers).str_at("content-length"@) {
        Some(s) => text::parsed_uint(s, usize::MAX as nat),
        None => None,
    }
}

fn content_length(headers: &JsonObject) -> (r: Option<usize>)
    ensures
        match r {
            Some(n) => announced_length(headers@) == Some(n as nat),
            None => announced_length(headers@) is None,
        },
{
    match headers.get("content-length") {
        Some(v) => match v.as_str() {
            Some(s) => match text::parse_uint(s, usize::MAX as u64) {
                Some(n) => Some(n as usize),
                None => None,
            },
            None => None,
        },
        None => None,
    }
}

/// Whether a response is streamed: as the caller chose, else for audio, video and
/// large bodies.
pub open spec fn streams(headers: Map<Seq<char>, JsonView>, preference: Option<bool>) -> bool {
    match preference {
        Some(p) => p,
        None => {
            ||| text::begins_with(media_type(headers), "audio/"@)
            ||| text::begins_with(media_type(headers), "video/"@)
            ||| match announced_length(headers) {
                Some(n) => n >= AUTO_STREAM_MIN_BYTES,
                None => false,
            }
        },
    }
}

pub fn should_stream(resp: &HttpResponse, preference: Option<bool>) -> (r: bool)
    ensures
        r == streams(resp.headers@, preference),
{
    if let Some(p) = preference {
        return p;
    }
    let kind = media_type_of(&resp.headers);
    if text::starts_with(kind.as_str(), "audio/") || text::starts_with(kind.as_str(), "video/") {
        return true;
    }
    match content_length(&resp.headers) {
        Some(n) => n >= AUTO_STREAM_MIN_BYTES,
        None => false,
    }
}

pub open spec fn is_binary(e: BodyEncoding) -> bool {
    e != BodyEncoding::Text
}

/// The first binary encoding of a preference list, base64 where there is none.
pub open spec fn first_binary(encodings: Seq<BodyEncoding>) -> BodyEncoding
    decreases encodings.len(),
{
    if encodings.len() == 0 {
        BodyEncoding::Base64
    } else if is_binary(encodings[0]) {
        encodings[0]
    } else {
        first_binary(encodings.drop_first())
    }
}

/// The encoding of stream frames.
pub fn stream_encoding(caps: &NegotiatedCaps) -> (r: BodyEncoding)
    ensures
        r == first_binary(caps.encodings@),
{
    let mut i: usize = 0;
    assert(caps.encodings@.skip(0) =~= caps.encodings@);
    while i < caps.encodings.len()
        invariant
            i <= caps.encodings@.len(),
            first_binary(caps.encodings@) == first_binary(caps.encodings@.skip(i as int)),
        decreases caps.encodings.len() - i,
    {
        let e = caps.encodings[i];
        if e != BodyEncoding::Text {
            return e;
        }
        assert(caps.encodings@.skip(i as int).drop_first() =~= caps.encodings@.skip(i + 1));
        i = i + 1;
    }
    BodyEncoding::Base64
}

/// A message with the id of its request, where it has one.
pub open spec fn with_id(id: Option<Seq<char>>, key: Seq<char>, value: JsonView) -> JsonView {
    let m = Map::<Seq<char>, JsonView>::empty().insert(key, value);
    JsonView::Object(
        match id {
            Some(id) => m.insert("id"@, JsonView::Str(id)),
            None => m,
        },
    )
}

fn wrap_with_id(id: Option<&str>, key: &str, value: Json) -> (r: Json)
    ensures
        r@ == with_id(json::opt_view(id), key@, value@),
{
    let mut payload = JsonObject::new();
    payload.put(key, value);
    if let Some(id) = id {
        payload.put("id", Json::string(id));
    }
    Json::Object(payload)
}

/// The fields that every response has.
pub open spec fn response_fields(
    ok: bool,
    status: nat,
    status_text: Seq<char>,
    headers: Map<Seq<char>, JsonView>,
    body: Seq<char>,
    raw: bool,
) -> Map<Seq<char>, JsonView> {
    Map::<Seq<char>, JsonView>::empty().insert("ok"@, JsonView::Bool(ok)).insert(
        "status"@,
        JsonView::UInt(status),
    ).insert("statusText"@, JsonView::Str(status_text)).insert(
        "headers"@,
        JsonView::Object(headers),
    ).insert("body"@, JsonView::Str(body)).insert("raw"@, JsonView::Bool(raw))
}

fn response_object(
    ok: bool,
    status: u16,
    status_text: &str,
    headers: &JsonObject,
    body: String,
    raw: bool,
) -> (r: JsonObject)
    ensures
        r@ == response_fields(ok, status as nat, status_text@, headers@, body@, raw),
{
    let copy = headers.duplicate();
    let mut obj = JsonObject::new();
    obj.put("ok", Json::Bool(ok));
    obj.put("status", Json::UInt(status as u64));
    obj.put("statusText", Json::string(status_text));
    obj.put("headers", Json::Object(copy));
    obj.put("body", Json::Str(body));
    obj.put("raw", Json::Bool(raw));
    obj
}

/// The message of a failed fetch.
pub open spec fn error_message(id: Option<Seq<char>>, message: Seq<char>) -> JsonView {
    with_id(
        id,
        "resp"@,
        JsonView::Object(
            response_fields(false, 0, message, Map::empty(), Seq::empty(), false),
        ),
    )
}

/// The message of a failed fetch.
pub fn send_error(id: Option<&str>, message: &str) -> (r: Json)
    ensures
        r@ == error_message(json::opt_view(id), message@),
{
    let none = JsonObject::new();
    let body = String::new();
    let obj = response_object(false, 0, message, &none, body, false);
    wrap_with_id(id, "resp", Json::Object(obj))
}

/// Whether a streamed body is raw: as requested, and whenever its type is no
/// textual one.
pub open spec fn streams_raw(headers: Map<Seq<char>, JsonView>, requested: bool) -> bool {
    let kind = media_type(headers);
    requested || !(text::begins_with(kind, "text/"@) || text::has_part(kind, "json"@)
        || text::has_part(kind, "xml"@) || text::has_part(kind, "javascript"@))
}

/// The message that announces a stream.
pub open spec fn stream_header(
    id: Seq<char>,
    resp: HttpResponse,
    caps: CapsView,
    fixed_chunks: bool,
) -> JsonView {
    let m = response_fields(
        resp.ok,
        resp.status as nat,
        resp.status_text@,
        resp.headers@,
        Seq::empty(),
        streams_raw(resp.headers@, resp.raw_requested),
    ).insert("stream"@, JsonView::Bool(true)).insert("chunkSize"@, JsonView::UInt(caps.chunk_size)).insert(
        "bodyEncoding"@,
        JsonView::Str(first_binary(caps.encodings).name()),
    ).insert("compression"@, JsonView::Str("none"@)).insert("ack"@, JsonView::Bool(true)).insert(
        "checksum"@,
        JsonView::Str("crc32"@),
    );
    let m = if fixed_chunks {
        m.insert("fixedChunks"@, JsonView::Bool(true))
    } else {
        m
    };
    let m = match announced_length(resp.headers@) {
        Some(n) => m.insert("contentLength"@, JsonView::UInt(n)),
        None => m,
    };
    with_id(Some(id), "resp"@, JsonView::Object(m))
}

/// The message that announces a stream, and the shape of the stream.
pub fn send_streaming(id: &str, resp: &HttpResponse, caps: &NegotiatedCaps, fixed_chunks: bool) -> (r: (
    Json,
    StreamConfig,
))
    ensures
        r.0@ == stream_header(id@, *resp, caps@, fixed_chunks),
        r.1.chunk_size == caps.chunk_size,
        r.1.encoding == first_binary(caps.encodings@),
        r.1.window == caps.ack_window,
        r.1.fixed_chunks == fixed_chunks,
{
    let kind = media_type_of(&resp.headers);
    let k = kind.as_str();
    let raw = resp.raw_requested || !(text::starts_with(k, "text/") || text::contains(k, "json")
        || text::contains(k, "xml") || text::contains(k, "javascript"));
    let length = content_length(&resp.headers);
    let encoding = stream_encoding(caps);
    let empty = String::new();
    let mut obj = response_object(
        resp.ok,
        resp.status,
        resp.status_text,
        &resp.headers,
        empty,
        raw,
    );
    obj.put("stream", Json::Bool(true));
    obj.put("chunkSize", Json::UInt(caps.chunk_size as u64));
    obj.put("bodyEncoding", Json::string(encoding.as_str()));
    obj.put("compression", Json::string("none"));
    obj.put("ack", Json::Bool(true));
    obj.put("checksum", Json::string("crc32"));
    if fixed_chunks {
        obj.put("fixedChunks", Json::Bool(true));
    }
    if let Some(n) = length {
        obj.put("contentLength", Json::UInt(n as u64));
    }
    let header = wrap_with_id(Some(id), "resp", Json::Object(obj));
    (
        header,
        StreamConfig {
            chunk_size: caps.chunk_size,
            encoding,
            window: caps.ack_window,
            fixed_chunks,
        },
    )
}

// ---------------------------------------------------------------- plan

/// How one response is sent.
pub struct TransferPlan {
    pub compression: Compression,
    /// The bytes after compression.
    pub payload: Vec<u8>,
    /// Length of the body before compression.
    pub original_bytes: usize,
    /// Wire encoding of the payload.
    pub encoding: BodyEncoding,
    /// Bytes of the payload per chunk, where it is chunked.
    pub chunk_size: Option<usize>,
    /// Most chunks in flight; zero where chunks are not paced.
    pub ack_window: usize,
}

/// The compression of a body: the peer's first choice, unless the body is small.
pub open spec fn chosen_compression(caps: Option<CapsView>, body_len: nat) -> Compression {
    match caps {
        Some(c) => if c.compressions.len() == 0 || body_len < COMPRESS_MIN_SIZE {
            Compression::Plain
        } else {
            c.compressions[0]
        },
        None => Compression::Plain,
    }
}

pub open spec fn caps_ref(caps: Option<&NegotiatedCaps>) -> Option<CapsView> {
    match caps {
        Some(c) => Some(c@),
        None => None,
    }
}

pub fn pick_compression(caps: Option<&NegotiatedCaps>, body_len: usize) -> (r: Compression)
    ensures
        r == chosen_compression(caps_ref(caps), body_len as nat),
{
    match caps {
        Some(c) => if c.compressions.len() == 0 || body_len < COMPRESS_MIN_SIZE {
            Compression::Plain
        } else {
            c.compressions[0]
        },
        None => Compression::Plain,
    }
}

/// The first encoding of a preference list that can be used, base64 where there
/// is none.
pub open spec fn first_usable(encodings: Seq<BodyEncoding>, text_viable: bool) -> BodyEncoding
    decreases encodings.len(),
{
    if encodings.len() == 0 {
        BodyEncoding::Base64
    } else if is_binary(encodings[0]) || text_viable {
        encodings[0]
    } else {
        first_usable(encodings.drop_first(), text_viable)
    }
}

/// The wire encoding of a payload. Text needs a whole, uncompressed payload that
/// is valid UTF-8; a peer that named no encodings gets text or base64.
pub open spec fn chosen_encoding(
    caps: Option<CapsView>,
    payload: Seq<u8>,
    raw: bool,
    will_chunk: bool,
    compression: Compression,
) -> BodyEncoding {
    let viable = !will_chunk && !raw && compression == Compression::Plain && valid_utf8(payload);
    let named = match caps {
        Some(c) => c.encodings,
        None => Seq::empty(),
    };
    if named.len() == 0 {
        if viable {
            BodyEncoding::Text
        } else {
            BodyEncoding::Base64
        }
    } else {
        first_usable(named, viable)
    }
}

pub fn pick_encoding(
    caps: Option<&NegotiatedCaps>,
    payload: &[u8],
    raw: bool,
    will_chunk: bool,
    compression: Compression,
) -> (r: BodyEncoding)
    ensures
        r == chosen_encoding(caps_ref(caps), payload@, raw, will_chunk, compression),
{
    let viable = !will_chunk && !raw && compression == Compression::Plain && text::utf8_text(
        payload,
    ).is_some();
    let fallback = if viable {
        BodyEncoding::Text
    } else {
        BodyEncoding::Base64
    };
    let named = match caps {
        Some(c) => &c.encodings,
        None => return fallback,
    };
    if named.len() == 0 {
        return fallback;
    }
    let mut i: usize = 0;
    assert(named@.skip(0) =~= named@);
    while i < named.len()
        invariant
            i <= named@.len(),
            named@.len() > 0,
            caps is Some,
            *named == caps->0.encodings,
            viable == (!will_chunk && !raw && compression == Compression::Plain && valid_utf8(
                payload@,
            )),
            first_usable(named@, viable) == first_usable(named@.skip(i as int), viable),
        decreases named.len() - i,
    {
        let e = named[i];
        if e != BodyEncoding::Text || viable {
            return e;
        }
        assert(named@.skip(i as int).drop_first() =~= named@.skip(i + 1));
        i = i + 1;
    }
    BodyEncoding::Base64
}

/// The chunk size of a payload that is too long for one chunk.
pub open spec fn chosen_chunk_size(caps: Option<CapsView>, payload_len: nat) -> Option<nat> {
    match caps {
        Some(c) => if c.chunked && payload_len > c.chunk_size {
            Some(c.chunk_size)
        } else {
            None
        },
        None => None,
    }
}

/// Whether a plan is the one for a payload under given capabilities.
pub open spec fn plans(
    plan: TransferPlan,
    payload: Seq<u8>,
    original_bytes: nat,
    raw: bool,
    compression: Compression,
    caps: Option<CapsView>,
) -> bool {
    let size = chosen_chunk_size(caps, payload.len());
    &&& plan.compression == compression
    &&& plan.payload@ == payload
    &&& plan.original_bytes == original_bytes
    &&& match plan.chunk_size {
        Some(n) => size == Some(n as nat),
        None => size is None,
    }
    &&& plan.encoding == chosen_encoding(caps, payload, raw, size is Some, compression)
    &&& plan.ack_window == (match (size, caps) {
        (Some(_), Some(c)) => c.ack_window,
        _ => 0,
    })
}

/// Plans how a compressed body is sent.
pub fn plan_payload(
    payload: Vec<u8>,
    original_bytes: usize,
    raw: bool,
    compression: Compression,
    caps: Option<&NegotiatedCaps>,
) -> (plan: TransferPlan)
    ensures
        plans(plan, payload@, original_bytes as nat, raw, compression, caps_ref(caps)),
{
    let chunk_size: Option<usize> = match caps {
        Some(c) => if c.chunked && payload.len() > c.chunk_size {
            Some(c.chunk_size)
        } else {
            None
        },
        None => None,
    };
    let encoding = pick_encoding(
        caps,
        payload.as_slice(),
        raw,
        chunk_size.is_some(),
        compression,
    );
    let ack_window: usize = match (chunk_size, caps) {
        (Some(_), Some(c)) => c.ack_window,
        _ => 0,
    };
    TransferPlan { compression, payload, original_bytes, encoding, chunk_size, ack_window }
}

/// Plans how a response is sent: compressed as the peer prefers, then chunked by
/// what is left.
pub fn build_plan(resp: &FetchResponse, caps: Option<&NegotiatedCaps>) -> (plan: TransferPlan)
    requires
        chosen_compression(caps_ref(caps), resp.body_bytes@.len()) == Compression::Lz4
            ==> codec::lz4_sized(resp.body_bytes@.len()),
    ensures
        plan.compression == chosen_compression(caps_ref(caps), resp.body_bytes@.len()),
        codec::packs(plan.compression, plan.payload@, resp.body_bytes@),
        plans(
            plan,
            plan.payload@,
            resp.body_bytes@.len(),
            resp.raw,
            plan.compression,
            caps_ref(caps),
        ),
{
    let compression = pick_compression(caps, resp.body_bytes.len());
    let payload = codec::compress(resp.body_bytes.as_slice(), compression);
    plan_payload(payload, resp.body_bytes.len(), resp.raw, compression, caps)
}

/// A message with its tag.
pub struct Outgoing {
    pub tag: &'static str,
    pub body: Json,
}

/// The encoding that needs no mention for a body: text, and base64 for raw bytes.
pub open spec fn unmarked_encoding(raw: bool) -> BodyEncoding {
    if raw {
        BodyEncoding::Base64
    } else {
        BodyEncoding::Text
    }
}

pub fn legacy_encoding_for(raw: bool) -> (r: BodyEncoding)
    ensures
        r == unmarked_encoding(raw),
{
    if raw {
        BodyEncoding::Base64
    } else {
        BodyEncoding::Text
    }
}

/// A response in one message.
pub open spec fn whole_message(
    id: Option<Seq<char>>,
    resp: FetchResponse,
    plan: TransferPlan,
) -> JsonView {
    let m = response_fields(
        resp.ok,
        resp.status as nat,
        resp.status_text@,
        resp.headers@,
        codec::encoded_or_base64(plan.payload@, plan.encoding),
        resp.raw,
    );
    let m = if plan.encoding != unmarked_encoding(resp.raw) {
        m.insert("bodyEncoding"@, JsonView::Str(plan.encoding.name()))
    } else {
        m
    };
    let m = if plan.compression != Compression::Plain {
        m.insert("compression"@, JsonView::Str(plan.compression.name())).insert(
            "originalBytes"@,
            JsonView::UInt(plan.original_bytes as nat),
        )
    } else {
        m
    };
    with_id(id, "resp"@, JsonView::Object(m))
}

/// What is answered in the place of a body that is too long for one message.
pub open spec fn too_large_message() -> Seq<char> {
    "response too large for unchunked interconnect frame; complete FetchBridge handshake with chunk=true"@
}

/// Makes the single message of a response, or the reason why its encoded body is
/// too long for one.
pub fn send_unchunked(id: Option<&str>, resp: &FetchResponse, plan: &TransferPlan) -> (r: Result<
    Json,
    String,
>)
    ensures
        ({
            let wire = encode_utf8(codec::encoded_or_base64(plan.payload@, plan.encoding)).len();
            match r {
                Ok(m) => wire <= MAX_UNCHUNKED_WIRE_LEN && m@ == whole_message(
                    json::opt_view(id),
                    *resp,
                    *plan,
                ),
                Err(e) => wire > MAX_UNCHUNKED_WIRE_LEN && e@ == too_large_message(),
            }
        }),
{
    let encoded = codec::encode_or_base64(plan.payload.as_slice(), plan.encoding);
    if encoded.as_str().as_bytes().len() > MAX_UNCHUNKED_WIRE_LEN {
        return Err(
            "response too large for unchunked interconnect frame; complete FetchBridge handshake with chunk=true".to_owned(),
        );
    }
    let mut obj = response_object(
        resp.ok,
        resp.status,
        resp.status_text,
        &resp.headers,
        encoded,
        resp.raw,
    );
    if plan.encoding != legacy_encoding_for(resp.raw) {
        obj.put("bodyEncoding", Json::string(plan.encoding.as_str()));
    }
    if plan.compression != Compression::Plain {
        obj.put("compression", Json::string(plan.compression.as_str()));
        obj.put("originalBytes", Json::UInt(plan.original_bytes as u64));
    }
    Ok(wrap_with_id(id, "resp", Json::Object(obj)))
}

/// The message that announces a chunked response.
pub open spec fn chunked_header(
    id: Option<Seq<char>>,
    resp: FetchResponse,
    plan: TransferPlan,
    chunk_size: nat,
) -> JsonView {
    let m = response_fields(
        resp.ok,
        resp.status as nat,
        resp.status_text@,
        resp.headers@,
        Seq::empty(),
        resp.raw,
    ).insert("chunked"@, JsonView::Bool(true)).insert(
        "totalBytes"@,
        JsonView::UInt(plan.payload@.len()),
    ).insert("chunkSize"@, JsonView::UInt(chunk_size)).insert(
        "chunkCount"@,
        JsonView::UInt(transfer::chunk_count_of(plan.payload@.len(), chunk_size)),
    ).insert("bodyEncoding"@, JsonView::Str(plan.encoding.name()));
    let m = if plan.compression != Compression::Plain {
        m.insert("compression"@, JsonView::Str(plan.compression.name())).insert(
            "originalBytes"@,
            JsonView::UInt(plan.original_bytes as nat),
        )
    } else {
        m
    };
    let m = if plan.ack_window > 0 {
        m.insert("ack"@, JsonView::Bool(true))
    } else {
        m
    };
    with_id(id, "resp"@, JsonView::Object(m))
}

/// Whether messages are a header and then some chunk messages.
pub open spec fn header_then_chunks(
    out: Seq<Outgoing>,
    header: JsonView,
    chunks: Seq<Json>,
) -> bool {
    &&& out.len() == chunks.len() + 1
    &&& out[0].tag@ == FETCH_TAG@
    &&& out[0].body@ == header
    &&& forall|i: int|
        1 <= i < out.len() ==> (#[trigger] out[i]).tag@ == FETCH_CHUNK_TAG@ && out[i].body@
            == chunks[i - 1]@
}

/// Whether a chunked response was sent off: the messages are the header and then
/// the first window of a paced transfer, which is registered, or every chunk of an
/// unpaced one.
pub open spec fn sent_chunked(
    before: transfer::Registry,
    after: transfer::Registry,
    k: table::PeerKey,
    id: Option<Seq<char>>,
    resp: FetchResponse,
    plan: TransferPlan,
    chunk_size: usize,
    now: u64,
    out: Seq<Outgoing>,
) -> bool {
    let paced = plan.ack_window > 0;
    let t = transfer::started(plan.payload, chunk_size, plan.encoding, plan.ack_window, now);
    let header = chunked_header(id, resp, plan, chunk_size as nat);
    &&& paced ==> after.transfers@ == table::still_alive(
        before.transfers@,
        now,
        transfer::TRANSFER_TIMEOUT,
    ).insert(k, t)
    &&& !paced ==> after == before
    &&& exists|chunks: Seq<Json>| #[trigger]
        header_then_chunks(out, header, chunks) && transfer::are_chunk_messages(
            chunks,
            t,
            id,
            0,
            if paced {
                t.next as int
            } else {
                t.chunk_count as int
            },
        )
}

/// Makes the messages of a chunked response.
pub fn send_chunked(
    reg: &mut transfer::Registry,
    addr: &str,
    pkg: &str,
    id: Option<&str>,
    resp: &FetchResponse,
    plan: TransferPlan,
    chunk_size: usize,
    now: u64,
) -> (out: Vec<Outgoing>)
    requires
        old(reg).wf(),
        chunk_size > 0,
        plan.payload@.len() > 0,
    ensures
        final(reg).wf(),
        sent_chunked(
            *old(reg),
            *final(reg),
            transfer::transfer_key(addr, pkg, id),
            json::opt_view(id),
            *resp,
            plan,
            chunk_size,
            now,
            out@,
        ),
{
    let ghost t = transfer::started(plan.payload, chunk_size, plan.encoding, plan.ack_window, now);
    let ghost whole = plan;
    let total_bytes: usize = plan.payload.len();
    let chunk_count: usize = transfer::count_chunks(total_bytes, chunk_size);
    let ack_paced = plan.ack_window > 0;
    let empty = String::new();
    let mut obj = response_object(
        resp.ok,
        resp.status,
        resp.status_text,
        &resp.headers,
        empty,
        resp.raw,
    );
    obj.put("chunked", Json::Bool(true));
    obj.put("totalBytes", Json::UInt(total_bytes as u64));
    obj.put("chunkSize", Json::UInt(chunk_size as u64));
    obj.put("chunkCount", Json::UInt(chunk_count as u64));
    obj.put("bodyEncoding", Json::string(plan.encoding.as_str()));
    if plan.compression != Compression::Plain {
        obj.put("compression", Json::string(plan.compression.as_str()));
        obj.put("originalBytes", Json::UInt(plan.original_bytes as u64));
    }
    if ack_paced {
        obj.put("ack", Json::Bool(true));
    }
    let header = wrap_with_id(id, "resp", Json::Object(obj));
    let chunks = if ack_paced {
        transfer::begin(
            reg,
            addr,
            pkg,
            id,
            plan.payload,
            chunk_size,
            plan.encoding,
            plan.ack_window,
            now,
        )
    } else {
        transfer::all_chunks(id, plan.payload, chunk_size, plan.encoding, now)
    };
    let ghost sent = chunks@;
    let mut out: Vec<Outgoing> = Vec::new();
    out.push(Outgoing { tag: FETCH_TAG, body: header });
    let mut i: usize = 0;
    while i < chunks.len()
        invariant
            i <= chunks@.len(),
            out@.len() == i + 1,
            out@[0].tag@ == FETCH_TAG@,
            out@[0].body@ == header@,
            forall|j: int|
                1 <= j < out@.len() ==> (#[trigger] out@[j]).tag@ == FETCH_CHUNK_TAG@ && out@[j].body@
                    == chunks@[j - 1]@,
        decreases chunks.len() - i,
    {
        out.push(Outgoing { tag: FETCH_CHUNK_TAG, body: chunks[i].duplicate() });
        i = i + 1;
    }
    proof {
        assert(header_then_chunks(out@, header@, sent));
    }
    out
}

/// Makes the messages of a response that is not streamed. Where the body is too
/// long for one message and the peer takes no chunks, the answer is an error
/// message, and the reason comes with it.
pub fn send_response(
    reg: &mut transfer::Registry,
    addr: &str,
    pkg: &str,
    id: Option<&str>,
    resp: &FetchResponse,
    caps: Option<&NegotiatedCaps>,
    now: u64,
) -> (r: (Vec<Outgoing>, Result<(), String>))
    requires
        old(reg).wf(),
        caps matches Some(c) ==> c.chunked ==> c.chunk_size > 0,
        chosen_compression(caps_ref(caps), resp.body_bytes@.len()) == Compression::Lz4
            ==> codec::lz4_sized(resp.body_bytes@.len()),
    ensures
        final(reg).wf(),
        r.0@.len() > 0,
        r.0@[0].tag@ == FETCH_TAG@,
        ({
            exists|plan: TransferPlan|
                {
                    &&& #[trigger] plans(
                        plan,
                        plan.payload@,
                        resp.body_bytes@.len(),
                        resp.raw,
                        chosen_compression(caps_ref(caps), resp.body_bytes@.len()),
                        caps_ref(caps),
                    )
                    &&& codec::packs(plan.compression, plan.payload@, resp.body_bytes@)
                    &&& match plan.chunk_size {
                        Some(size) => r.1 is Ok && sent_chunked(
                            *old(reg),
                            *final(reg),
                            transfer::transfer_key(addr, pkg, id),
                            json::opt_view(id),
                            *resp,
                            plan,
                            size,
                            now,
                            r.0@,
                        ),
                        None => {
                            &&& *final(reg) == *old(reg)
                            &&& r.0@.len() == 1
                            &&& r.1 is Err <==> encode_utf8(
                                codec::encoded_or_base64(plan.payload@, plan.encoding),
                            ).len() > MAX_UNCHUNKED_WIRE_LEN
                            &&& match r.1 {
                                Ok(_) => r.0@[0].body@ == whole_message(
                                    json::opt_view(id),
                                    *resp,
                                    plan,
                                ),
                                Err(e) => e@ == too_large_message() && r.0@[0].body@
                                    == error_message(json::opt_view(id), too_large_message()),
                            }
                        },
                    }
                }
        }),
{
    let plan = build_plan(resp, caps);
    let ghost whole = plan;
    match plan.chunk_size {
        Some(size) => {
            let out = send_chunked(reg, addr, pkg, id, resp, plan, size, now);
            assert(plans(
                whole,
                whole.payload@,
                resp.body_bytes@.len(),
                resp.raw,
                chosen_compression(caps_ref(caps), resp.body_bytes@.len()),
                caps_ref(caps),
            ));
            (out, Ok(()))
        },
        None => {
            let mut out: Vec<Outgoing> = Vec::new();
            match send_unchunked(id, resp, &plan) {
                Ok(m) => {
                    out.push(Outgoing { tag: FETCH_TAG, body: m });
                    (out, Ok(()))
                },
                Err(e) => {
                    let m = send_error(id, e.as_str());
                    out.push(Outgoing { tag: FETCH_TAG, body: m });
                    (out, Err(e))
                },
            }
        },
    }
}

// ---------------------------------------------------------------- requests

/// What a fetch request asks for, its defaults filled in.
pub struct RequestPlan {
    pub method: String,
    pub headers: Option<Vec<(String, Json)>>,
    pub body: Option<String>,
    pub raw: bool,
    pub stream_preference: Option<bool>,
    pub follow_redirects: bool,
    pub fixed_chunks: bool,
}

/// Whether a plan is what the options of a request ask for.
pub open spec fn asked_for(options: Option<FetchOptions>, p: RequestPlan) -> bool {
    match options {
        Some(o) => {
            &&& p.method@ == text::uppered(
                match o.method {
                    Some(m) => m@,
                    None => "GET"@,
                },
            )
            &&& p.headers == o.headers
            &&& p.body == o.body
            &&& p.raw == (o.raw == Some(true))
            &&& p.stream_preference == o.stream
            &&& p.follow_redirects == (o.follow_redirects == Some(true))
            &&& p.fixed_chunks == (o.fixed_chunks == Some(true))
        },
        None => {
            &&& p.method@ == text::uppered("GET"@)
            &&& p.headers is None
            &&& p.body is None
            &&& !p.raw
            &&& p.stream_preference is None
            &&& !p.follow_redirects
            &&& !p.fixed_chunks
        },
    }
}

fn or_false(b: Option<bool>) -> (r: bool)
    ensures
        r == (b == Some(true)),
{
    match b {
        Some(v) => v,
        None => false,
    }
}

/// Reads the options of a request.
pub fn plan_request(options: Option<FetchOptions>) -> (p: RequestPlan)
    ensures
        asked_for(options, p),
{
    let o = match options {
        Some(o) => o,
        None => FetchOptions::default(),
    };
    let method = match &o.method {
        Some(m) => text::to_upper(m.as_str()),
        None => text::to_upper("GET"),
    };
    RequestPlan {
        method,
        raw: or_false(o.raw),
        stream_preference: o.stream,
        follow_redirects: or_false(o.follow_redirects),
        fixed_chunks: or_false(o.fixed_chunks),
        headers: o.headers,
        body: o.body,
    }
}

/// Takes a fetch request in: it is counted, and a handshake is started where the
/// peer is not open. What comes back is the handshake message to send first, if
/// any, and what the request asks for.
pub fn handle_request(
    s: &mut PluginState,
    hs: &mut HandshakeState,
    addr: &str,
    pkg: &str,
    req: FetchRequest,
    now_ms: u128,
    now: u64,
) -> (r: (Option<Json>, RequestPlan))
    requires
        old(s).wf(),
        old(hs).wf(),
    ensures
        final(s).wf(),
        final(hs).wf(),
        final(s).same_but_apps(*old(s)),
        final(s).render_tick == state::next_tick(old(s).render_tick),
        final(hs).open_at(handshake::session_key(addr, pkg), now),
        match r.0 {
            Some(m) => !old(hs).open_at(handshake::session_key(addr, pkg), now) && m@
                == handshake::handshake_message(0),
            None => old(hs).open_at(handshake::session_key(addr, pkg), now),
        },
        final(hs).sessions@ == table::still_alive(
            old(hs).sessions@,
            now,
            handshake::SESSION_IDLE_TIMEOUT,
        ).insert(
            handshake::session_key(addr, pkg),
            if r.0 is Some {
                handshake::touched(
                    old(hs).sessions@,
                    handshake::session_key(addr, pkg),
                    Some(true),
                    None,
                    now,
                )
            } else {
                (handshake::Session {
                    open: true,
                    last_seen: now,
                    caps: old(hs).sessions@[handshake::session_key(addr, pkg)].caps,
                })
            },
        ),
        asked_for(req.options, r.1),
        ({
            let e = old(s).app_or_new(pkg@);
            final(s).monitored() == old(s).monitored().insert(
                pkg@,
                state::AppView {
                    request_count: state::counted(e.request_count),
                    last_seen_unix_ms: Some(now_ms),
                    last_addr: Some(addr@),
                    last_url: Some(req.url@),
                    ..e
                },
            )
        }),
        final(s).monitored()[pkg@] == state::requested(
            old(s).app_or_new(pkg@),
            addr@,
            Some(req.url@),
            now_ms,
        ),
        forall|name: Seq<char>|
            name != pkg@ && #[trigger] old(s).monitored().dom().contains(name)
                ==> final(s).monitored()[name] == old(s).monitored()[name],
{
    state::record_request(s, pkg, addr, Some(req.url.as_str()), now_ms);
    let hello = handshake::ensure_open(hs, addr, pkg, now);
    (hello, plan_request(req.options))
}

/// How a response is answered.
pub enum ReplyKind {
    /// As a stream.
    Stream,
    /// Not at all: a stream needs an id, and the request has none.
    NeedsId,
    /// As one body.
    Buffered,
}

/// What a stream without an id is answered.
pub open spec fn needs_id_message() -> Seq<char> {
    "protocol v4 streaming requires a non-empty fetch id"@
}

/// What a request for a stream without an id is answered, and the note on it.
pub fn refuse_stream(id: Option<&str>) -> (r: (Json, String))
    ensures
        r.0@ == error_message(json::opt_view(id), needs_id_message()),
        r.1@ == needs_id_message(),
{
    let message = "protocol v4 streaming requires a non-empty fetch id";
    (send_error(id, message), message.to_owned())
}

/// How a response is answered to a request with an id, where the peer takes streams
/// and the response is to be one.
pub open spec fn reply_kind(id: Option<Seq<char>>, taken: bool, wanted: bool) -> ReplyKind {
    if !taken || !wanted {
        ReplyKind::Buffered
    } else if id is Some && id->0.len() > 0 {
        ReplyKind::Stream
    } else {
        ReplyKind::NeedsId
    }
}

/// Chooses how a response is answered: as a stream only where the peer negotiated
/// it and the response or the caller calls for it.
pub fn choose_reply(
    id: Option<&str>,
    resp: &HttpResponse,
    caps: Option<&NegotiatedCaps>,
    preference: Option<bool>,
) -> (r: ReplyKind)
    ensures
        ({
            let wanted = caps matches Some(c) && c.stream && streams(resp.headers@, preference);
            let has_id = id matches Some(i) && i@.len() > 0;
            match r {
                ReplyKind::Stream => wanted && has_id,
                ReplyKind::NeedsId => wanted && !has_id,
                ReplyKind::Buffered => !wanted,
            }
        }),
        r == reply_kind(
            json::opt_view(id),
            caps is Some && caps->0.stream,
            streams(resp.headers@, preference),
        ),
{
    let negotiated = match caps {
        Some(c) => c.stream,
        None => false,
    };
    if negotiated && should_stream(resp, preference) {
        match id {
            Some(i) => if i.is_empty() {
                ReplyKind::NeedsId
            } else {
                ReplyKind::Stream
            },
            None => ReplyKind::NeedsId,
        }
    } else {
        ReplyKind::Buffered
    }
}

/// Notes how a fetch ended: with an HTTP status, or with a message.
pub fn finish_request(s: &mut PluginState, pkg: &str, outcome: Result<u16, String>)
    requires
        old(s).wf(),
    ensures
        final(s).wf(),
        final(s).same_but_apps(*old(s)),
        final(s).render_tick == state::next_tick(old(s).render_tick),
        ({
            let e = old(s).app_or_new(pkg@);
            final(s).monitored() == old(s).monitored().insert(
                pkg@,
                match outcome {
                    Ok(status) => state::AppView {
                        success_count: state::counted(e.success_count),
                        last_status: Some("HTTP "@ + text::decimal(status as nat)),
                        ..e
                    },
                    Err(m) => state::AppView {
                        error_count: state::counted(e.error_count),
                        last_status: Some(m@),
                        ..e
                    },
                },
            )
        }),
        final(s).monitored()[pkg@] == state::answered(
            old(s).app_or_new(pkg@),
            outcome is Ok,
            Some(
                match outcome {
                    Ok(status) => "HTTP "@ + text::decimal(status as nat),
                    Err(m) => m@,
                },
            ),
        ),
        forall|name: Seq<char>|
            name != pkg@ && #[trigger] old(s).monitored().dom().contains(name)
                ==> final(s).monitored()[name] == old(s).monitored()[name],
{
    match outcome {
        Ok(status) => {
            let n = text::u64_text(status as u64);
            let note = text::cat("HTTP ", n.as_str());
            state::record_result(s, pkg, true, Some(note));
        },
        Err(m) => {
            state::record_result(s, pkg, false, Some(m));
        },
    }
}

// ---------------------------------------------------------------- acknowledgements

/// The cumulative ACK of a frame, zero where it has none.
pub open spec fn ack_of(body: JsonView) -> usize {
    match body.u64_at("ack"@) {
        Some(n) => (n as u64) as usize,
        None => 0,
    }
}

fn ack_value(body: &Json) -> (r: usize)
    ensures
        r == ack_of(body@),
{
    match body.u64_at("ack") {
        Some(n) => n as usize,
        None => 0,
    }
}

/// The sessions after activity of a peer.
pub open spec fn activity_noted(before: HandshakeState, after: HandshakeState, addr: &str, pkg: &str, now: u64) -> bool {
    let k = handshake::session_key(addr, pkg);
    let alive = table::still_alive(before.sessions@, now, handshake::SESSION_IDLE_TIMEOUT);
    after.sessions@ == if alive.dom().contains(k) {
        alive.insert(
            k,
            handshake::Session { open: true, last_seen: now, caps: alive[k].caps },
        )
    } else {
        alive
    }
}

/// The id of a frame as its transfer is keyed.
pub open spec fn frame_key(addr: &str, pkg: &str, body: JsonView) -> table::PeerKey {
    table::PeerKey {
        addr: addr@,
        pkg: pkg@,
        id: match body.str_at("id"@) {
            Some(id) => id,
            None => Seq::empty(),
        },
    }
}

/// Handles a `fetch-ack` frame `{ id?, ack }`: gives the chunk messages that the
/// ACK lets out.
pub fn handle_ack(
    hs: &mut HandshakeState,
    reg: &mut transfer::Registry,
    addr: &str,
    pkg: &str,
    body: &Json,
    now: u64,
) -> (frames: Vec<Json>)
    requires
        old(hs).wf(),
        old(reg).wf(),
    ensures
        final(hs).wf(),
        final(reg).wf(),
        activity_noted(*old(hs), *final(hs), addr, pkg, now),
        ({
            let k = frame_key(addr, pkg, body@);
            let alive = table::still_alive(
                old(reg).transfers@,
                now,
                transfer::TRANSFER_TIMEOUT,
            );
            if alive.dom().contains(k) {
                let (t, from, to) = alive[k].acked(ack_of(body@), now);
                &&& transfer::are_chunk_messages(frames@, t, body@.str_at("id"@), from, to)
                &&& final(reg).transfers@ == if t.delivered() {
                    alive.remove(k)
                } else {
                    alive.insert(k, t)
                }
            } else {
                frames@.len() == 0 && final(reg).transfers@ == alive
            }
        }),
{
    handshake::record_activity(hs, addr, pkg, now);
    let id = body.str_at("id");
    let ack = ack_value(body);
    assert(transfer::transfer_key(addr, pkg, id) == frame_key(addr, pkg, body@));
    transfer::on_ack(reg, addr, pkg, id, ack, now)
}

/// The id of a stream frame, where it has one.
pub open spec fn stream_id(body: JsonView) -> Option<Seq<char>> {
    match body.str_at("id"@) {
        Some(id) => if id.len() > 0 {
            Some(id)
        } else {
            None
        },
        None => None,
    }
}

/// Handles a `fetch-stream-ack` frame: gives the stream with what the ACK
/// changed, and the frames to send again. A frame without an id is ignored.
pub fn handle_stream_ack(
    hs: &mut HandshakeState,
    reg: &mut stream::Registry,
    addr: &str,
    pkg: &str,
    body: &Json,
    now: u64,
) -> (r: Option<(PendingStream, Vec<StreamFrame>)>)
    requires
        old(hs).wf(),
        old(reg).wf(),
    ensures
        final(hs).wf(),
        final(reg).wf(),
        activity_noted(*old(hs), *final(hs), addr, pkg, now),
        stream_id(body@) is None ==> r is None && *final(reg) == *old(reg),
        stream_id(body@) matches Some(id) ==> {
            let k = table::PeerKey { addr: addr@, pkg: pkg@, id };
            let alive = table::still_alive(old(reg).streams@, now, stream::STREAM_TIMEOUT);
            match r {
                Some((s, sends)) => {
                    &&& alive.dom().contains(k)
                    &&& final(reg).streams@ == alive.remove(k)
                    &&& stream::may_keep(final(reg).streams@, k)
                    &&& s@ == alive[k]@.acked(ack_of(body@), now)
                    &&& s@.wf()
                    &&& stream::frames_view(sends@) == if alive[k]@.replays(ack_of(body@)) {
                        alive[k]@.unacked
                    } else {
                        Seq::empty()
                    }
                },
                None => !alive.dom().contains(k) && final(reg).streams@ == alive,
            }
        },
{
    handshake::record_activity(hs, addr, pkg, now);
    let ack = ack_value(body);
    match body.str_at("id") {
        Some(id) => if id.is_empty() {
            None
        } else {
            stream::on_ack(reg, addr, pkg, id, ack, now)
        },
        None => None,
    }
}

/// Handles a `fetch-stream-cancel` frame. Says whether a stream was dropped.
pub fn handle_stream_cancel(
    hs: &mut HandshakeState,
    reg: &mut stream::Registry,
    addr: &str,
    pkg: &str,
    body: &Json,
    now: u64,
) -> (r: bool)
    requires
        old(hs).wf(),
        old(reg).wf(),
    ensures
        final(hs).wf(),
        final(reg).wf(),
        activity_noted(*old(hs), *final(hs), addr, pkg, now),
        stream_id(body@) is None ==> !r && *final(reg) == *old(reg),
        stream_id(body@) matches Some(id) ==> {
            let k = table::PeerKey { addr: addr@, pkg: pkg@, id };
            r == old(reg).streams@.dom().contains(k) && final(reg).streams@
                == old(reg).streams@.remove(k)
        },
{
    handshake::record_activity(hs, addr, pkg, now);
    match body.str_at("id") {
        Some(id) => if id.is_empty() {
            false
        } else {
            stream::cancel(reg, addr, pkg, id)
        },
        None => false,
    }
}

// ---------------------------------------------------------------- laws of responses

/// No more than the limit goes out in one message: a longer body is chunked where
/// the peer takes chunks, and refused otherwise.
pub proof fn chunked_payloads_exceed_the_chunk(plan: TransferPlan, payload: Seq<u8>, n: nat, raw: bool, c: Compression, caps: CapsView)
    requires
        plans(plan, payload, n, raw, c, Some(caps)),
    ensures
        plan.chunk_size is Some <==> caps.chunked && payload.len() > caps.chunk_size,
        plan.chunk_size is Some ==> plan.encoding != BodyEncoding::Text,
{
    lemma_usable_is_binary(caps.encodings);
}

proof fn lemma_usable_is_binary(encodings: Seq<BodyEncoding>)
    ensures
        first_usable(encodings, false) != BodyEncoding::Text,
    decreases encodings.len(),
{
    if encodings.len() > 0 {
        lemma_usable_is_binary(encodings.drop_first());
    }
}

/// A peer that advertised nothing gets plain text or base64, uncompressed and in
/// one piece.
pub proof fn unknown_peer_gets_the_baseline(plan: TransferPlan, payload: Seq<u8>, n: nat, raw: bool, body_len: nat)
    requires
        plans(plan, payload, n, raw, chosen_compression(None, body_len), None),
    ensures
        plan.compression == Compression::Plain,
        plan.chunk_size is None,
        plan.encoding == if !raw && valid_utf8(payload) {
            BodyEncoding::Text
        } else {
            BodyEncoding::Base64
        },
{
}

/// The payload of a text response is carried as it is: what the encoding needs
/// holds whenever text is chosen.
pub proof fn text_is_chosen_only_for_text(caps: Option<CapsView>, payload: Seq<u8>, raw: bool, will_chunk: bool, c: Compression)
    requires
        chosen_encoding(caps, payload, raw, will_chunk, c) == BodyEncoding::Text,
    ensures
        valid_utf8(payload),
        !raw,
        !will_chunk,
        c == Compression::Plain,
        codec::encoded(payload, BodyEncoding::Text) is Some,
{
    if caps is Some {
        lemma_usable_is_binary(caps->0.encodings);
    }
}

proof fn lemma_response_keys()
    ensures
        "ok"@ != "status"@,
        "ok"@ != "statusText"@,
        "ok"@ != "headers"@,
        "ok"@ != "body"@,
        "ok"@ != "raw"@,
        "ok"@ != "bodyEncoding"@,
        "ok"@ != "compression"@,
        "ok"@ != "originalBytes"@,
        "ok"@ != "chunked"@,
        "ok"@ != "totalBytes"@,
        "ok"@ != "chunkSize"@,
        "ok"@ != "chunkCount"@,
        "ok"@ != "ack"@,
        "ok"@ != "stream"@,
        "ok"@ != "checksum"@,
        "ok"@ != "fixedChunks"@,
        "ok"@ != "contentLength"@,
        "status"@ != "statusText"@,
        "status"@ != "headers"@,
        "status"@ != "body"@,
        "status"@ != "raw"@,
        "status"@ != "bodyEncoding"@,
        "status"@ != "compression"@,
        "status"@ != "originalBytes"@,
        "status"@ != "chunked"@,
        "status"@ != "totalBytes"@,
        "status"@ != "chunkSize"@,
        "status"@ != "chunkCount"@,
        "status"@ != "ack"@,
        "status"@ != "stream"@,
        "status"@ != "checksum"@,
        "status"@ != "fixedChunks"@,
        "status"@ != "contentLength"@,
        "statusText"@ != "headers"@,
        "statusText"@ != "body"@,
        "statusText"@ != "raw"@,
        "statusText"@ != "bodyEncoding"@,
        "statusText"@ != "compression"@,
        "statusText"@ != "originalBytes"@,
        "statusText"@ != "chunked"@,
        "statusText"@ != "totalBytes"@,
        "statusText"@ != "chunkSize"@,
        "statusText"@ != "chunkCount"@,
        "statusText"@ != "ack"@,
        "statusText"@ != "stream"@,
        "statusText"@ != "checksum"@,
        "statusText"@ != "fixedChunks"@,
        "statusText"@ != "contentLength"@,
        "headers"@ != "body"@,
        "headers"@ != "raw"@,
        "headers"@ != "bodyEncoding"@,
        "headers"@ != "compression"@,
        "headers"@ != "originalBytes"@,
        "headers"@ != "chunked"@,
        "headers"@ != "totalBytes"@,
        "headers"@ != "chunkSize"@,
        "headers"@ != "chunkCount"@,
        "headers"@ != "ack"@,
        "headers"@ != "stream"@,
        "headers"@ != "checksum"@,
        "headers"@ != "fixedChunks"@,
        "headers"@ != "contentLength"@,
        "body"@ != "raw"@,
        "body"@ != "bodyEncoding"@,
        "body"@ != "compression"@,
        "body"@ != "originalBytes"@,
        "body"@ != "chunked"@,
        "body"@ != "totalBytes"@,
        "body"@ != "chunkSize"@,
        "body"@ != "chunkCount"@,
        "body"@ != "ack"@,
        "body"@ != "stream"@,
        "body"@ != "checksum"@,
        "body"@ != "fixedChunks"@,
        "body"@ != "contentLength"@,
        "raw"@ != "bodyEncoding"@,
        "raw"@ != "compression"@,
        "raw"@ != "originalBytes"@,
        "raw"@ != "chunked"@,
        "raw"@ != "totalBytes"@,
        "raw"@ != "chunkSize"@,
        "raw"@ != "chunkCount"@,
        "raw"@ != "ack"@,
        "raw"@ != "stream"@,
        "raw"@ != "checksum"@,
        "raw"@ != "fixedChunks"@,
        "raw"@ != "contentLength"@,
        "bodyEncoding"@ != "compression"@,
        "bodyEncoding"@ != "originalBytes"@,
        "bodyEncoding"@ != "chunked"@,
        "bodyEncoding"@ != "totalBytes"@,
        "bodyEncoding"@ != "chunkSize"@,
        "bodyEncoding"@ != "chunkCount"@,
        "bodyEncoding"@ != "ack"@,
        "bodyEncoding"@ != "stream"@,
        "bodyEncoding"@ != "checksum"@,
        "bodyEncoding"@ != "fixedChunks"@,
        "bodyEncoding"@ != "contentLength"@,
        "compression"@ != "originalBytes"@,
        "compression"@ != "chunked"@,
        "compression"@ != "totalBytes"@,
        "compression"@ != "chunkSize"@,
        "compression"@ != "chunkCount"@,
        "compression"@ != "ack"@,
        "compression"@ != "stream"@,
        "compression"@ != "checksum"@,
        "compression"@ != "fixedChunks"@,
        "compression"@ != "contentLength"@,
        "originalBytes"@ != "chunked"@,
        "originalBytes"@ != "totalBytes"@,
        "originalBytes"@ != "chunkSize"@,
        "originalBytes"@ != "chunkCount"@,
        "originalBytes"@ != "ack"@,
        "originalBytes"@ != "stream"@,
        "originalBytes"@ != "checksum"@,
        "originalBytes"@ != "fixedChunks"@,
        "originalBytes"@ != "contentLength"@,
        "chunked"@ != "totalBytes"@,
        "chunked"@ != "chunkSize"@,
        "chunked"@ != "chunkCount"@,
        "chunked"@ != "ack"@,
        "chunked"@ != "stream"@,
        "chunked"@ != "checksum"@,
        "chunked"@ != "fixedChunks"@,
        "chunked"@ != "contentLength"@,
        "totalBytes"@ != "chunkSize"@,
        "totalBytes"@ != "chunkCount"@,
        "totalBytes"@ != "ack"@,
        "totalBytes"@ != "stream"@,
        "totalBytes"@ != "checksum"@,
        "totalBytes"@ != "fixedChunks"@,
        "totalBytes"@ != "contentLength"@,
        "chunkSize"@ != "chunkCount"@,
        "chunkSize"@ != "ack"@,
        "chunkSize"@ != "stream"@,
        "chunkSize"@ != "checksum"@,
        "chunkSize"@ != "fixedChunks"@,
        "chunkSize"@ != "contentLength"@,
        "chunkCount"@ != "ack"@,
        "chunkCount"@ != "stream"@,
        "chunkCount"@ != "checksum"@,
        "chunkCount"@ != "fixedChunks"@,
        "chunkCount"@ != "contentLength"@,
        "ack"@ != "stream"@,
        "ack"@ != "checksum"@,
        "ack"@ != "fixedChunks"@,
        "ack"@ != "contentLength"@,
        "stream"@ != "checksum"@,
        "stream"@ != "fixedChunks"@,
        "stream"@ != "contentLength"@,
        "checksum"@ != "fixedChunks"@,
        "checksum"@ != "contentLength"@,
        "fixedChunks"@ != "contentLength"@,
{
    reveal_strlit("ok");
    reveal_strlit("status");
    reveal_strlit("statusText");
    reveal_strlit("headers");
    reveal_strlit("body");
    reveal_strlit("raw");
    reveal_strlit("bodyEncoding");
    reveal_strlit("compression");
    reveal_strlit("originalBytes");
    reveal_strlit("chunked");
    reveal_strlit("totalBytes");
    reveal_strlit("chunkSize");
    reveal_strlit("chunkCount");
    reveal_strlit("ack");
    reveal_strlit("stream");
    reveal_strlit("checksum");
    reveal_strlit("fixedChunks");
    reveal_strlit("contentLength");
    assert("ok"@.len() != "status"@.len());
    assert("ok"@.len() != "statusText"@.len());
    assert("ok"@.len() != "headers"@.len());
    assert("ok"@.len() != "body"@.len());
    assert("ok"@.len() != "raw"@.len());
    assert("ok"@.len() != "bodyEncoding"@.len());
    assert("ok"@.len() != "compression"@.len());
    assert("ok"@.len() != "originalBytes"@.len());
    assert("ok"@.len() != "chunked"@.len());
    assert("ok"@.len() != "totalBytes"@.len());
    assert("ok"@.len() != "chunkSize"@.len());
    assert("ok"@.len() != "chunkCount"@.len());
    assert("ok"@.len() != "ack"@.len());
    assert("ok"@.len() != "stream"@.len());
    assert("ok"@.len() != "checksum"@.len());
    assert("ok"@.len() != "fixedChunks"@.len());
    assert("ok"@.len() != "contentLength"@.len());
    assert("status"@.len() != "statusText"@.len());
    assert("status"@.len() != "headers"@.len());
    assert("status"@.len() != "body"@.len());
    assert("status"@.len() != "raw"@.len());
    assert("status"@.len() != "bodyEncoding"@.len());
    assert("status"@.len() != "compression"@.len());
    assert("status"@.len() != "originalBytes"@.len());
    assert("status"@.len() != "chunked"@.len());
    assert("status"@.len() != "totalBytes"@.len());
    assert("status"@.len() != "chunkSize"@.len());
    assert("status"@.len() != "chunkCount"@.len());
    assert("status"@.len() != "ack"@.len());
    assert("status"@[2] != "stream"@[2]);
    assert("status"@.len() != "checksum"@.len());
    assert("status"@.len() != "fixedChunks"@.len());
    assert("status"@.len() != "contentLength"@.len());
    assert("statusText"@.len() != "headers"@.len());
    assert("statusText"@.len() != "body"@.len());
    assert("statusText"@.len() != "raw"@.len());
    assert("statusText"@.len() != "bodyEncoding"@.len());
    assert("statusText"@.len() != "compression"@.len());
    assert("statusText"@.len() != "originalBytes"@.len());
    assert("statusText"@.len() != "chunked"@.len());
    assert("statusText"@[0] != "totalBytes"@[0]);
    assert("statusText"@.len() != "chunkSize"@.len());
    assert("statusText"@[0] != "chunkCount"@[0]);
    assert("statusText"@.len() != "ack"@.len());
    assert("statusText"@.len() != "stream"@.len());
    assert("statusText"@.len() != "checksum"@.len());
    assert("statusText"@.len() != "fixedChunks"@.len());
    assert("statusText"@.len() != "contentLength"@.len());
    assert("headers"@.len() != "body"@.len());
    assert("headers"@.len() != "raw"@.len());
    assert("headers"@.len() != "bodyEncoding"@.len());
    assert("headers"@.len() != "compression"@.len());
    assert("headers"@.len() != "originalBytes"@.len());
    assert("headers"@[0] != "chunked"@[0]);
    assert("headers"@.len() != "totalBytes"@.len());
    assert("headers"@.len() != "chunkSize"@.len());
    assert("headers"@.len() != "chunkCount"@.len());
    assert("headers"@.len() != "ack"@.len());
    assert("headers"@.len() != "stream"@.len());
    assert("headers"@.len() != "checksum"@.len());
    assert("headers"@.len() != "fixedChunks"@.len());
    assert("headers"@.len() != "contentLength"@.len());
    assert("body"@.len() != "raw"@.len());
    assert("body"@.len() != "bodyEncoding"@.len());
    assert("body"@.len() != "compression"@.len());
    assert("body"@.len() != "originalBytes"@.len());
    assert("body"@.len() != "chunked"@.len());
    assert("body"@.len() != "totalBytes"@.len());
    assert("body"@.len() != "chunkSize"@.len());
    assert("body"@.len() != "chunkCount"@.len());
    assert("body"@.len() != "ack"@.len());
    assert("body"@.len() != "stream"@.len());
    assert("body"@.len() != "checksum"@.len());
    assert("body"@.len() != "fixedChunks"@.len());
    assert("body"@.len() != "contentLength"@.len());
    assert("raw"@.len() != "bodyEncoding"@.len());
    assert("raw"@.len() != "compression"@.len());
    assert("raw"@.len() != "originalBytes"@.len());
    assert("raw"@.len() != "chunked"@.len());
    assert("raw"@.len() != "totalBytes"@.len());
    assert("raw"@.len() != "chunkSize"@.len());
    assert("raw"@.len() != "chunkCount"@.len());
    assert("raw"@[0] != "ack"@[0]);
    assert("raw"@.len() != "stream"@.len());
    assert("raw"@.len() != "checksum"@.len());
    assert("raw"@.len() != "fixedChunks"@.len());
    assert("raw"@.len() != "contentLength"@.len());
    assert("bodyEncoding"@.len() != "compression"@.len());
    assert("bodyEncoding"@.len() != "originalBytes"@.len());
    assert("bodyEncoding"@.len() != "chunked"@.len());
    assert("bodyEncoding"@.len() != "totalBytes"@.len());
    assert("bodyEncoding"@.len() != "chunkSize"@.len());
    assert("bodyEncoding"@.len() != "chunkCount"@.len());
    assert("bodyEncoding"@.len() != "ack"@.len());
    assert("bodyEncoding"@.len() != "stream"@.len());
    assert("bodyEncoding"@.len() != "checksum"@.len());
    assert("bodyEncoding"@.len() != "fixedChunks"@.len());
    assert("bodyEncoding"@.len() != "contentLength"@.len());
    assert("compression"@.len() != "originalBytes"@.len());
    assert("compression"@.len() != "chunked"@.len());
    assert("compression"@.len() != "totalBytes"@.len());
    assert("compression"@.len() != "chunkSize"@.len());
    assert("compression"@.len() != "chunkCount"@.len());
    assert("compression"@.len() != "ack"@.len());
    assert("compression"@.len() != "stream"@.len());
    assert("compression"@.len() != "checksum"@.len());
    assert("compression"@[0] != "fixedChunks"@[0]);
    assert("compression"@.len() != "contentLength"@.len());
    assert("originalBytes"@.len() != "chunked"@.len());
    assert("originalBytes"@.len() != "totalBytes"@.len());
    assert("originalBytes"@.len() != "chunkSize"@.len());
    assert("originalBytes"@.len() != "chunkCount"@.len());
    assert("originalBytes"@.len() != "ack"@.len());
    assert("originalBytes"@.len() != "stream"@.len());
    assert("originalBytes"@.len() != "checksum"@.len());
    assert("originalBytes"@.len() != "fixedChunks"@.len());
    assert("originalBytes"@[0] != "contentLength"@[0]);
    assert("chunked"@.len() != "totalBytes"@.len());
    assert("chunked"@.len() != "chunkSize"@.len());
    assert("chunked"@.len() != "chunkCount"@.len());
    assert("chunked"@.len() != "ack"@.len());
    assert("chunked"@.len() != "stream"@.len());
    assert("chunked"@.len() != "checksum"@.len());
    assert("chunked"@.len() != "fixedChunks"@.len());
    assert("chunked"@.len() != "contentLength"@.len());
    assert("totalBytes"@.len() != "chunkSize"@.len());
    assert("totalBytes"@[0] != "chunkCount"@[0]);
    assert("totalBytes"@.len() != "ack"@.len());
    assert("totalBytes"@.len() != "stream"@.len());
    assert("totalBytes"@.len() != "checksum"@.len());
    assert("totalBytes"@.len() != "fixedChunks"@.len());
    assert("totalBytes"@.len() != "contentLength"@.len());
    assert("chunkSize"@.len() != "chunkCount"@.len());
    assert("chunkSize"@.len() != "ack"@.len());
    assert("chunkSize"@.len() != "stream"@.len());
    assert("chunkSize"@.len() != "checksum"@.len());
    assert("chunkSize"@.len() != "fixedChunks"@.len());
    assert("chunkSize"@.len() != "contentLength"@.len());
    assert("chunkCount"@.len() != "ack"@.len());
    assert("chunkCount"@.len() != "stream"@.len());
    assert("chunkCount"@.len() != "checksum"@.len());
    assert("chunkCount"@.len() != "fixedChunks"@.len());
    assert("chunkCount"@.len() != "contentLength"@.len());
    assert("ack"@.len() != "stream"@.len());
    assert("ack"@.len() != "checksum"@.len());
    assert("ack"@.len() != "fixedChunks"@.len());
    assert("ack"@.len() != "contentLength"@.len());
    assert("stream"@.len() != "checksum"@.len());
    assert("stream"@.len() != "fixedChunks"@.len());
    assert("stream"@.len() != "contentLength"@.len());
    assert("checksum"@.len() != "fixedChunks"@.len());
    assert("checksum"@.len() != "contentLength"@.len());
    assert("fixedChunks"@.len() != "contentLength"@.len());
}

proof fn lemma_frame_keys()
    ensures
        "resp"@ != "id"@,
{
    reveal_strlit("resp");
    reveal_strlit("id");
    assert("resp"@.len() != "id"@.len());
}

/// The response that a message holds.
pub open spec fn response_in(m: JsonView) -> JsonView {
    m.get("resp"@)->0
}

/// Whether a response message tells how a request went: its status is the one
/// that the server gave, whether that was a success or not.
pub open spec fn tells(
    m: JsonView,
    id: Option<Seq<char>>,
    ok: bool,
    status: u16,
    phrase: Seq<char>,
    headers: Map<Seq<char>, JsonView>,
) -> bool {
    let r = response_in(m);
    &&& m.get("resp"@) is Some
    &&& m.str_at("id"@) == id
    &&& r.u64_at("status"@) == Some(status as nat)
    &&& r.bool_at("ok"@) == Some(ok)
    &&& r.str_at("statusText"@) == Some(phrase)
    &&& r.get("headers"@) == Some(JsonView::Object(headers))
}

proof fn lemma_fields_tell(
    id: Option<Seq<char>>,
    fields: Map<Seq<char>, JsonView>,
    m: Map<Seq<char>, JsonView>,
    ok: bool,
    status: u16,
    phrase: Seq<char>,
    headers: Map<Seq<char>, JsonView>,
    body: Seq<char>,
    raw: bool,
)
    requires
        fields == response_fields(ok, status as nat, phrase, headers, body, raw),
        forall|k: Seq<char>| #[trigger]
            fields.dom().contains(k) ==> m.dom().contains(k) && m[k] == fields[k],
    ensures
        tells(with_id(id, "resp"@, JsonView::Object(m)), id, ok, status, phrase, headers),
        response_in(with_id(id, "resp"@, JsonView::Object(m))).str_at("body"@) == Some(body),
        response_in(with_id(id, "resp"@, JsonView::Object(m))).bool_at("raw"@) == Some(raw),
        response_in(with_id(id, "resp"@, JsonView::Object(m))) == JsonView::Object(m),
{
    lemma_response_keys();
    lemma_frame_keys();
    assert(fields.dom().contains("ok"@));
    assert(fields.dom().contains("status"@));
    assert(fields.dom().contains("statusText"@));
    assert(fields.dom().contains("headers"@));
    assert(fields.dom().contains("body"@));
    assert(fields.dom().contains("raw"@));
}

/// A response in one message tells the status of the server and carries the body:
/// in the encoding that it names, or, where it names none, as text or, if raw, in
/// base64; a compressed body says so, and how long it was before.
pub proof fn whole_messages_tell_the_response(
    id: Option<Seq<char>>,
    resp: FetchResponse,
    plan: TransferPlan,
)
    ensures
        ({
            let m = whole_message(id, resp, plan);
            let r = response_in(m);
            let enc = match r.str_at("bodyEncoding"@) {
                Some(name) => name,
                None => if resp.raw {
                    "base64"@
                } else {
                    "text"@
                },
            };
            &&& tells(m, id, resp.ok, resp.status, resp.status_text@, resp.headers@)
            &&& r.bool_at("raw"@) == Some(resp.raw)
            &&& enc == plan.encoding.name()
            &&& r.str_at("body"@) is Some
            &&& codec::encoded(plan.payload@, plan.encoding) is Some ==> codec::decoded(
                r.str_at("body"@)->0,
                plan.encoding,
            ) == plan.payload@
            &&& r.str_at("compression"@) == if plan.compression == Compression::Plain {
                None
            } else {
                Some(plan.compression.name())
            }
            &&& plan.compression != Compression::Plain ==> r.u64_at("originalBytes"@) == Some(
                plan.original_bytes as nat,
            )
            &&& r.bool_at("chunked"@) is None && r.bool_at("stream"@) is None
        }),
{
    lemma_response_keys();
    let body = codec::encoded_or_base64(plan.payload@, plan.encoding);
    let fields = response_fields(
        resp.ok,
        resp.status as nat,
        resp.status_text@,
        resp.headers@,
        body,
        resp.raw,
    );
    let m1 = if plan.encoding != unmarked_encoding(resp.raw) {
        fields.insert("bodyEncoding"@, JsonView::Str(plan.encoding.name()))
    } else {
        fields
    };
    let m2 = if plan.compression != Compression::Plain {
        m1.insert("compression"@, JsonView::Str(plan.compression.name())).insert(
            "originalBytes"@,
            JsonView::UInt(plan.original_bytes as nat),
        )
    } else {
        m1
    };
    lemma_fields_tell(
        id,
        fields,
        m2,
        resp.ok,
        resp.status,
        resp.status_text@,
        resp.headers@,
        body,
        resp.raw,
    );
    if codec::encoded(plan.payload@, plan.encoding) is Some {
        codec::encoded_bodies_are_read_back(plan.payload@, plan.encoding);
    }
}

/// The message that announces chunks tells the status of the server, and how many
/// bytes and chunks follow.
pub proof fn chunked_headers_tell_the_response(
    id: Option<Seq<char>>,
    resp: FetchResponse,
    plan: TransferPlan,
    size: nat,
)
    requires
        size > 0,
    ensures
        ({
            let m = chunked_header(id, resp, plan, size);
            let r = response_in(m);
            &&& tells(m, id, resp.ok, resp.status, resp.status_text@, resp.headers@)
            &&& r.bool_at("raw"@) == Some(resp.raw)
            &&& r.bool_at("chunked"@) == Some(true)
            &&& r.u64_at("totalBytes"@) == Some(plan.payload@.len())
            &&& r.u64_at("chunkSize"@) == Some(size)
            &&& r.u64_at("chunkCount"@) matches Some(n) && (n * size >= plan.payload@.len() && (n > 0
                ==> (n - 1) * size < plan.payload@.len()))
            &&& r.str_at("bodyEncoding"@) == Some(plan.encoding.name())
            &&& r.str_at("compression"@) == if plan.compression == Compression::Plain {
                None
            } else {
                Some(plan.compression.name())
            }
            &&& plan.compression != Compression::Plain ==> r.u64_at("originalBytes"@) == Some(
                plan.original_bytes as nat,
            )
            &&& r.bool_at("ack"@) == if plan.ack_window > 0 {
                Some(true)
            } else {
                None
            }
        }),
{
    lemma_response_keys();
    let len = plan.payload@.len();
    transfer::chunk_counts_are_least(len, size);
    let body = Seq::<char>::empty();
    let fields = response_fields(
        resp.ok,
        resp.status as nat,
        resp.status_text@,
        resp.headers@,
        body,
        resp.raw,
    );
    let m1 = fields.insert("chunked"@, JsonView::Bool(true)).insert(
        "totalBytes"@,
        JsonView::UInt(len),
    ).insert("chunkSize"@, JsonView::UInt(size)).insert(
        "chunkCount"@,
        JsonView::UInt(transfer::chunk_count_of(len, size)),
    ).insert("bodyEncoding"@, JsonView::Str(plan.encoding.name()));
    let m2 = if plan.compression != Compression::Plain {
        m1.insert("compression"@, JsonView::Str(plan.compression.name())).insert(
            "originalBytes"@,
            JsonView::UInt(plan.original_bytes as nat),
        )
    } else {
        m1
    };
    let m3 = if plan.ack_window > 0 {
        m2.insert("ack"@, JsonView::Bool(true))
    } else {
        m2
    };
    lemma_fields_tell(
        id,
        fields,
        m3,
        resp.ok,
        resp.status,
        resp.status_text@,
        resp.headers@,
        body,
        resp.raw,
    );
}

/// The message that announces a stream tells the status of the server, the size
/// and the encoding of the frames, and the length of the body where the server
/// named it.
pub proof fn stream_headers_tell_the_response(
    id: Seq<char>,
    resp: HttpResponse,
    caps: CapsView,
    fixed: bool,
)
    ensures
        ({
            let m = stream_header(id, resp, caps, fixed);
            let r = response_in(m);
            &&& tells(m, Some(id), resp.ok, resp.status, resp.status_text@, resp.headers@)
            &&& r.bool_at("stream"@) == Some(true)
            &&& r.bool_at("ack"@) == Some(true)
            &&& r.u64_at("chunkSize"@) == Some(caps.chunk_size)
            &&& r.str_at("bodyEncoding"@) == Some(first_binary(caps.encodings).name())
            &&& r.str_at("compression"@) == Some("none"@)
            &&& r.str_at("checksum"@) == Some("crc32"@)
            &&& r.bool_at("fixedChunks"@) == if fixed {
                Some(true)
            } else {
                None
            }
            &&& r.u64_at("contentLength"@) == announced_length(resp.headers@)
            &&& resp.raw_requested ==> r.bool_at("raw"@) == Some(true)
        }),
{
    lemma_response_keys();
    let body = Seq::<char>::empty();
    let raw = streams_raw(resp.headers@, resp.raw_requested);
    let fields = response_fields(
        resp.ok,
        resp.status as nat,
        resp.status_text@,
        resp.headers@,
        body,
        raw,
    );
    let m1 = fields.insert("stream"@, JsonView::Bool(true)).insert(
        "chunkSize"@,
        JsonView::UInt(caps.chunk_size),
    ).insert("bodyEncoding"@, JsonView::Str(first_binary(caps.encodings).name())).insert(
        "compression"@,
        JsonView::Str("none"@),
    ).insert("ack"@, JsonView::Bool(true)).insert("checksum"@, JsonView::Str("crc32"@));
    let m2 = if fixed {
        m1.insert("fixedChunks"@, JsonView::Bool(true))
    } else {
        m1
    };
    let m3 = match announced_length(resp.headers@) {
        Some(n) => m2.insert("contentLength"@, JsonView::UInt(n)),
        None => m2,
    };
    lemma_fields_tell(
        Some(id),
        fields,
        m3,
        resp.ok,
        resp.status,
        resp.status_text@,
        resp.headers@,
        body,
        raw,
    );
}

/// Responses with different statuses are never told by the same message.
pub proof fn statuses_are_told_apart(
    id: Option<Seq<char>>,
    a: FetchResponse,
    b: FetchResponse,
    plan: TransferPlan,
    size: nat,
)
    requires
        a.status != b.status,
        size > 0,
    ensures
        whole_message(id, a, plan) != whole_message(id, b, plan),
        chunked_header(id, a, plan, size) != chunked_header(id, b, plan, size),
        whole_message(id, a, plan) != error_message(id, a.status_text@) || a.status == 0,
{
    whole_messages_tell_the_response(id, a, plan);
    whole_messages_tell_the_response(id, b, plan);
    chunked_headers_tell_the_response(id, a, plan, size);
    chunked_headers_tell_the_response(id, b, plan, size);
    errors_tell_their_reason(id, a.status_text@);
}

/// A fetch that failed is told as a response that is no success and has no status,
/// with the reason in its place.
pub proof fn errors_tell_their_reason(id: Option<Seq<char>>, message: Seq<char>)
    ensures
        tells(error_message(id, message), id, false, 0, message, Map::empty()),
{
    let fields = response_fields(false, 0, message, Map::empty(), Seq::empty(), false);
    lemma_fields_tell(
        id,
        fields,
        fields,
        false,
        0,
        message,
        Map::empty(),
        Seq::empty(),
        false,
    );
}

/// Headers reach the peer under their names; of several with one name the last
/// one counts, and no others are made up.
pub proof fn headers_are_handed_on(h: Seq<(String, Option<String>)>, i: int, name: Seq<char>)
    requires
        0 <= i < h.len(),
        forall|j: int| i < j < h.len() ==> (#[trigger] h[j]).0@ != h[i].0@,
        forall|j: int| 0 <= j < h.len() ==> (#[trigger] h[j]).0@ != name,
    ensures
        JsonView::Object(header_object(h)).str_at(h[i].0@) == Some(
            match h[i].1 {
                Some(v) => v@,
                None => Seq::empty(),
            },
        ),
        JsonView::Object(header_object(h)).get(name) is None,
    decreases h.len(),
{
    lemma_no_header(h, name);
    if i < h.len() - 1 {
        let rest = h.drop_last();
        assert forall|j: int| i < j < rest.len() implies (#[trigger] rest[j]).0@ != rest[i].0@ by {
            assert(rest[j] == h[j]);
        }
        assert forall|j: int| 0 <= j < rest.len() implies (#[trigger] rest[j]).0@ != name by {
            assert(rest[j] == h[j]);
        }
        headers_are_handed_on(rest, i, name);
        assert(h[h.len() - 1].0@ != h[i].0@);
    }
}

proof fn lemma_no_header(h: Seq<(String, Option<String>)>, name: Seq<char>)
    requires
        forall|j: int| 0 <= j < h.len() ==> (#[trigger] h[j]).0@ != name,
    ensures
        !header_object(h).dom().contains(name),
    decreases h.len(),
{
    if h.len() > 0 {
        let rest = h.drop_last();
        assert forall|j: int| 0 <= j < rest.len() implies (#[trigger] rest[j]).0@ != name by {
            assert(rest[j] == h[j]);
        }
        lemma_no_header(rest, name);
        assert(h[h.len() - 1].0@ != name);
    }
}

/// What the caller asks for decides whether a response is streamed; where the
/// caller says nothing, sound, pictures in motion and bodies of sixty-four
/// kibibytes and more are, and nothing else.
pub proof fn large_media_are_streamed(h: Map<Seq<char>, JsonView>, wish: bool)
    ensures
        streams(h, Some(wish)) == wish,
        streams(h, None) <==> {
            ||| text::begins_with(media_type(h), "audio/"@)
            ||| text::begins_with(media_type(h), "video/"@)
            ||| announced_length(h) is Some && announced_length(h)->0 >= 65536
        },
        JsonView::Object(h).str_at("content-type"@) is None ==> media_type(h).len() == 0,
        JsonView::Object(h).str_at("content-length"@) is None ==> announced_length(h) is None,
{
}

/// The first encoding of the peer that can be used is taken: none before it can
/// be, and where none can be at all it is base64.
pub proof fn preferred_encodings_are_taken(list: Seq<BodyEncoding>, i: int, viable: bool)
    requires
        0 <= i < list.len(),
        list[i] != BodyEncoding::Text || viable,
        forall|j: int| 0 <= j < i ==> #[trigger] list[j] == BodyEncoding::Text && !viable,
    ensures
        first_usable(list, viable) == list[i],
        list[i] != BodyEncoding::Text && (forall|j: int|
            0 <= j < i ==> #[trigger] list[j] == BodyEncoding::Text) ==> first_binary(list)
            == list[i],
    decreases list.len(),
{
    if i > 0 {
        assert(list[0] == BodyEncoding::Text && !viable);
        let rest = list.drop_first();
        assert forall|j: int| 0 <= j < i - 1 implies #[trigger] rest[j] == BodyEncoding::Text
            && !viable by {
            assert(rest[j] == list[j + 1]);
        }
        preferred_encodings_are_taken(rest, i - 1, viable);
    }
}

/// Without an encoding that can be used, base64 is.
pub proof fn base64_is_the_last_resort(list: Seq<BodyEncoding>)
    requires
        forall|j: int| 0 <= j < list.len() ==> #[trigger] list[j] == BodyEncoding::Text,
    ensures
        first_binary(list) == BodyEncoding::Base64,
        first_usable(list, false) == BodyEncoding::Base64,
    decreases list.len(),
{
    if list.len() > 0 {
        assert(list[0] == BodyEncoding::Text);
        let rest = list.drop_first();
        assert forall|j: int| 0 <= j < rest.len() implies #[trigger] rest[j]
            == BodyEncoding::Text by {
            assert(rest[j] == list[j + 1]);
        }
        base64_is_the_last_resort(rest);
    }
}

/// A body is compressed the way the peer likes best, and never where the peer
/// named no way or the body is short.
pub proof fn compression_follows_the_peer(caps: Option<CapsView>, len: nat)
    ensures
        caps is None ==> chosen_compression(caps, len) == Compression::Plain,
        len < 256 ==> chosen_compression(caps, len) == Compression::Plain,
        caps matches Some(c) ==> c.compressions.len() > 0 && len >= 256
            ==> chosen_compression(caps, len) == c.compressions[0],
        caps matches Some(c) ==> c.compressions.len() == 0 ==> chosen_compression(caps, len)
            == Compression::Plain,
{
}

/// A redirect leads to its target with one redirect more counted; where it turns
/// the request into a GET, the body and the headers about it go, and otherwise
/// the method and the body stay.
pub proof fn redirects_lead_to_their_target(r: RequestView, status: u16, next: UrlView)
    ensures
        ({
            let n = r.redirected(status, next);
            &&& n.url == next
            &&& n.redirect_count == r.redirect_count + 1
            &&& n.method == r.method || n.method == "GET"@
            &&& n.body is Some ==> n.body == r.body && n.method == r.method
            &&& text::lowered(r.method) == text::lowered("HEAD"@) && text::lowered("HEAD"@)
                != text::lowered("POST"@) ==> n.method == r.method
            &&& status == 303 && text::lowered(r.method) != text::lowered("HEAD"@) ==> n.method
                == "GET"@ && n.body is None
            &&& (status == 301 || status == 302) && text::lowered(r.method) == text::lowered(
                "POST"@,
            ) ==> n.method == "GET"@ && n.body is None
            &&& (status == 301 || status == 302) && text::lowered(r.method) != text::lowered(
                "POST"@,
            ) ==> n.method == r.method && n.body == r.body
            &&& origins_match(r.url, next) && n.body == r.body && !becomes_get(status, r.method)
                ==> n.headers == r.headers
        }),
{
}

/// A redirect that turns a request into a GET carries no header about a body.
pub proof fn bodies_take_their_headers_along(
    r: RequestView,
    status: u16,
    next: UrlView,
    e: (Seq<char>, JsonView),
)
    requires
        becomes_get(status, r.method),
        describes_body(e.0),
    ensures
        !r.redirected(status, next).headers.contains(e),
{
    let kept = without_body_headers(r.headers);
    lemma_filtered_has(r.headers, |x: (Seq<char>, JsonView)| !describes_body(x.0), e);
    lemma_filtered_has(kept, |x: (Seq<char>, JsonView)| !is_sensitive(x.0), e);
}

/// Redirects are followed only where the caller wishes it, the status is one, and
/// the server names a target.
pub proof fn redirects_are_followed_on_wish(
    r: RequestView,
    follow: bool,
    status: u16,
    location: Location,
    joined: Result<UrlView, Seq<char>>,
)
    ensures
        r.hop(follow, status, location, joined) is Follow <==> {
            &&& follow
            &&& status == 301 || status == 302 || status == 303 || status == 307 || status == 308
            &&& location is Text
            &&& r.redirect_count < 10
            &&& joined is Ok
        },
        r.hop(follow, status, location, joined) is Deliver <==> !follow || !redirects(status)
            || location is Absent,
        r.hop(follow, status, location, joined) matches HopView::Follow(n) ==> n == r.redirected(
            status,
            joined->Ok_0,
        ),
{
}

/// To have one origin is an equivalence, and scheme, host and port all count.
pub proof fn origins_are_compared_in_full(a: UrlView, b: UrlView, c: UrlView)
    ensures
        origins_match(a, a),
        origins_match(a, b) == origins_match(b, a),
        origins_match(a, b) && origins_match(b, c) ==> origins_match(a, c),
        a.scheme != b.scheme || a.host != b.host || a.port != b.port ==> !origins_match(a, b),
        origins_match(a, UrlView { text: b.text, ..a }),
{
}

/// What a request leaves open is filled in: a GET without headers or body, whose
/// redirects are not followed.
pub proof fn requests_have_defaults(o: Option<FetchOptions>, p: RequestPlan)
    requires
        asked_for(o, p),
    ensures
        o is None || o->0.method is None ==> p.method@ == text::uppered("GET"@),
        o matches Some(o) ==> o.method matches Some(m) ==> p.method@ == text::uppered(m@),
        o matches Some(o) ==> p.headers == o.headers && p.body == o.body,
        o is None ==> p.headers is None && p.body is None,
        p.raw <==> o is Some && o->0.raw == Some(true),
        p.follow_redirects <==> o is Some && o->0.follow_redirects == Some(true),
        p.fixed_chunks <==> o is Some && o->0.fixed_chunks == Some(true),
        o matches Some(o) ==> o.stream == p.stream_preference,
{
}

/// Activity of a peer keeps its own session alive and wakes no other one: sessions
/// that have been idle too long are gone, and none is made.
pub proof fn activity_touches_one_session(
    before: HandshakeState,
    after: HandshakeState,
    addr: &str,
    pkg: &str,
    now: u64,
    k: table::PeerKey,
)
    requires
        activity_noted(before, after, addr, pkg, now),
    ensures
        after.sessions@.dom().contains(k) ==> before.sessions@.dom().contains(k),
        after.sessions@.dom().contains(k) && k != handshake::session_key(addr, pkg)
            ==> after.sessions@[k] == before.sessions@[k],
        after.sessions@.dom().contains(k) && k == handshake::session_key(addr, pkg)
            ==> after.sessions@[k].last_seen == now && after.sessions@[k].open
            && after.sessions@[k].caps == before.sessions@[k].caps,
{
}

/// A response that is sent in chunks all at once reaches the peer whole: behind the
/// header, which tells the status, the chunk messages carry the payload.
pub proof fn chunked_responses_arrive_whole(
    before: transfer::Registry,
    after: transfer::Registry,
    k: table::PeerKey,
    id: Option<Seq<char>>,
    resp: FetchResponse,
    plan: TransferPlan,
    size: usize,
    now: u64,
    out: Seq<Outgoing>,
) -> (chunks: Seq<Json>)
    requires
        sent_chunked(before, after, k, id, resp, plan, size, now, out),
        plan.ack_window == 0,
        plan.payload@.len() > 0,
        size > 0,
        plan.encoding != BodyEncoding::Text,
    ensures
        after == before,
        out.len() == chunks.len() + 1,
        out[0].tag@ == FETCH_TAG@,
        tells(out[0].body@, id, resp.ok, resp.status, resp.status_text@, resp.headers@),
        forall|i: int|
            1 <= i < out.len() ==> (#[trigger] out[i]).tag@ == FETCH_CHUNK_TAG@ && out[i].body@
                == chunks[i - 1]@,
        transfer::carried(chunks, plan.encoding) == plan.payload@,
{
    let t = transfer::started(plan.payload, size, plan.encoding, plan.ack_window, now);
    let header = chunked_header(id, resp, plan, size as nat);
    let chunks = choose|chunks: Seq<Json>| #[trigger]
        header_then_chunks(out, header, chunks) && transfer::are_chunk_messages(
            chunks,
            t,
            id,
            0,
            t.chunk_count as int,
        );
    lemma_header_tells(id, resp, plan, size as nat, header);
    transfer::new_transfers_are_in_order(
        plan.payload,
        size,
        plan.encoding,
        plan.ack_window,
        now,
    );
    transfer::messages_restore_payload(chunks, t, id);
    chunks
}

proof fn lemma_header_tells(
    id: Option<Seq<char>>,
    resp: FetchResponse,
    plan: TransferPlan,
    size: nat,
    header: JsonView,
)
    requires
        size > 0,
        header == chunked_header(id, resp, plan, size),
    ensures
        tells(header, id, resp.ok, resp.status, resp.status_text@, resp.headers@),
{
    chunked_headers_tell_the_response(id, resp, plan, size);
}

/// Of a paced response the first window goes out, and the rest is kept for the
/// acknowledgements under the peer, the package and the request.
pub proof fn paced_responses_are_kept(
    before: transfer::Registry,
    after: transfer::Registry,
    k: table::PeerKey,
    id: Option<Seq<char>>,
    resp: FetchResponse,
    plan: TransferPlan,
    size: usize,
    now: u64,
    out: Seq<Outgoing>,
)
    requires
        sent_chunked(before, after, k, id, resp, plan, size, now, out),
        plan.ack_window > 0,
        plan.payload@.len() > 0,
        size > 0,
    ensures
        after.transfers@.dom().contains(k),
        after.transfers@[k].payload == plan.payload,
        after.transfers@[k].base == 0,
        after.transfers@[k].window == plan.ack_window,
        out.len() == after.transfers@[k].next + 1,
        tells(out[0].body@, id, resp.ok, resp.status, resp.status_text@, resp.headers@),
{
    let t = transfer::started(plan.payload, size, plan.encoding, plan.ack_window, now);
    transfer::transfers_start_with_a_window(plan.payload, size, plan.encoding, plan.ack_window, now);
    lemma_header_tells(id, resp, plan, size as nat, chunked_header(id, resp, plan, size as nat));
}

/// The number that a peer acknowledges is the one in its message; a message without
/// one acknowledges nothing.
pub proof fn acknowledgements_are_read(body: JsonView)
    ensures
        body.u64_at("ack"@) matches Some(n) ==> n <= usize::MAX ==> ack_of(body) == n,
        body.u64_at("ack"@) is None ==> ack_of(body) == 0,
        stream_id(body) matches Some(id) ==> body.str_at("id"@) == Some(id) && id.len() > 0,
        stream_id(body) is None ==> body.str_at("id"@) is None || body.str_at("id"@)->0.len() == 0,
{
}

/// An acknowledgement finds the transfer that was started for the same peer, the
/// same package and the same request.
pub proof fn acknowledgements_find_their_transfer(
    addr: &str,
    pkg: &str,
    id: Option<&str>,
    body: JsonView,
)
    requires
        body.str_at("id"@) == json::opt_view(id),
    ensures
        frame_key(addr, pkg, body) == transfer::transfer_key(addr, pkg, id),
{
}

/// A streamed body is raw where it was asked for as such, and otherwise exactly
/// where its type does not name a text.
pub proof fn streamed_texts_are_told_by_type(h: Map<Seq<char>, JsonView>)
    ensures
        streams_raw(h, true),
        text::begins_with(media_type(h), "text/"@) ==> !streams_raw(h, false),
        text::has_part(media_type(h), "json"@) ==> !streams_raw(h, false),
        text::has_part(media_type(h), "xml"@) ==> !streams_raw(h, false),
        text::has_part(media_type(h), "javascript"@) ==> !streams_raw(h, false),
        text::begins_with(media_type(h), "text/"@) || text::has_part(media_type(h), "json"@)
            || text::has_part(media_type(h), "xml"@) || text::has_part(
            media_type(h),
            "javascript"@,
        ) || streams_raw(h, false),
{
}

/// A method is known by its name in upper case, and any other one keeps its own.
pub proof fn methods_are_known_by_name(m: Method)
    ensures
        named_method("GET"@, m) ==> m is Get,
        named_method("POST"@, m) ==> m is Post,
        named_method("PUT"@, m) ==> m is Put,
        named_method("DELETE"@, m) ==> m is Delete,
        named_method("HEAD"@, m) ==> m is Head,
        named_method("PATCH"@, m) ==> m is Patch,
        forall|u: Seq<char>| #[trigger]
            named_method(u, m) ==> (m matches Method::Other(o) ==> o@ == u),
{
    lemma_method_names();
}

proof fn lemma_method_names()
    ensures
        "GET"@ != "POST"@,
        "GET"@ != "PUT"@,
        "GET"@ != "DELETE"@,
        "GET"@ != "HEAD"@,
        "GET"@ != "PATCH"@,
        "GET"@ != "OPTIONS"@,
        "GET"@ != "CONNECT"@,
        "GET"@ != "TRACE"@,
        "POST"@ != "PUT"@,
        "POST"@ != "DELETE"@,
        "POST"@ != "HEAD"@,
        "POST"@ != "PATCH"@,
        "POST"@ != "OPTIONS"@,
        "POST"@ != "CONNECT"@,
        "POST"@ != "TRACE"@,
        "PUT"@ != "DELETE"@,
        "PUT"@ != "HEAD"@,
        "PUT"@ != "PATCH"@,
        "PUT"@ != "OPTIONS"@,
        "PUT"@ != "CONNECT"@,
        "PUT"@ != "TRACE"@,
        "DELETE"@ != "HEAD"@,
        "DELETE"@ != "PATCH"@,
        "DELETE"@ != "OPTIONS"@,
        "DELETE"@ != "CONNECT"@,
        "DELETE"@ != "TRACE"@,
        "HEAD"@ != "PATCH"@,
        "HEAD"@ != "OPTIONS"@,
        "HEAD"@ != "CONNECT"@,
        "HEAD"@ != "TRACE"@,
        "PATCH"@ != "OPTIONS"@,
        "PATCH"@ != "CONNECT"@,
        "PATCH"@ != "TRACE"@,
        "OPTIONS"@ != "CONNECT"@,
        "OPTIONS"@ != "TRACE"@,
        "CONNECT"@ != "TRACE"@,
{
    reveal_strlit("GET");
    reveal_strlit("POST");
    reveal_strlit("PUT");
    reveal_strlit("DELETE");
    reveal_strlit("HEAD");
    reveal_strlit("PATCH");
    reveal_strlit("OPTIONS");
    reveal_strlit("CONNECT");
    reveal_strlit("TRACE");
    assert("GET"@.len() != "POST"@.len());
    assert("GET"@[0] != "PUT"@[0]);
    assert("GET"@.len() != "DELETE"@.len());
    assert("GET"@.len() != "HEAD"@.len());
    assert("GET"@.len() != "PATCH"@.len());
    assert("GET"@.len() != "OPTIONS"@.len());
    assert("GET"@.len() != "CONNECT"@.len());
    assert("GET"@.len() != "TRACE"@.len());
    assert("POST"@.len() != "PUT"@.len());
    assert("POST"@.len() != "DELETE"@.len());
    assert("POST"@[0] != "HEAD"@[0]);
    assert("POST"@.len() != "PATCH"@.len());
    assert("POST"@.len() != "OPTIONS"@.len());
    assert("POST"@.len() != "CONNECT"@.len());
    assert("POST"@.len() != "TRACE"@.len());
    assert("PUT"@.len() != "DELETE"@.len());
    assert("PUT"@.len() != "HEAD"@.len());
    assert("PUT"@.len() != "PATCH"@.len());
    assert("PUT"@.len() != "OPTIONS"@.len());
    assert("PUT"@.len() != "CONNECT"@.len());
    assert("PUT"@.len() != "TRACE"@.len());
    assert("DELETE"@.len() != "HEAD"@.len());
    assert("DELETE"@.len() != "PATCH"@.len());
    assert("DELETE"@.len() != "OPTIONS"@.len());
    assert("DELETE"@.len() != "CONNECT"@.len());
    assert("DELETE"@.len() != "TRACE"@.len());
    assert("HEAD"@.len() != "PATCH"@.len());
    assert("HEAD"@.len() != "OPTIONS"@.len());
    assert("HEAD"@.len() != "CONNECT"@.len());
    assert("HEAD"@.len() != "TRACE"@.len());
    assert("PATCH"@.len() != "OPTIONS"@.len());
    assert("PATCH"@.len() != "CONNECT"@.len());
    assert("PATCH"@[0] != "TRACE"@[0]);
    assert("OPTIONS"@[0] != "CONNECT"@[0]);
    assert("OPTIONS"@.len() != "TRACE"@.len());
    assert("CONNECT"@.len() != "TRACE"@.len());
}

/// A header is read by its name; one that is not there, or is no text, is empty.
pub proof fn headers_are_read_by_name(h: Map<Seq<char>, JsonView>, name: Seq<char>)
    ensures
        JsonView::Object(h).str_at(name) matches Some(v) ==> header_value(h, name) == v,
        JsonView::Object(h).str_at(name) is None ==> header_value(h, name).len() == 0,
        media_type(h) == text::lowered(header_value(h, "content-type"@)),
        JsonView::Object(h).str_at("content-length"@) matches Some(s) ==> announced_length(h)
            == text::parsed_uint(s, usize::MAX as nat),
{
}

/// A response is streamed only where the peer takes streams, it is to be one, and
/// the request has an id under which the frames can be told.
pub proof fn streams_need_an_id(id: Option<Seq<char>>, taken: bool, wanted: bool)
    ensures
        reply_kind(id, taken, wanted) is Stream ==> taken && wanted && id is Some && id->0.len() > 0,
        reply_kind(id, taken, wanted) is NeedsId ==> taken && wanted && (id is None || id->0.len()
            == 0),
        taken && wanted <==> !(reply_kind(id, taken, wanted) is Buffered),
        id is Some && id->0.len() > 0 ==> !(reply_kind(id, taken, wanted) is NeedsId),
{
}

/// Exactly the statuses from 200 to 299 are a success.
pub proof fn successes_are_in_the_two_hundreds(status: u16)
    ensures
        succeeded(status) <==> 200 <= status <= 299,
        redirects(status) ==> !succeeded(status),
        succeeded(200) && !succeeded(404) && !succeeded(500) && !succeeded(304),
{
}

/// What a name of a header means does not depend on its case: credentials are the
/// two headers of authorization, cookies and the host, and a body is described by
/// its length, its type and its two encodings.
pub proof fn headers_are_known_by_name(name: Seq<char>)
    ensures
        is_sensitive(name) <==> text::lowered(name) == "authorization"@ || text::lowered(name)
            == "proxy-authorization"@ || text::lowered(name) == "cookie"@ || text::lowered(name)
            == "host"@,
        describes_body(name) <==> text::lowered(name) == "content-length"@ || text::lowered(name)
            == "content-type"@ || text::lowered(name) == "content-encoding"@ || text::lowered(name)
            == "transfer-encoding"@,
        is_sensitive(text::uppered(name)) == is_sensitive(name),
        describes_body(text::uppered(name)) == describes_body(name),
{
    assert(text::lowered(text::uppered(name)) =~= text::lowered(name));
}

/// Cookies and authorizations never reach another origin, in whatever case their
/// names are written.
pub proof fn cookies_stay_with_their_origin(
    r: RequestView,
    status: u16,
    next: UrlView,
    e: (Seq<char>, JsonView),
)
    requires
        r.url.scheme != next.scheme || r.url.host != next.host || r.url.port != next.port,
        text::lowered(e.0) == "cookie"@ || text::lowered(e.0) == "authorization"@ || text::lowered(
            e.0,
        ) == "proxy-authorization"@ || text::lowered(e.0) == "host"@,
    ensures
        !r.redirected(status, next).headers.contains(e),
{
    cross_origin_drops_credentials(r, status, next, e);
}

/// Within one origin a request keeps all its headers, but for those about a body that
/// it no longer has.
pub proof fn headers_stay_within_their_origin(
    r: RequestView,
    status: u16,
    next: UrlView,
    e: (Seq<char>, JsonView),
)
    requires
        r.url.scheme == next.scheme,
        r.url.host == next.host,
        r.url.port == next.port,
        r.headers.contains(e),
        r.redirected(status, next).body == r.body && r.body is Some || !describes_body(e.0),
    ensures
        r.redirected(status, next).headers.contains(e),
{
    lemma_filtered_has(r.headers, |x: (Seq<char>, JsonView)| !describes_body(x.0), e);
}

proof fn lemma_phrases()
    ensures
        "OK"@ != "Created"@,
        "OK"@ != "No Content"@,
        "OK"@ != "Moved Permanently"@,
        "OK"@ != "Found"@,
        "OK"@ != "See Other"@,
        "OK"@ != "Not Modified"@,
        "OK"@ != "Temporary Redirect"@,
        "OK"@ != "Permanent Redirect"@,
        "OK"@ != "Bad Request"@,
        "OK"@ != "Unauthorized"@,
        "OK"@ != "Forbidden"@,
        "OK"@ != "Not Found"@,
        "OK"@ != "Internal Server Error"@,
        "OK"@ != "Bad Gateway"@,
        "OK"@ != "Service Unavailable"@,
        "OK"@ != ""@,
        "Created"@ != "No Content"@,
        "Created"@ != "Moved Permanently"@,
        "Created"@ != "Found"@,
        "Created"@ != "See Other"@,
        "Created"@ != "Not Modified"@,
        "Created"@ != "Temporary Redirect"@,
        "Created"@ != "Permanent Redirect"@,
        "Created"@ != "Bad Request"@,
        "Created"@ != "Unauthorized"@,
        "Created"@ != "Forbidden"@,
        "Created"@ != "Not Found"@,
        "Created"@ != "Internal Server Error"@,
        "Created"@ != "Bad Gateway"@,
        "Created"@ != "Service Unavailable"@,
        "Created"@ != ""@,
        "No Content"@ != "Moved Permanently"@,
        "No Content"@ != "Found"@,
        "No Content"@ != "See Other"@,
        "No Content"@ != "Not Modified"@,
        "No Content"@ != "Temporary Redirect"@,
        "No Content"@ != "Permanent Redirect"@,
        "No Content"@ != "Bad Request"@,
        "No Content"@ != "Unauthorized"@,
        "No Content"@ != "Forbidden"@,
        "No Content"@ != "Not Found"@,
        "No Content"@ != "Internal Server Error"@,
        "No Content"@ != "Bad Gateway"@,
        "No Content"@ != "Service Unavailable"@,
        "No Content"@ != ""@,
        "Moved Permanently"@ != "Found"@,
        "Moved Permanently"@ != "See Other"@,
        "Moved Permanently"@ != "Not Modified"@,
        "Moved Permanently"@ != "Temporary Redirect"@,
        "Moved Permanently"@ != "Permanent Redirect"@,
        "Moved Permanently"@ != "Bad Request"@,
        "Moved Permanently"@ != "Unauthorized"@,
        "Moved Permanently"@ != "Forbidden"@,
        "Moved Permanently"@ != "Not Found"@,
        "Moved Permanently"@ != "Internal Server Error"@,
        "Moved Permanently"@ != "Bad Gateway"@,
        "Moved Permanently"@ != "Service Unavailable"@,
        "Moved Permanently"@ != ""@,
        "Found"@ != "See Other"@,
        "Found"@ != "Not Modified"@,
        "Found"@ != "Temporary Redirect"@,
        "Found"@ != "Permanent Redirect"@,
        "Found"@ != "Bad Request"@,
        "Found"@ != "Unauthorized"@,
        "Found"@ != "Forbidden"@,
        "Found"@ != "Not Found"@,
        "Found"@ != "Internal Server Error"@,
        "Found"@ != "Bad Gateway"@,
        "Found"@ != "Service Unavailable"@,
        "Found"@ != ""@,
        "See Other"@ != "Not Modified"@,
        "See Other"@ != "Temporary Redirect"@,
        "See Other"@ != "Permanent Redirect"@,
        "See Other"@ != "Bad Request"@,
        "See Other"@ != "Unauthorized"@,
        "See Other"@ != "Forbidden"@,
        "See Other"@ != "Not Found"@,
        "See Other"@ != "Internal Server Error"@,
        "See Other"@ != "Bad Gateway"@,
        "See Other"@ != "Service Unavailable"@,
        "See Other"@ != ""@,
        "Not Modified"@ != "Temporary Redirect"@,
        "Not Modified"@ != "Permanent Redirect"@,
        "Not Modified"@ != "Bad Request"@,
        "Not Modified"@ != "Unauthorized"@,
        "Not Modified"@ != "Forbidden"@,
        "Not Modified"@ != "Not Found"@,
        "Not Modified"@ != "Internal Server Error"@,
        "Not Modified"@ != "Bad Gateway"@,
        "Not Modified"@ != "Service Unavailable"@,
        "Not Modified"@ != ""@,
        "Temporary Redirect"@ != "Permanent Redirect"@,
        "Temporary Redirect"@ != "Bad Request"@,
        "Temporary Redirect"@ != "Unauthorized"@,
        "Temporary Redirect"@ != "Forbidden"@,
        "Temporary Redirect"@ != "Not Found"@,
        "Temporary Redirect"@ != "Internal Server Error"@,
        "Temporary Redirect"@ != "Bad Gateway"@,
        "Temporary Redirect"@ != "Service Unavailable"@,
        "Temporary Redirect"@ != ""@,
        "Permanent Redirect"@ != "Bad Request"@,
        "Permanent Redirect"@ != "Unauthorized"@,
        "Permanent Redirect"@ != "Forbidden"@,
        "Permanent Redirect"@ != "Not Found"@,
        "Permanent Redirect"@ != "Internal Server Error"@,
        "Permanent Redirect"@ != "Bad Gateway"@,
        "Permanent Redirect"@ != "Service Unavailable"@,
        "Permanent Redirect"@ != ""@,
        "Bad Request"@ != "Unauthorized"@,
        "Bad Request"@ != "Forbidden"@,
        "Bad Request"@ != "Not Found"@,
        "Bad Request"@ != "Internal Server Error"@,
        "Bad Request"@ != "Bad Gateway"@,
        "Bad Request"@ != "Service Unavailable"@,
        "Bad Request"@ != ""@,
        "Unauthorized"@ != "Forbidden"@,
        "Unauthorized"@ != "Not Found"@,
        "Unauthorized"@ != "Internal Server Error"@,
        "Unauthorized"@ != "Bad Gateway"@,
        "Unauthorized"@ != "Service Unavailable"@,
        "Unauthorized"@ != ""@,
        "Forbidden"@ != "Not Found"@,
        "Forbidden"@ != "Internal Server Error"@,
        "Forbidden"@ != "Bad Gateway"@,
        "Forbidden"@ != "Service Unavailable"@,
        "Forbidden"@ != ""@,
        "Not Found"@ != "Internal Server Error"@,
        "Not Found"@ != "Bad Gateway"@,
        "Not Found"@ != "Service Unavailable"@,
        "Not Found"@ != ""@,
        "Internal Server Error"@ != "Bad Gateway"@,
        "Internal Server Error"@ != "Service Unavailable"@,
        "Internal Server Error"@ != ""@,
        "Bad Gateway"@ != "Service Unavailable"@,
        "Bad Gateway"@ != ""@,
        "Service Unavailable"@ != ""@,
{
    reveal_strlit("OK");
    reveal_strlit("Created");
    reveal_strlit("No Content");
    reveal_strlit("Moved Permanently");
    reveal_strlit("Found");
    reveal_strlit("See Other");
    reveal_strlit("Not Modified");
    reveal_strlit("Temporary Redirect");
    reveal_strlit("Permanent Redirect");
    reveal_strlit("Bad Request");
    reveal_strlit("Unauthorized");
    reveal_strlit("Forbidden");
    reveal_strlit("Not Found");
    reveal_strlit("Internal Server Error");
    reveal_strlit("Bad Gateway");
    reveal_strlit("Service Unavailable");
    reveal_strlit("");
    assert("OK"@.len() != "Created"@.len());
    assert("OK"@.len() != "No Content"@.len());
    assert("OK"@.len() != "Moved Permanently"@.len());
    assert("OK"@.len() != "Found"@.len());
    assert("OK"@.len() != "See Other"@.len());
    assert("OK"@.len() != "Not Modified"@.len());
    assert("OK"@.len() != "Temporary Redirect"@.len());
    assert("OK"@.len() != "Permanent Redirect"@.len());
    assert("OK"@.len() != "Bad Request"@.len());
    assert("OK"@.len() != "Unauthorized"@.len());
    assert("OK"@.len() != "Forbidden"@.len());
    assert("OK"@.len() != "Not Found"@.len());
    assert("OK"@.len() != "Internal Server Error"@.len());
    assert("OK"@.len() != "Bad Gateway"@.len());
    assert("OK"@.len() != "Service Unavailable"@.len());
    assert("OK"@.len() != ""@.len());
    assert("Created"@.len() != "No Content"@.len());
    assert("Created"@.len() != "Moved Permanently"@.len());
    assert("Created"@.len() != "Found"@.len());
    assert("Created"@.len() != "See Other"@.len());
    assert("Created"@.len() != "Not Modified"@.len());
    assert("Created"@.len() != "Temporary Redirect"@.len());
    assert("Created"@.len() != "Permanent Redirect"@.len());
    assert("Created"@.len() != "Bad Request"@.len());
    assert("Created"@.len() != "Unauthorized"@.len());
    assert("Created"@.len() != "Forbidden"@.len());
    assert("Created"@.len() != "Not Found"@.len());
    assert("Created"@.len() != "Internal Server Error"@.len());
    assert("Created"@.len() != "Bad Gateway"@.len());
    assert("Created"@.len() != "Service Unavailable"@.len());
    assert("Created"@.len() != ""@.len());
    assert("No Content"@.len() != "Moved Permanently"@.len());
    assert("No Content"@.len() != "Found"@.len());
    assert("No Content"@.len() != "See Other"@.len());
    assert("No Content"@.len() != "Not Modified"@.len());
    assert("No Content"@.len() != "Temporary Redirect"@.len());
    assert("No Content"@.len() != "Permanent Redirect"@.len());
    assert("No Content"@.len() != "Bad Request"@.len());
    assert("No Content"@.len() != "Unauthorized"@.len());
    assert("No Content"@.len() != "Forbidden"@.len());
    assert("No Content"@.len() != "Not Found"@.len());
    assert("No Content"@.len() != "Internal Server Error"@.len());
    assert("No Content"@.len() != "Bad Gateway"@.len());
    assert("No Content"@.len() != "Service Unavailable"@.len());
    assert("No Content"@.len() != ""@.len());
    assert("Moved Permanently"@.len() != "Found"@.len());
    assert("Moved Permanently"@.len() != "See Other"@.len());
    assert("Moved Permanently"@.len() != "Not Modified"@.len());
    assert("Moved Permanently"@.len() != "Temporary Redirect"@.len());
    assert("Moved Permanently"@.len() != "Permanent Redirect"@.len());
    assert("Moved Permanently"@.len() != "Bad Request"@.len());
    assert("Moved Permanently"@.len() != "Unauthorized"@.len());
    assert("Moved Permanently"@.len() != "Forbidden"@.len());
    assert("Moved Permanently"@.len() != "Not Found"@.len());
    assert("Moved Permanently"@.len() != "Internal Server Error"@.len());
    assert("Moved Permanently"@.len() != "Bad Gateway"@.len());
    assert("Moved Permanently"@.len() != "Service Unavailable"@.len());
    assert("Moved Permanently"@.len() != ""@.len());
    assert("Found"@.len() != "See Other"@.len());
    assert("Found"@.len() != "Not Modified"@.len());
    assert("Found"@.len() != "Temporary Redirect"@.len());
    assert("Found"@.len() != "Permanent Redirect"@.len());
    assert("Found"@.len() != "Bad Request"@.len());
    assert("Found"@.len() != "Unauthorized"@.len());
    assert("Found"@.len() != "Forbidden"@.len());
    assert("Found"@.len() != "Not Found"@.len());
    assert("Found"@.len() != "Internal Server Error"@.len());
    assert("Found"@.len() != "Bad Gateway"@.len());
    assert("Found"@.len() != "Service Unavailable"@.len());
    assert("Found"@.len() != ""@.len());
    assert("See Other"@.len() != "Not Modified"@.len());
    assert("See Other"@.len() != "Temporary Redirect"@.len());
    assert("See Other"@.len() != "Permanent Redirect"@.len());
    assert("See Other"@.len() != "Bad Request"@.len());
    assert("See Other"@.len() != "Unauthorized"@.len());
    assert("See Other"@[0] != "Forbidden"@[0]);
    assert("See Other"@[0] != "Not Found"@[0]);
    assert("See Other"@.len() != "Internal Server Error"@.len());
    assert("See Other"@.len() != "Bad Gateway"@.len());
    assert("See Other"@.len() != "Service Unavailable"@.len());
    assert("See Other"@.len() != ""@.len());
    assert("Not Modified"@.len() != "Temporary Redirect"@.len());
    assert("Not Modified"@.len() != "Permanent Redirect"@.len());
    assert("Not Modified"@.len() != "Bad Request"@.len());
    assert("Not Modified"@[0] != "Unauthorized"@[0]);
    assert("Not Modified"@.len() != "Forbidden"@.len());
    assert("Not Modified"@.len() != "Not Found"@.len());
    assert("Not Modified"@.len() != "Internal Server Error"@.len());
    assert("Not Modified"@.len() != "Bad Gateway"@.len());
    assert("Not Modified"@.len() != "Service Unavailable"@.len());
    assert("Not Modified"@.len() != ""@.len());
    assert("Temporary Redirect"@[0] != "Permanent Redirect"@[0]);
    assert("Temporary Redirect"@.len() != "Bad Request"@.len());
    assert("Temporary Redirect"@.len() != "Unauthorized"@.len());
    assert("Temporary Redirect"@.len() != "Forbidden"@.len());
    assert("Temporary Redirect"@.len() != "Not Found"@.len());
    assert("Temporary Redirect"@.len() != "Internal Server Error"@.len());
    assert("Temporary Redirect"@.len() != "Bad Gateway"@.len());
    assert("Temporary Redirect"@.len() != "Service Unavailable"@.len());
    assert("Temporary Redirect"@.len() != ""@.len());
    assert("Permanent Redirect"@.len() != "Bad Request"@.len());
    assert("Permanent Redirect"@.len() != "Unauthorized"@.len());
    assert("Permanent Redirect"@.len() != "Forbidden"@.len());
    assert("Permanent Redirect"@.len() != "Not Found"@.len());
    assert("Permanent Redirect"@.len() != "Internal Server Error"@.len());
    assert("Permanent Redirect"@.len() != "Bad Gateway"@.len());
    assert("Permanent Redirect"@.len() != "Service Unavailable"@.len());
    assert("Permanent Redirect"@.len() != ""@.len());
    assert("Bad Request"@.len() != "Unauthorized"@.len());
    assert("Bad Request"@.len() != "Forbidden"@.len());
    assert("Bad Request"@.len() != "Not Found"@.len());
    assert("Bad Request"@.len() != "Internal Server Error"@.len());
    assert("Bad Request"@[4] != "Bad Gateway"@[4]);
    assert("Bad Request"@.len() != "Service Unavailable"@.len());
    assert("Bad Request"@.len() != ""@.len());
    assert("Unauthorized"@.len() != "Forbidden"@.len());
    assert("Unauthorized"@.len() != "Not Found"@.len());
    assert("Unauthorized"@.len() != "Internal Server Error"@.len());
    assert("Unauthorized"@.len() != "Bad Gateway"@.len());
    assert("Unauthorized"@.len() != "Service Unavailable"@.len());
    assert("Unauthorized"@.len() != ""@.len());
    assert("Forbidden"@[0] != "Not Found"@[0]);
    assert("Forbidden"@.len() != "Internal Server Error"@.len());
    assert("Forbidden"@.len() != "Bad Gateway"@.len());
    assert("Forbidden"@.len() != "Service Unavailable"@.len());
    assert("Forbidden"@.len() != ""@.len());
    assert("Not Found"@.len() != "Internal Server Error"@.len());
    assert("Not Found"@.len() != "Bad Gateway"@.len());
    assert("Not Found"@.len() != "Service Unavailable"@.len());
    assert("Not Found"@.len() != ""@.len());
    assert("Internal Server Error"@.len() != "Bad Gateway"@.len());
    assert("Internal Server Error"@.len() != "Service Unavailable"@.len());
    assert("Internal Server Error"@.len() != ""@.len());
    assert("Bad Gateway"@.len() != "Service Unavailable"@.len());
    assert("Bad Gateway"@.len() != ""@.len());
    assert("Service Unavailable"@.len() != ""@.len());
}

/// The statuses that have a phrase are told apart by it; any other one has none.
pub proof fn phrases_are_told_apart(a: u16, b: u16)
    ensures
        status_phrase(a)@.len() > 0 && status_phrase(a)@ == status_phrase(b)@ ==> a == b,
        status_phrase(a)@.len() > 0 <==> a == 200 || a == 201 || a == 204 || a == 301 || a == 302 || a
            == 303 || a == 304 || a == 307 || a == 308 || a == 400 || a == 401 || a == 403 || a == 404
            || a == 500 || a == 502 || a == 503,
        redirects(a) ==> status_phrase(a)@.len() > 0,
{
    lemma_phrases();
    reveal_strlit("OK");
    reveal_strlit("Created");
    reveal_strlit("No Content");
    reveal_strlit("Moved Permanently");
    reveal_strlit("Found");
    reveal_strlit("See Other");
    reveal_strlit("Not Modified");
    reveal_strlit("Temporary Redirect");
    reveal_strlit("Permanent Redirect");
    reveal_strlit("Bad Request");
    reveal_strlit("Unauthorized");
    reveal_strlit("Forbidden");
    reveal_strlit("Not Found");
    reveal_strlit("Internal Server Error");
    reveal_strlit("Bad Gateway");
    reveal_strlit("Service Unavailable");
    reveal_strlit("");
}

/// One message holds no more of a body than sixteen kibibytes of text; a body in
/// base64 of up to twelve kibibytes always fits.
pub proof fn short_bodies_fit_one_message(payload: Seq<u8>)
    ensures
        payload.len() <= 12 * 1024 ==> codec::base64_text(payload).len() <= MAX_UNCHUNKED_WIRE_LEN,
        payload.len() > 12 * 1024 ==> codec::base64_text(payload).len() > MAX_UNCHUNKED_WIRE_LEN,
        payload.len() <= 8 * 1024 <==> codec::hex_text(payload).len() <= MAX_UNCHUNKED_WIRE_LEN,
{
    codec::base64_length(payload);
}

} // verus!
