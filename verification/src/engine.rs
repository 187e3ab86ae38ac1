//! The execution engine's state and decision logic.
//!
//! A `Timer` holds the endpoint configuration (host, port, scheme,
//! extra headers, shared variables) and accumulates one `QueryResult`
//! per executed standalone query. The surrounding program performs the
//! network exchanges; everything decided here — how header lines are
//! split, which port and transport the scheme selects, what the
//! request body says, and how a response body classifies — is verified.

use crate::rank::{rank, rank_spec, QueryResult, Status};
use crate::render::strs;
use vstd::prelude::*;
use vstd::string::{StrSliceExecFns, StringExecFns};

verus! {

/// Whether a character has the Unicode white-space property.
pub uninterp spec fn is_space(c: char) -> bool;

/// Relies on `char::is_whitespace`: whether the character has the
/// Unicode white-space property, a function of the character alone.
#[verifier::external_body]
fn char_is_space(c: char) -> (r: bool)
    ensures
        r == is_space(c),
{
    c.is_whitespace()
}

/// Whether a text is a JSON object.
pub uninterp spec fn is_json_object(s: Seq<char>) -> bool;

/// Relies on `serde_json::from_str` deserializing into
/// `serde_json::Map<String, Value>`, which succeeds exactly when the
/// text is a JSON object; a function of the text alone.
#[verifier::external_body]
fn json_object_ok(s: &str) -> (r: bool)
    ensures
        r == is_json_object(s@),
{
    serde_json::from_str::<serde_json::Map<String, serde_json::Value>>(s).is_ok()
}

/// Whether a text is well-formed JSON.
pub uninterp spec fn json_parses(s: Seq<char>) -> bool;

/// Relies on `serde_json::from_str` deserializing into
/// `serde_json::Value`, which succeeds exactly when the text is
/// well-formed JSON; a function of the text alone.
#[verifier::external_body]
fn json_check(s: &str) -> (r: bool)
    ensures
        r == json_parses(s@),
{
    serde_json::from_str::<serde_json::Value>(s).is_ok()
}

/// Whether a well-formed JSON text holds `key` at top level with a
/// non-null value.
pub uninterp spec fn has_nonnull_key(s: Seq<char>, key: Seq<char>) -> bool;

/// Relies on `serde_json::from_str::<Value>`, `Value::get` and
/// `Value::is_null`: whether the parsed text holds `key` at top level
/// with a non-null value; a function of the two texts alone.
#[verifier::external_body]
fn json_has_nonnull_key(s: &str, key: &str) -> (r: bool)
    requires
        json_parses(s@),
    ensures
        r == has_nonnull_key(s@, key@),
{
    match serde_json::from_str::<serde_json::Value>(s) {
        Ok(v) => match v.get(key) {
            Some(x) => !x.is_null(),
            None => false,
        },
        Err(_) => false,
    }
}

/// The JSON string literal (quoted and escaped) encoding a text, when
/// the encoder accepts it.
pub uninterp spec fn json_str_encoding(s: Seq<char>) -> Option<Seq<char>>;

/// Relies on `serde_json::to_string` on a string slice: the result is
/// the quoted, escaped JSON string literal for the text, a function of
/// the text alone.
#[verifier::external_body]
fn json_encode_str(s: &str) -> (r: Option<String>)
    ensures
        match r {
            Some(t) => json_str_encoding(s@) == Some(t@),
            None => json_str_encoding(s@) is None,
        },
{
    serde_json::to_string(&s).ok()
}

/// Whether a text parses as a URI reference.
pub uninterp spec fn uri_parses(s: Seq<char>) -> bool;

/// The scheme component of a parsed URI text, if any.
pub uninterp spec fn uri_scheme_of(s: Seq<char>) -> Option<Seq<char>>;

/// The host component of a parsed URI text, if any.
pub uninterp spec fn uri_host_of(s: Seq<char>) -> Option<Seq<char>>;

/// The explicit port of a parsed URI text, if any.
pub uninterp spec fn uri_port_of(s: Seq<char>) -> Option<u16>;

/// Relies on `hyper::Uri::from_str`, which accepts exactly the valid
/// URI references; a function of the text alone.
#[verifier::external_body]
fn uri_check(s: &str) -> (r: bool)
    ensures
        r == uri_parses(s@),
{
    <hyper::Uri as core::str::FromStr>::from_str(s).is_ok()
}

/// Relies on `hyper::Uri::from_str` and `Uri::scheme_str`: the scheme
/// component of the parsed text, a function of the text alone.
#[verifier::external_body]
fn uri_scheme(s: &str) -> (r: Option<String>)
    requires
        uri_parses(s@),
    ensures
        match r {
            Some(sc) => uri_scheme_of(s@) == Some(sc@),
            None => uri_scheme_of(s@) is None,
        },
{
    match <hyper::Uri as core::str::FromStr>::from_str(s) {
        Ok(u) => match u.scheme_str() {
            Some(sc) => Some(sc.to_owned()),
            None => None,
        },
        Err(_) => None,
    }
}

/// Relies on `hyper::Uri::from_str` and `Uri::host`: the host
/// component of the parsed text, a function of the text alone.
#[verifier::external_body]
fn uri_host(s: &str) -> (r: Option<String>)
    requires
        uri_parses(s@),
    ensures
        match r {
            Some(h) => uri_host_of(s@) == Some(h@),
            None => uri_host_of(s@) is None,
        },
{
    match <hyper::Uri as core::str::FromStr>::from_str(s) {
        Ok(u) => match u.host() {
            Some(h) => Some(h.to_owned()),
            None => None,
        },
        Err(_) => None,
    }
}

/// Relies on `hyper::Uri::from_str` and `Uri::port_u16`: the explicit
/// port of the parsed text, a function of the text alone.
#[verifier::external_body]
fn uri_port(s: &str) -> (r: Option<u16>)
    requires
        uri_parses(s@),
    ensures
        r == uri_port_of(s@),
{
    match <hyper::Uri as core::str::FromStr>::from_str(s) {
        Ok(u) => u.port_u16(),
        Err(_) => None,
    }
}

/// Why setting up or running the engine failed.
#[derive(Debug)]
pub enum TimerError {
    /// The endpoint URI does not parse.
    InvalidUri,
    /// The endpoint URI has no host.
    NoHost,
    /// A header line (carried here) holds no colon.
    InvalidHeader(String),
    /// The shared-variables text (carried here) is not a JSON object.
    InvalidVariables(String),
    /// A request body could not be encoded.
    EncodeFailed,
    /// A response body (carried here) is not well-formed JSON.
    ResponseNotJson(String),
    /// A response body (carried here) holds neither `data` nor
    /// `errors`: a protocol violation.
    UnknownResponse(String),
}

/// `s` without leading white space.
pub open spec fn trim_front(s: Seq<char>) -> Seq<char>
    decreases s.len(),
{
    if s.len() > 0 && is_space(s[0]) {
        trim_front(s.drop_first())
    } else {
        s
    }
}

/// `s` without trailing white space.
pub open spec fn trim_back(s: Seq<char>) -> Seq<char>
    decreases s.len(),
{
    if s.len() > 0 && is_space(s.last()) {
        trim_back(s.drop_last())
    } else {
        s
    }
}

/// `s` without leading and trailing white space.
pub open spec fn trimmed(s: Seq<char>) -> Seq<char> {
    trim_back(trim_front(s))
}

proof fn lemma_trim_front(s: Seq<char>, lo: int)
    requires
        0 <= lo <= s.len(),
        forall|k: int| 0 <= k < lo ==> is_space(s[k]),
        lo < s.len() ==> !is_space(s[lo]),
    ensures
        trim_front(s) == s.skip(lo),
    decreases lo,
{
    if lo == 0 {
        assert(s.skip(0) =~= s);
    } else {
        let d = s.drop_first();
        lemma_trim_front(d, lo - 1);
        assert(d.skip(lo - 1) =~= s.skip(lo));
    }
}

proof fn lemma_trim_back(s: Seq<char>, hi: int)
    requires
        0 <= hi <= s.len(),
        forall|k: int| hi <= k < s.len() ==> is_space(s[k]),
        hi > 0 ==> !is_space(s[hi - 1]),
    ensures
        trim_back(s) == s.take(hi),
    decreases s.len() - hi,
{
    if hi == s.len() {
        assert(s.take(hi) =~= s);
    } else {
        let d = s.drop_last();
        lemma_trim_back(d, hi);
        assert(d.take(hi) =~= s.take(hi));
    }
}

/// Trims white space from both ends of a string.
pub fn trim_str(s: &str) -> (r: String)
    ensures
        r@ == trimmed(s@),
{
    let n = s.unicode_len();
    let mut lo: usize = 0;
    while lo < n
        invariant
            n == s@.len(),
            lo <= n,
            forall|k: int| 0 <= k < lo ==> is_space(s@[k]),
        ensures
            n == s@.len(),
            lo <= n,
            forall|k: int| 0 <= k < lo ==> is_space(s@[k]),
            lo < n ==> !is_space(s@[lo as int]),
        decreases n - lo,
    {
        if !char_is_space(s.get_char(lo)) {
            break ;
        }
        lo = lo + 1;
    }
    let mut hi: usize = n;
    while hi > lo
        invariant
            n == s@.len(),
            lo <= hi <= n,
            forall|k: int| hi <= k < n ==> is_space(s@[k]),
        ensures
            n == s@.len(),
            lo <= hi <= n,
            forall|k: int| hi <= k < n ==> is_space(s@[k]),
            hi > lo ==> !is_space(s@[hi - 1]),
        decreases hi,
    {
        if !char_is_space(s.get_char(hi - 1)) {
            break ;
        }
        hi = hi - 1;
    }
    let sub = s.substring_char(lo, hi);
    proof {
        lemma_trim_front(s@, lo as int);
        let t = s@.skip(lo as int);
        if hi == lo && lo < n {
            assert(!is_space(s@[lo as int]));
        }
        lemma_trim_back(t, hi - lo as int);
        assert(t.take(hi - lo as int) =~= s@.subrange(lo as int, hi as int));
    }
    String::from_str(sub)
}

/// The index of the first colon of `s`, or `-1` if there is none.
pub open spec fn find_colon(s: Seq<char>) -> int
    decreases s.len(),
{
    if s.len() == 0 {
        -1
    } else if s[0] == ':' {
        0
    } else {
        let r = find_colon(s.drop_first());
        if r < 0 {
            -1
        } else {
            1 + r
        }
    }
}

proof fn lemma_find_colon_at(s: Seq<char>, i: int)
    requires
        0 <= i <= s.len(),
        forall|k: int| 0 <= k < i ==> s[k] != ':',
        i < s.len() ==> s[i] == ':',
    ensures
        i == s.len() ==> find_colon(s) == -1,
        i < s.len() ==> find_colon(s) == i,
    decreases s.len(),
{
    if s.len() > 0 && i > 0 {
        lemma_find_colon_at(s.drop_first(), i - 1);
    }
}

/// Splits a header line on its first colon and trims both parts;
/// `None` when the line holds no colon.
pub fn split_header(h: &str) -> (r: Option<(String, String)>)
    ensures
        match r {
            Some(kv) => ({
                let c = find_colon(h@);
                &&& c >= 0
                &&& kv.0@ == trimmed(h@.take(c))
                &&& kv.1@ == trimmed(h@.skip(c + 1))
            }),
            None => find_colon(h@) == -1,
        },
{
    let n = h.unicode_len();
    let mut i: usize = 0;
    while i < n
        invariant
            n == h@.len(),
            i <= n,
            forall|k: int| 0 <= k < i ==> h@[k] != ':',
        ensures
            n == h@.len(),
            i <= n,
            forall|k: int| 0 <= k < i ==> h@[k] != ':',
            i < n ==> h@[i as int] == ':',
        decreases n - i,
    {
        if h.get_char(i) == ':' {
            break ;
        }
        i = i + 1;
    }
    proof {
        lemma_find_colon_at(h@, i as int);
    }
    if i == n {
        return None;
    }
    let before = h.substring_char(0, i);
    let after = h.substring_char(i + 1, n);
    proof {
        assert(h@.subrange(0, i as int) =~= h@.take(i as int));
        assert(h@.subrange(i + 1, n as int) =~= h@.skip(i + 1));
    }
    Some((trim_str(before), trim_str(after)))
}

/// The parsed form of one header line, if it holds a colon.
pub open spec fn header_pair(s: Seq<char>) -> Option<(Seq<char>, Seq<char>)> {
    let c = find_colon(s);
    if c < 0 {
        None
    } else {
        Some((trimmed(s.take(c)), trimmed(s.skip(c + 1))))
    }
}

/// The views of a sequence of header pairs.
pub open spec fn pair_strs(v: Seq<(String, String)>) -> Seq<(Seq<char>, Seq<char>)> {
    Seq::new(v.len(), |i: int| (v[i].0@, v[i].1@))
}

/// All header lines parsed in order; `Err` carries the first line
/// without a colon.
pub open spec fn parse_headers_spec(hs: Seq<Seq<char>>) -> Result<
    Seq<(Seq<char>, Seq<char>)>,
    Seq<char>,
>
    decreases hs.len(),
{
    if hs.len() == 0 {
        Ok(Seq::empty())
    } else {
        match header_pair(hs[0]) {
            None => Err(hs[0]),
            Some(p) => match parse_headers_spec(hs.drop_first()) {
                Err(e) => Err(e),
                Ok(rest) => Ok(seq![p] + rest),
            },
        }
    }
}

spec fn combine_headers(
    acc: Seq<(Seq<char>, Seq<char>)>,
    r: Result<Seq<(Seq<char>, Seq<char>)>, Seq<char>>,
) -> Result<Seq<(Seq<char>, Seq<char>)>, Seq<char>> {
    match r {
        Ok(rest) => Ok(acc + rest),
        Err(e) => Err(e),
    }
}

/// Parses every header line, in order; fails with the first line that
/// holds no colon.
pub fn parse_headers(hs: &Vec<String>) -> (r: Result<Vec<(String, String)>, TimerError>)
    ensures
        match r {
            Ok(ps) => parse_headers_spec(strs(hs@)) == Ok::<_, Seq<char>>(pair_strs(ps@)),
            Err(e) => e matches TimerError::InvalidHeader(h) && parse_headers_spec(strs(hs@))
                == Err::<Seq<(Seq<char>, Seq<char>)>, _>(h@),
        },
{
    let ghost hv = strs(hs@);
    let mut out: Vec<(String, String)> = Vec::new();
    let mut i: usize = 0;
    proof {
        assert(hv.skip(0) =~= hv);
        assert(pair_strs(out@) =~= Seq::<(Seq<char>, Seq<char>)>::empty());
    }
    while i < hs.len()
        invariant
            i <= hv.len(),
            hv == strs(hs@),
            combine_headers(pair_strs(out@), parse_headers_spec(hv.skip(i as int)))
                == parse_headers_spec(hv),
        decreases hv.len() - i,
    {
        let ghost pre = out@;
        let ghost rem = hv.skip(i as int);
        proof {
            assert(rem[0] == hv[i as int]);
            assert(rem.drop_first() =~= hv.skip(i as int + 1));
        }
        match split_header(hs[i].as_str()) {
            Some(kv) => {
                out.push(kv);
                proof {
                    assert(pair_strs(out@) =~= pair_strs(pre).push(
                        header_pair(hv[i as int])->Some_0,
                    ));
                }
            },
            None => {
                return Err(TimerError::InvalidHeader(hs[i].clone()));
            },
        }
        i = i + 1;
        proof {
            let p = header_pair(rem[0])->Some_0;
            match parse_headers_spec(hv.skip(i as int)) {
                Ok(rest) => {
                    assert(pair_strs(pre).push(p) + rest =~= pair_strs(pre) + (seq![p] + rest));
                },
                Err(_) => {},
            }
        }
    }
    proof {
        assert(hv.skip(hv.len() as int) =~= Seq::<Seq<char>>::empty());
        assert(pair_strs(out@) + Seq::<(Seq<char>, Seq<char>)>::empty() =~= pair_strs(out@));
    }
    Ok(out)
}

/// Whether a scheme selects the secure transport: every scheme but
/// plain `http` does.
pub open spec fn https_spec(scheme: Option<Seq<char>>) -> bool {
    match scheme {
        Some(sc) => sc != "http"@,
        None => true,
    }
}

fn scheme_is_https(scheme: &Option<String>) -> (r: bool)
    ensures
        r == https_spec(match scheme {
            Some(s) => Some(s@),
            None => None,
        }),
{
    match scheme {
        Some(s) => {
            let http = String::from_str("http");
            !s.eq(&http)
        },
        None => true,
    }
}

/// The port of the exchange: the explicit port of the URI if present,
/// else 443 for the secure transport and 80 for the plain one.
pub open spec fn port_spec(https: bool, explicit: Option<u16>) -> u16 {
    match explicit {
        Some(p) => p,
        None => if https {
            443
        } else {
            80
        },
    }
}

/// Selects the port of the exchange.
pub fn default_port(https: bool, explicit: Option<u16>) -> (r: u16)
    ensures
        r == port_spec(https, explicit),
{
    match explicit {
        Some(p) => p,
        None => if https {
            443
        } else {
            80
        },
    }
}

/// The shared-variables text: the given one, or `{}` when absent.
pub open spec fn variables_text(v: Option<String>) -> Seq<char> {
    match v {
        Some(s) => s@,
        None => "{}"@,
    }
}

/// How a response body classifies from the presence of its two keys:
/// `data` present means success; otherwise `errors` present means
/// failure; otherwise the response violates the protocol.
pub open spec fn classify_spec(has_data: bool, has_errors: bool) -> Option<Status> {
    if has_data {
        Some(Status::Success)
    } else if has_errors {
        Some(Status::Failure)
    } else {
        None
    }
}

/// Classifies a response from the presence of its `data` and `errors`
/// keys.
pub fn classify(has_data: bool, has_errors: bool) -> (r: Option<Status>)
    ensures
        r == classify_spec(has_data, has_errors),
{
    if has_data {
        Some(Status::Success)
    } else if has_errors {
        Some(Status::Failure)
    } else {
        None
    }
}

/// The request body of one standalone query: a JSON object with the
/// query under `query` and the shared variables spliced under
/// `variables`; `None` when the query text cannot be encoded.
pub open spec fn request_body_spec(q: Seq<char>, vars: Seq<char>) -> Option<Seq<char>> {
    match json_str_encoding(q) {
        Some(enc) => Some("{\"query\": "@ + enc + ", \"variables\": "@ + vars + "}"@),
        None => None,
    }
}

/// The engine's state: the endpoint configuration and the accumulated
/// results of the run.
pub struct Timer {
    /// The records accumulated so far, in execution order.
    pub results: Vec<QueryResult>,
    /// The extra headers sent with every request.
    pub headers: Vec<(String, String)>,
    /// The host of the endpoint.
    pub host: String,
    /// Whether the exchanges use the secure transport.
    pub https: bool,
    /// The port of the endpoint.
    pub port: u16,
    /// The endpoint URI as given.
    pub uri: String,
    /// The shared-variables JSON object text, reused for every query.
    pub variables: String,
}

/// The view of an optional string.
pub open spec fn opt_str(v: Option<String>) -> Option<Seq<char>> {
    match v {
        Some(s) => Some(s@),
        None => None,
    }
}

impl Timer {
    /// Builds the engine state from the already-extracted components of
    /// the endpoint URI, the extra header lines, and the optional
    /// shared-variables text. Fails exactly on the first header line
    /// without a colon, then on a missing host, then on a
    /// shared-variables text that is not a JSON object.
    pub fn from_parts(
        uri: String,
        scheme: Option<String>,
        host: Option<String>,
        explicit_port: Option<u16>,
        headers: Vec<String>,
        variables: Option<String>,
    ) -> (r: Result<Timer, TimerError>)
        ensures
            match r {
                Ok(t) => {
                    &&& t.results@ == Seq::<QueryResult>::empty()
                    &&& parse_headers_spec(strs(headers@)) == Ok::<_, Seq<char>>(
                        pair_strs(t.headers@),
                    )
                    &&& opt_str(host) == Some(t.host@)
                    &&& t.https == https_spec(opt_str(scheme))
                    &&& t.port == port_spec(t.https, explicit_port)
                    &&& t.uri@ == uri@
                    &&& t.variables@ == variables_text(variables)
                    &&& is_json_object(t.variables@)
                },
                Err(e) => match e {
                    TimerError::InvalidHeader(h) => parse_headers_spec(strs(headers@)) == Err::<
                        Seq<(Seq<char>, Seq<char>)>,
                        _,
                    >(h@),
                    TimerError::NoHost => parse_headers_spec(strs(headers@)) is Ok && host
                        is None,
                    TimerError::InvalidVariables(v) => parse_headers_spec(strs(headers@)) is Ok
                        && host is Some && v@ == variables_text(variables) && !is_json_object(
                        v@,
                    ),
                    _ => false,
                },
            },
    {
        let https = scheme_is_https(&scheme);
        let parsed = match parse_headers(&headers) {
            Ok(p) => p,
            Err(e) => {
                return Err(e);
            },
        };
        let host = match host {
            Some(h) => h,
            None => {
                return Err(TimerError::NoHost);
            },
        };
        let port = default_port(https, explicit_port);
        let vtext = match variables {
            Some(s) => s,
            None => String::from_str("{}"),
        };
        if !json_object_ok(vtext.as_str()) {
            return Err(TimerError::InvalidVariables(vtext));
        }
        Ok(
            Timer {
                results: Vec::new(),
                headers: parsed,
                host,
                https,
                port,
                uri,
                variables: vtext,
            },
        )
    }

    /// Builds the engine state from the endpoint URI, the extra header
    /// lines, and the optional shared-variables text. Fails exactly on
    /// a URI that does not parse, then on the first header line without
    /// a colon, then on a URI without a host, then on a
    /// shared-variables text that is not a JSON object.
    pub fn new(uri: &str, headers: Vec<String>, variables: Option<String>) -> (r: Result<
        Timer,
        TimerError,
    >)
        ensures
            match r {
                Ok(t) => {
                    &&& uri_parses(uri@)
                    &&& t.results@ == Seq::<QueryResult>::empty()
                    &&& parse_headers_spec(strs(headers@)) == Ok::<_, Seq<char>>(
                        pair_strs(t.headers@),
                    )
                    &&& uri_host_of(uri@) == Some(t.host@)
                    &&& t.https == https_spec(uri_scheme_of(uri@))
                    &&& t.port == port_spec(t.https, uri_port_of(uri@))
                    &&& t.uri@ == uri@
                    &&& t.variables@ == variables_text(variables)
                    &&& is_json_object(t.variables@)
                },
                Err(e) => match e {
                    TimerError::InvalidUri => !uri_parses(uri@),
                    TimerError::InvalidHeader(h) => uri_parses(uri@) && parse_headers_spec(
                        strs(headers@),
                    ) == Err::<Seq<(Seq<char>, Seq<char>)>, _>(h@),
                    TimerError::NoHost => uri_parses(uri@) && parse_headers_spec(strs(headers@))
                        is Ok && uri_host_of(uri@) is None,
                    TimerError::InvalidVariables(v) => uri_parses(uri@) && parse_headers_spec(
                        strs(headers@),
                    ) is Ok && uri_host_of(uri@) is Some && v@ == variables_text(variables)
                        && !is_json_object(v@),
                    _ => false,
                },
            },
    {
        if !uri_check(uri) {
            return Err(TimerError::InvalidUri);
        }
        Timer::from_parts(
            String::from_str(uri),
            uri_scheme(uri),
            uri_host(uri),
            uri_port(uri),
            headers,
            variables,
        )
    }

    /// Builds the request body of one standalone query.
    pub fn request_body(&self, query: &str) -> (r: Result<String, TimerError>)
        ensures
            match r {
                Ok(b) => request_body_spec(query@, self.variables@) == Some(b@),
                Err(e) => request_body_spec(query@, self.variables@) is None && e
                    is EncodeFailed,
            },
    {
        match json_encode_str(query) {
            Some(enc) => {
                let mut out = String::from_str("{\"query\": ");
                out.append(enc.as_str());
                out.append(", \"variables\": ");
                out.append(self.variables.as_str());
                out.append("}");
                Ok(out)
            },
            None => Err(TimerError::EncodeFailed),
        }
    }

    /// Records the outcome of one executed query: decodes the response
    /// body, classifies it from its `data` and `errors` keys, and
    /// appends the record. Succeeds exactly when the body is JSON with
    /// at least one of the two keys non-null; a body that is not JSON,
    /// or that holds neither key non-null, fails the run and leaves
    /// the state unchanged.
    pub fn record_response(&mut self, query: &str, duration_nanos: u64, body: &str) -> (r: Result<
        (),
        TimerError,
    >)
        ensures
            match r {
                Ok(_) => {
                    &&& json_parses(body@)
                    &&& final(self).results@.len() == old(self).results@.len() + 1
                    &&& final(self).results@ == old(self).results@.push(
                        final(self).results@.last(),
                    )
                    &&& ({
                        let rec = final(self).results@.last();
                        &&& rec.query@ == query@
                        &&& rec.duration_nanos == duration_nanos
                        &&& rec.response@ == body@
                        &&& classify_spec(
                            has_nonnull_key(body@, "data"@),
                            has_nonnull_key(body@, "errors"@),
                        ) == Some(rec.status)
                    })
                    &&& final(self).headers == old(self).headers
                    &&& final(self).host == old(self).host
                    &&& final(self).https == old(self).https
                    &&& final(self).port == old(self).port
                    &&& final(self).uri == old(self).uri
                    &&& final(self).variables == old(self).variables
                },
                Err(e) => {
                    &&& *final(self) == *old(self)
                    &&& match e {
                        TimerError::ResponseNotJson(b) => !json_parses(body@) && b@ == body@,
                        TimerError::UnknownResponse(b) => json_parses(body@) && classify_spec(
                            has_nonnull_key(body@, "data"@),
                            has_nonnull_key(body@, "errors"@),
                        ) is None && b@ == body@,
                        _ => false,
                    }
                },
            },
    {
        if !json_check(body) {
            return Err(TimerError::ResponseNotJson(body.to_owned()));
        }
        let has_data = json_has_nonnull_key(body, "data");
        let has_errors = json_has_nonnull_key(body, "errors");
        match classify(has_data, has_errors) {
            Some(status) => {
                self.results.push(
                    QueryResult {
                        duration_nanos,
                        query: query.to_owned(),
                        response: body.to_owned(),
                        status,
                    },
                );
                Ok(())
            },
            None => Err(TimerError::UnknownResponse(body.to_owned())),
        }
    }

    /// Consumes the engine and yields the ranked report: successes
    /// before failures, each group by ascending duration, ties in
    /// execution order.
    pub fn results(self) -> (r: Vec<QueryResult>)
        ensures
            r@ == rank_spec(self.results@),
    {
        rank(self.results)
    }
}

} // verus!
