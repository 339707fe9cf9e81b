//! The console's request guard: only its own loopback host and origin may
//! call it, and mutations need the session token and a JSON body.

use vstd::prelude::*;

use crate::console::api::{api_error_is, status_of_code, ApiError};
use crate::text::{concat, push_str_chars, str_eq, trim_white, trimmed};

verus! {

/// The host, origin and session token requests are checked against.
#[derive(Debug, Clone, PartialEq, Eq)]
pub struct Security {
    pub host: String,
    pub origin: String,
    pub csrf: String,
}

/// Whether `c` is a lowercase hexadecimal digit.
pub open spec fn lower_hex(c: char) -> bool {
    ('0' <= c && c <= '9') || ('a' <= c && c <= 'f')
}

/// A fresh random version 4 UUID in its simple form.
///
/// Calls `uuid::Uuid::new_v4` and formats it with `simple()`. The value is
/// random; the contract states what its source shows of every outcome: 32
/// lowercase hexadecimal digits.
#[verifier::external_body]
fn random_uuid_simple() -> (res: String)
    ensures
        res@.len() == 32,
        forall|i: int| 0 <= i < res@.len() ==> lower_hex(#[trigger] res@[i]),
{
    uuid::Uuid::new_v4().simple().to_string()
}

impl Security {
    /// The guard for a console served at `host`: its origin is
    /// `http://<host>`, and its session token two fresh random UUIDs, 64
    /// lowercase hexadecimal digits.
    pub fn new(host: String) -> (res: Self)
        ensures
            res.host == host,
            res.origin@ == "http://"@ + host@,
            res.csrf@.len() == 64,
            forall|i: int| 0 <= i < res.csrf@.len() ==> lower_hex(#[trigger] res.csrf@[i]),
    {
        let origin = concat("http://", host.as_str());
        let a = random_uuid_simple();
        let b = random_uuid_simple();
        let mut csrf = a;
        push_str_chars(&mut csrf, b.as_str());
        Security { host, origin, csrf }
    }
}

/// What the guard reads of a request.
#[derive(Debug, Clone, PartialEq, Eq)]
pub struct RequestHeaders {
    /// Whether the method is GET or HEAD.
    pub read_only: bool,
    /// The Host header, when present and text.
    pub host: Option<String>,
    /// The raw Origin header, when present.
    pub origin: Option<Vec<u8>>,
    /// The raw Sec-Fetch-Site header, when present.
    pub sec_fetch_site: Option<Vec<u8>>,
    /// The raw X-Sift-Csrf header, when present.
    pub csrf: Option<Vec<u8>>,
    /// The Content-Type header, when present and text.
    pub content_type: Option<String>,
}

/// The UTF-8 bytes of a string.
pub open spec fn bytes_of(s: Seq<char>) -> Seq<u8> {
    vstd::utf8::encode_utf8(s)
}

/// Whether a header is present with other bytes than `expected`.
pub open spec fn present_and_not(h: Option<Vec<u8>>, expected: Seq<u8>) -> bool {
    h matches Some(v) && v@ != expected
}

/// Whether a header is missing or has other bytes than `expected`.
pub open spec fn missing_or_not(h: Option<Vec<u8>>, expected: Seq<u8>) -> bool {
    match h {
        Some(v) => v@ != expected,
        None => true,
    }
}

/// The part of `s` before its first `;`.
pub open spec fn before_semicolon(s: Seq<char>) -> Seq<char>
    decreases s.len(),
{
    if s.len() == 0 {
        s
    } else if s[0] == ';' {
        Seq::empty()
    } else {
        seq![s[0]] + before_semicolon(s.drop_first())
    }
}

/// The media type of a Content-Type: the part before any `;`, trimmed.
pub open spec fn media_type(content_type: Seq<char>) -> Seq<char> {
    trimmed(before_semicolon(content_type))
}

/// Requests must name the console's host, must not come from another site,
/// and a mutation must carry the console's origin, its session token and a
/// JSON body; the first rule broken decides the refusal.
pub open spec fn refusal_of(req: RequestHeaders, config: Security) -> Option<(Seq<char>, Seq<char>)> {
    if !(req.host matches Some(h) && h@ == config.host@) {
        Some(("invalid_host"@, "Host must match the configured loopback address."@))
    } else if present_and_not(req.origin, bytes_of(config.origin@)) || (req.sec_fetch_site matches Some(
        v,
    ) && (v@ == bytes_of("cross-site"@) || v@ == bytes_of("same-site"@))) {
        Some(("cross_origin"@, "Requests must come from the console origin."@))
    } else if !req.read_only {
        if missing_or_not(req.origin, bytes_of(config.origin@)) {
            Some(("cross_origin"@, "Mutations require the console Origin."@))
        } else if missing_or_not(req.csrf, bytes_of(config.csrf@)) {
            Some(("invalid_csrf"@, "Refresh the console session before making this request."@))
        } else if !(req.content_type matches Some(t) && media_type(t@) == "application/json"@) {
            Some(("unsupported_media_type"@, "Mutations require application/json."@))
        } else {
            None
        }
    } else {
        None
    }
}

/// Whether two byte strings are equal.
fn bytes_eq(a: &[u8], b: &[u8]) -> (res: bool)
    ensures
        res == (a@ == b@),
{
    if a.len() != b.len() {
        return false;
    }
    let n = a.len();
    for i in 0..n
        invariant
            n == a@.len(),
            n == b@.len(),
            forall|k: int| 0 <= k < i ==> a@[k] == b@[k],
    {
        if a[i] != b[i] {
            return false;
        }
    }
    assert(a@ == b@);
    true
}

/// The part of `s` before its first `;`.
fn cut_at_semicolon(s: &str) -> (res: String)
    ensures
        res@ == before_semicolon(s@),
{
    let chars = crate::text::chars_of(s);
    let n = chars.len();
    let mut out: Vec<char> = Vec::new();
    let mut i: usize = 0;
    assert(chars@.skip(0) == chars@);
    assert(out@ + before_semicolon(chars@) == before_semicolon(chars@));
    while i < n && chars[i] != ';'
        invariant
            n == chars@.len(),
            chars@ == s@,
            i <= n,
            out@ == chars@.take(i as int),
            forall|k: int| 0 <= k < i ==> chars@[k] != ';',
            before_semicolon(chars@) == out@ + before_semicolon(chars@.skip(i as int)),
        decreases n - i,
    {
        let ghost rest = chars@.skip(i as int);
        assert(rest.drop_first() == chars@.skip(i + 1));
        out.push(chars[i]);
        assert(chars@.take(i + 1) == chars@.take(i as int).push(chars@[i as int]));
        assert(out@ + before_semicolon(chars@.skip(i + 1)) == chars@.take(i as int) + (seq![
            chars@[i as int],
        ] + before_semicolon(chars@.skip(i + 1))));
        i = i + 1;
    }
    proof {
        let rest = chars@.skip(i as int);
        if i < n {
            assert(rest[0] == ';');
        } else {
            assert(rest.len() == 0);
        }
        assert(out@ + Seq::<char>::empty() == out@);
    }
    crate::text::string_of(&out)
}

/// Whether an optional header is present with other bytes than `expected`.
fn header_differs(h: &Option<Vec<u8>>, expected: &str) -> (res: bool)
    ensures
        res == present_and_not(*h, bytes_of(expected@)),
{
    match h {
        Some(v) => !bytes_eq(v.as_slice(), expected.as_bytes()),
        None => false,
    }
}

/// Whether an optional header is missing or has other bytes than
/// `expected`.
fn header_missing_or_differs(h: &Option<Vec<u8>>, expected: &str) -> (res: bool)
    ensures
        res == missing_or_not(*h, bytes_of(expected@)),
{
    match h {
        Some(v) => !bytes_eq(v.as_slice(), expected.as_bytes()),
        None => true,
    }
}

/// Checks a request against the guard's rules, giving the refusal for the
/// first rule it breaks.
pub fn guard_refusal(req: &RequestHeaders, config: &Security) -> (res: Option<ApiError>)
    ensures
        match refusal_of(*req, *config) {
            Some((code, message)) => res matches Some(e) && api_error_is(e, code, message, false),
            None => res is None,
        },
{
    let host_ok = match &req.host {
        Some(h) => str_eq(h.as_str(), config.host.as_str()),
        None => false,
    };
    if !host_ok {
        return Some(
            ApiError::new("invalid_host", "Host must match the configured loopback address.", false),
        );
    }
    let other_site = match &req.sec_fetch_site {
        Some(v) => bytes_eq(v.as_slice(), "cross-site".as_bytes()) || bytes_eq(
            v.as_slice(),
            "same-site".as_bytes(),
        ),
        None => false,
    };
    if header_differs(&req.origin, config.origin.as_str()) || other_site {
        return Some(
            ApiError::new("cross_origin", "Requests must come from the console origin.", false),
        );
    }
    if !req.read_only {
        if header_missing_or_differs(&req.origin, config.origin.as_str()) {
            return Some(ApiError::new("cross_origin", "Mutations require the console Origin.", false));
        }
        if header_missing_or_differs(&req.csrf, config.csrf.as_str()) {
            return Some(
                ApiError::new(
                    "invalid_csrf",
                    "Refresh the console session before making this request.",
                    false,
                ),
            );
        }
        let json = match &req.content_type {
            Some(t) => {
                let cut = cut_at_semicolon(t.as_str());
                let media = trim_white(cut.as_str());
                str_eq(media.as_str(), "application/json")
            },
            None => false,
        };
        if !json {
            return Some(
                ApiError::new("unsupported_media_type", "Mutations require application/json.", false),
            );
        }
    }
    None
}

/// The refusal of a mutation whose body is larger than the daemon frame
/// limit.
pub fn body_too_large() -> (res: ApiError)
    ensures
        api_error_is(res, "request_too_large"@, "JSON requests are limited to 1 MiB."@, false),
{
    ApiError::new("request_too_large", "JSON requests are limited to 1 MiB.", false)
}

/// The response a handler's 422 (a body that does not match the endpoint)
/// is replaced with.
pub fn unprocessable_replacement() -> (res: ApiError)
    ensures
        api_error_is(
            res,
            "invalid_request"@,
            "The JSON request does not match the endpoint contract."@,
            false,
        ),
{
    ApiError::invalid("The JSON request does not match the endpoint contract.")
}

/// Whether a response's Content-Type marks JSON, which must not be cached.
pub fn is_json_response(content_type: &[u8]) -> (res: bool)
    ensures
        res == (content_type@.len() >= 16 && content_type@.take(16) == bytes_of(
            "application/json"@,
        )),
{
    let prefix = "application/json".as_bytes();
    proof {
        reveal_strlit("application/json");
        vstd::utf8::is_ascii_chars_encode_utf8("application/json"@);
    }
    assert(prefix@.len() == 16);
    if content_type.len() < 16 {
        return false;
    }
    for i in 0..16
        invariant
            prefix@.len() == 16,
            prefix@ == bytes_of("application/json"@),
            content_type@.len() >= 16,
            forall|k: int| 0 <= k < i ==> content_type@[k] == prefix@[k],
    {
        if content_type[i] != prefix[i] {
            assert(content_type@.take(16)[i as int] != prefix@[i as int]);
            return false;
        }
    }
    assert(content_type@.take(16) == prefix@);
    true
}

/// The headers every response carries: a strict content security policy,
/// no content sniffing, and no referrer.
pub fn security_headers() -> (res: Vec<(&'static str, &'static str)>)
    ensures
        are_security_headers(res@),
        res@.len() == 3,
        res@[0].0@ == "content-security-policy"@,
        res@[0].1@ == "default-src 'self'; script-src 'self'; style-src 'self'; img-src 'self' data:; connect-src 'self'; object-src 'none'; base-uri 'none'; frame-ancestors 'none'"@,
        res@[1].0@ == "x-content-type-options"@ && res@[1].1@ == "nosniff"@,
        res@[2].0@ == "referrer-policy"@ && res@[2].1@ == "no-referrer"@,
{
    let mut v: Vec<(&'static str, &'static str)> = Vec::new();
    v.push(
        (
            "content-security-policy",
            "default-src 'self'; script-src 'self'; style-src 'self'; img-src 'self' data:; connect-src 'self'; object-src 'none'; base-uri 'none'; frame-ancestors 'none'",
        ),
    );
    v.push(("x-content-type-options", "nosniff"));
    v.push(("referrer-policy", "no-referrer"));
    v
}

/// The headers every response of the console carries.
pub open spec fn are_security_headers(h: Seq<(&'static str, &'static str)>) -> bool {
    &&& h.len() == 3
    &&& h[0].0@ == "content-security-policy"@
    &&& h[0].1@
        == "default-src 'self'; script-src 'self'; style-src 'self'; img-src 'self' data:; connect-src 'self'; object-src 'none'; base-uri 'none'; frame-ancestors 'none'"@
    &&& h[1].0@ == "x-content-type-options"@ && h[1].1@ == "nosniff"@
    &&& h[2].0@ == "referrer-policy"@ && h[2].1@ == "no-referrer"@
}

/// The guard's moves, without what they carry.
#[derive(Debug, Clone, Copy, PartialEq, Eq, Structural)]
pub enum GuardMove {
    /// Refuse under a broken rule.
    Refuse,
    /// Read the mutation's body.
    ReadBody,
    /// Run the handler.
    RunHandler,
    /// Refuse a body over the limit.
    RefuseOversized,
}

/// The next thing the guard does with a request.
#[derive(Debug, Clone, PartialEq, Eq)]
pub enum GuardAction {
    /// Answer with this refusal, without running the handler, then seal the
    /// response with [`seal_response`].
    Refuse(ApiError),
    /// Read the mutation's body, at most `MAX_REQUEST_BYTES`, then ask
    /// [`guard_after_body`].
    ReadBody,
    /// Run the handler, then seal its response with [`seal_response`].
    RunHandler,
    /// Answer with this refusal, without running the handler, carrying the
    /// [`security_headers`] and nothing else.
    RefuseOversized(ApiError),
}

/// The move an action makes.
pub open spec fn move_of(a: GuardAction) -> GuardMove {
    match a {
        GuardAction::Refuse(_) => GuardMove::Refuse,
        GuardAction::ReadBody => GuardMove::ReadBody,
        GuardAction::RunHandler => GuardMove::RunHandler,
        GuardAction::RefuseOversized(_) => GuardMove::RefuseOversized,
    }
}

/// The guard's first move: refuse when a rule is broken, else run the
/// handler for a read and read the body of a mutation.
pub open spec fn begin_move(req: RequestHeaders, config: Security) -> GuardMove {
    if refusal_of(req, config) is Some {
        GuardMove::Refuse
    } else if req.read_only {
        GuardMove::RunHandler
    } else {
        GuardMove::ReadBody
    }
}

/// The guard's move once a mutation's body was read: run the handler when
/// it fit the limit.
pub open spec fn body_move(within_limit: bool) -> GuardMove {
    if within_limit {
        GuardMove::RunHandler
    } else {
        GuardMove::RefuseOversized
    }
}

/// Whether the handler runs for a request whose body, for a mutation, fit
/// the limit exactly when `within_limit`.
pub open spec fn handler_runs(req: RequestHeaders, config: Security, within_limit: bool) -> bool {
    begin_move(req, config) == GuardMove::RunHandler || (begin_move(req, config)
        == GuardMove::ReadBody && body_move(within_limit) == GuardMove::RunHandler)
}

/// The guard's first decision on a request.
pub fn guard_begin(req: &RequestHeaders, config: &Security) -> (res: GuardAction)
    ensures
        move_of(res) == begin_move(*req, *config),
        match refusal_of(*req, *config) {
            Some((code, message)) => res matches GuardAction::Refuse(e) && api_error_is(
                e,
                code,
                message,
                false,
            ),
            None => true,
        },
{
    match guard_refusal(req, config) {
        Some(e) => GuardAction::Refuse(e),
        None => if req.read_only {
            GuardAction::RunHandler
        } else {
            GuardAction::ReadBody
        },
    }
}

/// The guard's decision once a mutation's body was read, `within_limit`
/// telling whether it fit `MAX_REQUEST_BYTES`.
pub fn guard_after_body(within_limit: bool) -> (res: GuardAction)
    ensures
        move_of(res) == body_move(within_limit),
        !within_limit ==> (res matches GuardAction::RefuseOversized(e) && api_error_is(
            e,
            "request_too_large"@,
            "JSON requests are limited to 1 MiB."@,
            false,
        )),
{
    if within_limit {
        GuardAction::RunHandler
    } else {
        GuardAction::RefuseOversized(body_too_large())
    }
}

/// The handler runs exactly when no rule refuses the request and, for a
/// mutation, its body fits the limit.
pub proof fn lemma_handler_runs_only_when_nothing_refuses(
    req: RequestHeaders,
    config: Security,
    within_limit: bool,
)
    ensures
        handler_runs(req, config, within_limit) <==> (refusal_of(req, config) is None && (
        req.read_only || within_limit)),
{
}

/// Each refusal of the guard is answered with the status its rule calls
/// for: a foreign host is a bad request (400), a foreign origin or a
/// missing session token is forbidden (403), a mutation without JSON is an
/// unsupported media type (415), and a body over the limit is too large
/// (413).
pub proof fn lemma_refusals_carry_their_status(req: RequestHeaders, config: Security)
    ensures
        !(req.host matches Some(h) && h@ == config.host@) ==> (refusal_of(req, config) matches Some(
            (code, _),
        ) && status_of_code(code) == 400),
        refusal_of(req, config) matches Some((code, _)) ==> (status_of_code(code) == 400
            || status_of_code(code) == 403 || status_of_code(code) == 415),
        refusal_of(req, config) matches Some((code, _)) ==> (code == "invalid_host"@
            ==> status_of_code(code) == 400) && (code == "cross_origin"@ || code == "invalid_csrf"@
            ==> status_of_code(code) == 403) && (code == "unsupported_media_type"@ ==> status_of_code(
            code,
        ) == 415),
        status_of_code("request_too_large"@) == 413,
{
    reveal_strlit("invalid_host");
    reveal_strlit("cross_origin");
    reveal_strlit("invalid_csrf");
    reveal_strlit("unsupported_media_type");
    reveal_strlit("request_too_large");
    reveal_strlit("not_found");
    reveal_strlit("symbol_not_found");
    reveal_strlit("invalid_request");
    reveal_strlit("invalid_registration");
    reveal_strlit("forbidden");
    reveal_strlit("duplicate_store");
    reveal_strlit("index_in_progress");
    reveal_strlit("symbol_ambiguous");
    reveal_strlit("store_stale");
    reveal_strlit("timeout");
    assert("invalid_host"@.len() == 12 && "invalid_host"@[8] == 'h' && "invalid_host"@[0] == 'i');
    assert("cross_origin"@.len() == 12 && "cross_origin"@[0] == 'c');
    assert("invalid_csrf"@.len() == 12 && "invalid_csrf"@[8] == 'c' && "invalid_csrf"@[0] == 'i');
    assert("unsupported_media_type"@.len() == 22);
    assert("request_too_large"@.len() == 17 && "request_too_large"@[0] == 'r');
    assert("not_found"@.len() == 9);
    assert("symbol_not_found"@.len() == 16);
    assert("invalid_request"@.len() == 15);
    assert("invalid_registration"@.len() == 20);
    assert("forbidden"@.len() == 9);
    assert("duplicate_store"@.len() == 15);
    assert("index_in_progress"@.len() == 17 && "index_in_progress"@[0] == 'i');
    assert("symbol_ambiguous"@.len() == 16);
    assert("store_stale"@.len() == 11);
    assert("timeout"@.len() == 7);
}

/// What the guard does to a response before it leaves.
#[derive(Debug, Clone, PartialEq, Eq)]
pub struct Sealing {
    /// The error the response is replaced with, if any.
    pub replace_with: Option<ApiError>,
    /// Whether `Cache-Control: no-store` is set.
    pub no_store: bool,
    /// The headers set on it.
    pub headers: Vec<(&'static str, &'static str)>,
}

/// Seals a response of status `status` and Content-Type `content_type`:
/// a 422 is replaced with an `invalid_request` error, which is JSON; JSON
/// is not cached; and every response carries the security headers.
pub fn seal_response(status: u16, content_type: Option<&[u8]>) -> (res: Sealing)
    ensures
        status == 422 ==> (res.replace_with matches Some(e) && api_error_is(
            e,
            "invalid_request"@,
            "The JSON request does not match the endpoint contract."@,
            false,
        )),
        status != 422 ==> res.replace_with is None,
        res.no_store == (status == 422 || (content_type matches Some(t) && t@.len() >= 16
            && t@.take(16) == bytes_of("application/json"@))),
        are_security_headers(res.headers@),
{
    let replace_with = if status == 422 {
        Some(unprocessable_replacement())
    } else {
        None
    };
    let no_store = status == 422 || match content_type {
        Some(t) => is_json_response(t),
        None => false,
    };
    Sealing { replace_with, no_store, headers: security_headers() }
}

} // verus!
