//! The console's static assets: which request paths may be served, which
//! file answers them, and with what media type.

use vstd::prelude::*;

use crate::console::api::{api_error_is, ApiError};
use crate::text::{hex_value, str_eq};
use vstd::string::StringSliceAdditionalSpecFns;

verus! {

/// The kind of failure opening the asset directory.
#[derive(Debug, Clone, Copy, PartialEq, Eq)]
pub enum AssetsErrorKind {
    /// The directory, or its `index.html`, is not there.
    NotFound,
}

/// Why the asset directory cannot be served.
#[derive(Debug, Clone, PartialEq, Eq)]
pub struct AssetsError {
    pub kind: AssetsErrorKind,
    pub message: String,
}

/// The directory assets are served from, canonical.
#[derive(Debug, Clone, PartialEq, Eq)]
pub struct Assets {
    root: String,
}

impl Assets {
    /// The asset directory.
    pub closed spec fn root_view(self) -> Seq<char> {
        self.root@
    }

    /// The assets under the canonical directory `root`, which must be a
    /// directory holding `index.html` (`root_is_dir`, `has_index`).
    pub fn open(root: String, root_is_dir: bool, has_index: bool) -> (res: Result<Self, AssetsError>)
        ensures
            root_is_dir && has_index ==> (res matches Ok(a) && a.root_view() == root@),
            !(root_is_dir && has_index) ==> (res matches Err(e) && e.kind == AssetsErrorKind::NotFound
                && e.message@ == "Frontend assets are missing; build ui and supply --assets."@),
    {
        if !root_is_dir || !has_index {
            return Err(
                AssetsError {
                    kind: AssetsErrorKind::NotFound,
                    message: "Frontend assets are missing; build ui and supply --assets.".to_owned(),
                },
            );
        }
        Ok(Assets { root })
    }

    /// The asset directory.
    pub fn root(&self) -> (res: &str)
        ensures
            res@ == self.root_view(),
    {
        self.root.as_str()
    }
}

/// The bytes a percent-encoded path decodes to, or `None` when a `%` is not
/// followed by two hexadecimal digits.
pub open spec fn percent_decoded(b: Seq<u8>) -> Option<Seq<u8>>
    decreases b.len(),
{
    if b.len() == 0 {
        Some(Seq::empty())
    } else if b[0] == 37 {
        if b.len() < 3 {
            None
        } else {
            match (hex_value(b[1] as char), hex_value(b[2] as char)) {
                (Some(hi), Some(lo)) => match percent_decoded(b.skip(3)) {
                    Some(rest) => Some(seq![(hi * 16 + lo) as u8] + rest),
                    None => None,
                },
                _ => None,
            }
        }
    } else {
        match percent_decoded(b.skip(1)) {
            Some(rest) => Some(seq![b[0]] + rest),
            None => None,
        }
    }
}

/// The text of UTF-8 bytes, or `None` when they are not UTF-8.
///
/// Calls `String::from_utf8`; the contract states what its documentation
/// promises: it succeeds exactly on valid UTF-8, giving the text the bytes
/// encode.
#[verifier::external_body]
fn utf8_text(bytes: Vec<u8>) -> (res: Option<String>)
    ensures
        res is Some <==> vstd::utf8::valid_utf8(bytes@),
        res matches Some(s) ==> s@ == vstd::utf8::decode_utf8(bytes@),
{
    String::from_utf8(bytes).ok()
}

/// The value of a byte read as a hexadecimal digit.
fn byte_hex(b: u8) -> (res: Option<u32>)
    ensures
        res == hex_value(b as char),
{
    crate::text::hex_digit(b as char)
}

/// Decodes a percent-encoded request path; `None` for a malformed escape or
/// bytes that are not UTF-8.
pub fn decode(path: &str) -> (res: Option<String>)
    ensures
        match percent_decoded(path.spec_bytes()) {
            Some(bytes) => if vstd::utf8::valid_utf8(bytes) {
                res matches Some(s) && s@ == vstd::utf8::decode_utf8(bytes)
            } else {
                res is None
            },
            None => res is None,
        },
{
    let b = path.as_bytes();
    let n = b.len();
    let mut out: Vec<u8> = Vec::new();
    let mut i: usize = 0;
    assert(b@.skip(0) == b@);
    assert(out@ + b@ == b@);
    proof {
        match percent_decoded(b@) {
            Some(r) => {
                assert(out@ + r == r);
            },
            None => {},
        }
    }
    while i < n
        invariant
            n == b@.len(),
            b@ == path.spec_bytes(),
            i <= n,
            percent_decoded(b@) == match percent_decoded(b@.skip(i as int)) {
                Some(rest) => Some(out@ + rest),
                None => None::<Seq<u8>>,
            },
        decreases n - i,
    {
        let ghost rest = b@.skip(i as int);
        assert(rest[0] == b@[i as int]);
        if b[i] == 37 {
            if n - i < 3 {
                assert(percent_decoded(rest) is None);
                return None;
            }
            let hi = byte_hex(b[i + 1]);
            let lo = byte_hex(b[i + 2]);
            assert(rest[1] == b@[i + 1] && rest[2] == b@[i + 2]);
            match (hi, lo) {
                (Some(h), Some(l)) => {
                    assert(rest.skip(3) == b@.skip(i + 3));
                    let ghost before = out@;
                    out.push((h * 16 + l) as u8);
                    proof {
                        match percent_decoded(b@.skip(i + 3)) {
                            Some(r) => {
                                assert(before + (seq![(h * 16 + l) as u8] + r) == out@ + r);
                            },
                            None => {},
                        }
                    }
                    i = i + 3;
                },
                _ => {
                    return None;
                },
            }
        } else {
            assert(rest.skip(1) == b@.skip(i + 1));
            let ghost before = out@;
            out.push(b[i]);
            proof {
                match percent_decoded(b@.skip(i + 1)) {
                    Some(r) => {
                        assert(before + (seq![b@[i as int]] + r) == out@ + r);
                    },
                    None => {},
                }
            }
            i = i + 1;
        }
    }
    proof {
        assert(b@.skip(i as int).len() == 0);
        assert(out@ + Seq::<u8>::empty() == out@);
    }
    utf8_text(out)
}

/// Where an asset request is answered from.
#[derive(Debug, Clone, PartialEq, Eq)]
pub enum AssetTarget {
    /// The console's `index.html`.
    Index,
    /// This path below the asset directory, without leading slashes.
    File(String),
}

/// `s` without its leading slashes.
pub open spec fn without_leading_slashes(s: Seq<char>) -> Seq<char>
    decreases s.len(),
{
    if s.len() > 0 && s[0] == '/' {
        without_leading_slashes(s.drop_first())
    } else {
        s
    }
}

/// Whether a `..` segment of `s` starts at position `i`.
pub open spec fn parent_at(s: Seq<char>, i: int) -> bool {
    0 <= i && i + 2 <= s.len() && s[i] == '.' && s[i + 1] == '.' && (i == 0 || s[i - 1] == '/')
        && (i + 2 == s.len() || s[i + 2] == '/')
}

/// Whether `s` has `..` as one of its `/`-separated segments.
pub open spec fn has_parent_segment(s: Seq<char>) -> bool {
    exists|i: int| #[trigger] parent_at(s, i)
}

/// Whether `s` starts with a `.` segment.
pub open spec fn starts_with_current_segment(s: Seq<char>) -> bool {
    s.len() > 0 && s[0] == '.' && (s.len() == 1 || s[1] == '/')
}

/// Whether a relative path names only plain components below the asset
/// directory, and holds neither a backslash nor a NUL.
pub open spec fn plain_relative(rel: Seq<char>, path: Seq<char>) -> bool {
    &&& !has_parent_segment(rel)
    &&& !starts_with_current_segment(rel)
    &&& !path.contains('\\')
    &&& !path.contains('\0')
}

/// Whether a decoded path is under the API prefix.
pub open spec fn is_api_path(path: Seq<char>) -> bool {
    path == "/api"@ || (path.len() >= 5 && path.take(5) == "/api/"@)
}

/// Decides where an asset request is answered from. Only GET and HEAD are
/// served; a path that does not decode is invalid; API paths are not
/// assets; a path that climbs out of the asset directory, or holds a
/// backslash or NUL, is refused. `/` is the index page.
pub fn plan_asset(read_only: bool, raw_path: &str) -> (res: Result<AssetTarget, ApiError>)
    ensures
        !read_only ==> (res matches Err(e) && e.code@ == "not_found"@),
        read_only ==> match percent_decoded(raw_path.spec_bytes()) {
            Some(bytes) if vstd::utf8::valid_utf8(bytes) => {
                let path = vstd::utf8::decode_utf8(bytes);
                let rel = without_leading_slashes(path);
                if is_api_path(path) {
                    res matches Err(e) && e.code@ == "not_found"@
                } else if !plain_relative(rel, path) {
                    res matches Err(e) && api_error_is(
                        e,
                        "invalid_request"@,
                        "Asset path traversal is forbidden."@,
                        false,
                    )
                } else if path == "/"@ {
                    res == Ok::<AssetTarget, ApiError>(AssetTarget::Index)
                } else {
                    res matches Ok(AssetTarget::File(f)) && f@ == rel
                }
            },
            _ => res matches Err(e) && api_error_is(
                e,
                "invalid_request"@,
                "Invalid asset path."@,
                false,
            ),
        },
{
    if !read_only {
        return Err(ApiError::missing());
    }
    let path = match decode(raw_path) {
        Some(p) => p,
        None => {
            return Err(ApiError::invalid("Invalid asset path."));
        },
    };
    let chars = crate::text::chars_of(path.as_str());
    let n = chars.len();
    let api_prefix = crate::text::chars_of("/api/");
    proof {
        reveal_strlit("/api/");
    }
    let api = str_eq(path.as_str(), "/api") || has_prefix(&chars, &api_prefix);
    if api {
        return Err(ApiError::missing());
    }
    let mut start: usize = 0;
    assert(chars@.skip(0) == chars@);
    while start < n && chars[start] == '/'
        invariant
            n == chars@.len(),
            start <= n,
            without_leading_slashes(chars@) == without_leading_slashes(chars@.skip(start as int)),
        decreases n - start,
    {
        assert(chars@.skip(start as int).drop_first() == chars@.skip(start + 1));
        start = start + 1;
    }
    let mut rel: Vec<char> = Vec::new();
    let mut m: usize = start;
    while m < n
        invariant
            n == chars@.len(),
            start <= m <= n,
            rel@ == chars@.subrange(start as int, m as int),
        decreases n - m,
    {
        rel.push(chars[m]);
        assert(chars@.subrange(start as int, m + 1) == chars@.subrange(start as int, m as int).push(
            chars@[m as int],
        ));
        m = m + 1;
    }
    assert(rel@ == chars@.skip(start as int));
    assert(without_leading_slashes(chars@) == rel@);
    let traversal = has_parent(&rel) || (rel.len() > 0 && rel[0] == '.' && (rel.len() == 1
        || rel[1] == '/')) || contains_char(&chars, '\\') || contains_char(&chars, '\0');
    if traversal {
        return Err(ApiError::invalid("Asset path traversal is forbidden."));
    }
    if str_eq(path.as_str(), "/") {
        return Ok(AssetTarget::Index);
    }
    Ok(AssetTarget::File(crate::text::string_of(&rel)))
}

/// Whether `c` occurs in `chars`.
fn contains_char(chars: &Vec<char>, c: char) -> (res: bool)
    ensures
        res == chars@.contains(c),
{
    let n = chars.len();
    for i in 0..n
        invariant
            n == chars@.len(),
            forall|k: int| 0 <= k < i ==> chars@[k] != c,
    {
        if chars[i] == c {
            assert(chars@[i as int] == c);
            return true;
        }
    }
    false
}

/// Whether `..` is one of the `/`-separated segments of `s`.
fn has_parent(s: &Vec<char>) -> (res: bool)
    ensures
        res == has_parent_segment(s@),
{
    let n = s.len();
    let mut i: usize = 0;
    while n >= 2 && i <= n - 2
        invariant
            n == s@.len(),
            forall|k: int| 0 <= k < i ==> !#[trigger] parent_at(s@, k),
        decreases n - i,
    {
        if s[i] == '.' && s[i + 1] == '.' && (i == 0 || s[i - 1] == '/') && (i + 2 == n || s[i + 2]
            == '/') {
            assert(parent_at(s@, i as int));
            return true;
        }
        i = i + 1;
    }
    assert forall|k: int| !#[trigger] parent_at(s@, k) by {
        if 0 <= k && k + 2 <= n {
            assert(k < i);
        }
    }
    false
}

/// The media type an asset is served with, by its extension.
pub open spec fn mime_of(ext: Option<Seq<char>>) -> Seq<char> {
    match ext {
        Some(e) => if e == "html"@ {
            "text/html; charset=utf-8"@
        } else if e == "js"@ || e == "mjs"@ {
            "text/javascript; charset=utf-8"@
        } else if e == "css"@ {
            "text/css; charset=utf-8"@
        } else if e == "json"@ {
            "application/json"@
        } else if e == "svg"@ {
            "image/svg+xml"@
        } else if e == "png"@ {
            "image/png"@
        } else if e == "ico"@ {
            "image/x-icon"@
        } else if e == "woff2"@ {
            "font/woff2"@
        } else {
            "application/octet-stream"@
        },
        None => "application/octet-stream"@,
    }
}

/// The media type of an asset follows the extension table: HTML, the two
/// JavaScript extensions, CSS, JSON, SVG, PNG, icons and WOFF2 each get
/// their own type, which no other extension gets, and every other
/// extension, or none, is served as bytes.
pub proof fn lemma_media_types_follow_the_extension_table(e: Seq<char>)
    ensures
        mime_of(Some(e)) == "text/html; charset=utf-8"@ <==> e == "html"@,
        mime_of(Some(e)) == "text/javascript; charset=utf-8"@ <==> (e == "js"@ || e == "mjs"@),
        mime_of(Some(e)) == "text/css; charset=utf-8"@ <==> e == "css"@,
        mime_of(Some(e)) == "application/json"@ <==> e == "json"@,
        mime_of(Some(e)) == "image/svg+xml"@ <==> e == "svg"@,
        mime_of(Some(e)) == "image/png"@ <==> e == "png"@,
        mime_of(Some(e)) == "image/x-icon"@ <==> e == "ico"@,
        mime_of(Some(e)) == "font/woff2"@ <==> e == "woff2"@,
        mime_of(Some(e)) == "application/octet-stream"@ <==> !(e == "html"@ || e == "js"@ || e
            == "mjs"@ || e == "css"@ || e == "json"@ || e == "svg"@ || e == "png"@ || e == "ico"@
            || e == "woff2"@),
        mime_of(None) == "application/octet-stream"@,
{
    reveal_strlit("text/html; charset=utf-8");
    reveal_strlit("text/javascript; charset=utf-8");
    reveal_strlit("text/css; charset=utf-8");
    reveal_strlit("application/json");
    reveal_strlit("image/svg+xml");
    reveal_strlit("image/png");
    reveal_strlit("image/x-icon");
    reveal_strlit("font/woff2");
    reveal_strlit("application/octet-stream");
    reveal_strlit("html");
    reveal_strlit("js");
    reveal_strlit("mjs");
    reveal_strlit("css");
    reveal_strlit("json");
    reveal_strlit("svg");
    reveal_strlit("png");
    reveal_strlit("ico");
    reveal_strlit("woff2");
    assert("text/html; charset=utf-8"@.len() == 24);
    assert("text/javascript; charset=utf-8"@.len() == 30);
    assert("text/css; charset=utf-8"@.len() == 23);
    assert("application/json"@.len() == 16);
    assert("image/svg+xml"@.len() == 13);
    assert("image/png"@.len() == 9);
    assert("image/x-icon"@.len() == 12);
    assert("font/woff2"@.len() == 10);
    assert("application/octet-stream"@.len() == 24);
    assert("text/html; charset=utf-8"@[0] != "application/octet-stream"@[0]);
    assert("html"@.len() == 4 && "html"@[0] == 'h');
    assert("json"@.len() == 4 && "json"@[0] == 'j');
    assert("js"@.len() == 2);
    assert("woff2"@.len() == 5);
    assert("mjs"@.len() == 3 && "mjs"@[0] == 'm');
    assert("css"@.len() == 3 && "css"@[0] == 'c');
    assert("svg"@.len() == 3 && "svg"@[0] == 's');
    assert("png"@.len() == 3 && "png"@[0] == 'p');
    assert("ico"@.len() == 3 && "ico"@[0] == 'i');
}

/// The media type for an extension.
pub fn mime_for(ext: Option<&str>) -> (res: &'static str)
    ensures
        res@ == mime_of(
            match ext {
                Some(e) => Some(e@),
                None => None,
            },
        ),
{
    match ext {
        Some(e) => {
            if str_eq(e, "html") {
                "text/html; charset=utf-8"
            } else if str_eq(e, "js") || str_eq(e, "mjs") {
                "text/javascript; charset=utf-8"
            } else if str_eq(e, "css") {
                "text/css; charset=utf-8"
            } else if str_eq(e, "json") {
                "application/json"
            } else if str_eq(e, "svg") {
                "image/svg+xml"
            } else if str_eq(e, "png") {
                "image/png"
            } else if str_eq(e, "ico") {
                "image/x-icon"
            } else if str_eq(e, "woff2") {
                "font/woff2"
            } else {
                "application/octet-stream"
            }
        },
        None => "application/octet-stream",
    }
}

/// Whether a resolved asset lies inside the asset directory: it is the
/// directory or lies below it, component by component.
pub open spec fn inside(canonical: Seq<char>, root: Seq<char>) -> bool {
    canonical == root || (root == "/"@ && canonical.len() > 0 && canonical[0] == '/') || (
    canonical.len() > root.len() && canonical.take(root.len() as int) == root && canonical[root.len() as int] == '/')
}

/// Whether `s` begins with `p`.
fn has_prefix(s: &Vec<char>, p: &Vec<char>) -> (res: bool)
    ensures
        res == (s@.len() >= p@.len() && s@.take(p@.len() as int) == p@),
{
    if s.len() < p.len() {
        return false;
    }
    let n = p.len();
    for i in 0..n
        invariant
            n == p@.len(),
            n <= s@.len(),
            forall|k: int| 0 <= k < i ==> s@[k] == p@[k],
    {
        if s[i] != p[i] {
            assert(s@.take(n as int)[i as int] != p@[i as int]);
            return false;
        }
    }
    assert(s@.take(n as int) == p@);
    true
}

/// Whether a resolved asset lies inside the asset directory.
pub fn inside_root(canonical: &str, root: &str) -> (res: bool)
    ensures
        res == inside(canonical@, root@),
{
    if str_eq(canonical, root) {
        return true;
    }
    let c = crate::text::chars_of(canonical);
    let r = crate::text::chars_of(root);
    if str_eq(root, "/") {
        proof {
            reveal_strlit("/");
            if c@.len() > 1 {
                assert(c@.take(1)[0] == c@[0]);
            }
        }
        return c.len() > 0 && c[0] == '/';
    }
    if c.len() <= r.len() {
        return false;
    }
    has_prefix(&c, &r) && c[r.len()] == '/'
}

/// Where the last `/`-separated segment of `s` starts.
pub open spec fn last_segment_start(s: Seq<char>) -> nat
    decreases s.len(),
{
    if s.len() == 0 {
        0
    } else if s.last() == '/' {
        s.len()
    } else {
        last_segment_start(s.drop_last())
    }
}

/// The last component of a path, as `Path::file_name` gives it: trailing
/// slashes and `.` segments do not count.
pub open spec fn file_name_of(s: Seq<char>) -> Option<Seq<char>>
    decreases s.len(),
{
    if s.len() == 0 {
        None
    } else if s.last() == '/' {
        file_name_of(s.drop_last())
    } else {
        let seg = s.skip(last_segment_start(s) as int);
        if seg == "."@ {
            file_name_of(s.drop_last())
        } else {
            Some(seg)
        }
    }
}

/// Where the last `.` of `s` is, or -1.
pub open spec fn last_dot(s: Seq<char>) -> int
    decreases s.len(),
{
    if s.len() == 0 {
        -1
    } else if s.last() == '.' {
        s.len() - 1
    } else {
        last_dot(s.drop_last())
    }
}

/// The extension of a file name: the text after its last dot, unless that
/// dot starts the name.
pub open spec fn extension_of(name: Seq<char>) -> Option<Seq<char>> {
    if last_dot(name) > 0 {
        Some(name.skip(last_dot(name) + 1))
    } else {
        None
    }
}

/// The extension of a path's last component, as `Path::extension` gives it.
pub open spec fn path_extension(s: Seq<char>) -> Option<Seq<char>> {
    match file_name_of(s) {
        Some(name) => if name == ".."@ {
            None
        } else {
            extension_of(name)
        },
        None => None,
    }
}

proof fn lemma_last_segment_start(s: Seq<char>)
    ensures
        last_segment_start(s) <= s.len(),
        forall|k: int| last_segment_start(s) <= k < s.len() ==> s[k] != '/',
        last_segment_start(s) > 0 ==> s[last_segment_start(s) - 1] == '/',
    decreases s.len(),
{
    if s.len() > 0 && s.last() != '/' {
        lemma_last_segment_start(s.drop_last());
        assert forall|k: int| last_segment_start(s) <= k < s.len() implies s[k] != '/' by {
            if k < s.len() - 1 {
                assert(s.drop_last()[k] == s[k]);
            }
        }
        if last_segment_start(s) > 0 {
            assert(s.drop_last()[last_segment_start(s) - 1] == s[last_segment_start(s) - 1]);
        }
    }
}

/// The last component of a path.
fn file_name(chars: &Vec<char>, len: usize) -> (res: Option<Vec<char>>)
    requires
        len <= chars@.len(),
    ensures
        match file_name_of(chars@.take(len as int)) {
            Some(name) => res matches Some(v) && v@ == name,
            None => res is None,
        },
    decreases len,
{
    if len == 0 {
        return None;
    }
    let ghost s = chars@.take(len as int);
    assert(s.drop_last() == chars@.take(len - 1));
    if chars[len - 1] == '/' {
        return file_name(chars, len - 1);
    }
    let mut start = len;
    assert(s.take(len as int) == s);
    while start > 0 && chars[start - 1] != '/'
        invariant
            start <= len <= chars@.len(),
            s == chars@.take(len as int),
            forall|k: int| start <= k < len ==> chars@[k] != '/',
            last_segment_start(s) == last_segment_start(s.take(start as int)),
        decreases start,
    {
        assert(s.take(start as int).drop_last() == s.take(start - 1));
        start = start - 1;
    }
    proof {
        if start > 0 {
            assert(s.take(start as int).last() == '/');
        } else {
            assert(s.take(0) == Seq::<char>::empty());
        }
        assert(last_segment_start(s) == start);
        assert(s.last() != '/');
    }
    let dot_only = len - start == 1 && chars[start] == '.';
    proof {
        reveal_strlit(".");
        let seg = s.skip(start as int);
        if dot_only {
            assert(seg == seq!['.']);
            assert(seg == "."@);
            assert(file_name_of(s) == file_name_of(s.drop_last()));
        } else if seg.len() == 1 {
            assert(seg[0] != '.');
        }
    }
    if dot_only {
        return file_name(chars, len - 1);
    }
    let mut out: Vec<char> = Vec::new();
    let mut k = start;
    while k < len
        invariant
            start <= k <= len <= chars@.len(),
            out@ == chars@.subrange(start as int, k as int),
        decreases len - k,
    {
        out.push(chars[k]);
        assert(chars@.subrange(start as int, k + 1) == chars@.subrange(start as int, k as int).push(
            chars@[k as int],
        ));
        k = k + 1;
    }
    assert(out@ == s.skip(start as int));
    Some(out)
}

/// The extension of a path's last component, if it has one.
pub fn extension(path: &str) -> (res: Option<String>)
    ensures
        match path_extension(path@) {
            Some(e) => res matches Some(x) && x@ == e,
            None => res is None,
        },
{
    let chars = crate::text::chars_of(path);
    assert(chars@.take(chars@.len() as int) == chars@);
    let name = match file_name(&chars, chars.len()) {
        Some(n) => n,
        None => {
            return None;
        },
    };
    let m = name.len();
    proof {
        reveal_strlit("..");
    }
    if m == 2 && name[0] == '.' && name[1] == '.' {
        assert(name@ == ".."@);
        return None;
    }
    assert(name@ != ".."@ || (m == 2 && name@[0] == '.' && name@[1] == '.'));
    let mut d = m;
    assert(name@.take(m as int) == name@);
    while d > 0 && name[d - 1] != '.'
        invariant
            d <= m == name@.len(),
            last_dot(name@) == last_dot(name@.take(d as int)),
        decreases d,
    {
        assert(name@.take(d as int).drop_last() == name@.take(d - 1));
        d = d - 1;
    }
    proof {
        if d > 0 {
            assert(name@.take(d as int).last() == '.');
        }
    }
    if d <= 1 {
        return None;
    }
    let mut out: Vec<char> = Vec::new();
    let mut k = d;
    while k < m
        invariant
            d <= k <= m == name@.len(),
            out@ == name@.subrange(d as int, k as int),
        decreases m - k,
    {
        out.push(name[k]);
        assert(name@.subrange(d as int, k + 1) == name@.subrange(d as int, k as int).push(
            name@[k as int],
        ));
        k = k + 1;
    }
    assert(out@ == name@.skip(d as int));
    Some(crate::text::string_of(&out))
}

/// The refusal of an asset that resolves outside the asset directory.
pub fn outside_root_error() -> (res: ApiError)
    ensures
        api_error_is(
            res,
            "forbidden"@,
            "Assets must remain inside the configured asset directory."@,
            false,
        ),
{
    ApiError::new("forbidden", "Assets must remain inside the configured asset directory.", false)
}

/// What an asset request is answered with once its file is read.
#[derive(Debug, Clone, PartialEq, Eq)]
pub struct AssetReply {
    /// The Content-Type header.
    pub content_type: &'static str,
    /// The Content-Length header: the size of the file.
    pub content_length: usize,
    /// The body: the file for GET, nothing for HEAD.
    pub body: Vec<u8>,
}

/// The answer to a GET or HEAD of the file at `canonical` holding `bytes`:
/// its media type by extension and its size, with the file as the body for
/// GET and an empty body for HEAD.
pub fn asset_reply(head: bool, canonical: &str, bytes: Vec<u8>) -> (res: AssetReply)
    ensures
        res.content_type@ == mime_of(path_extension(canonical@)),
        res.content_length == bytes@.len(),
        head ==> res.body@.len() == 0,
        !head ==> res.body@ == bytes@,
{
    let ext = extension(canonical);
    let content_type = match &ext {
        Some(e) => mime_for(Some(e.as_str())),
        None => mime_for(None),
    };
    let content_length = bytes.len();
    let body = if head {
        Vec::new()
    } else {
        bytes
    };
    AssetReply { content_type, content_length, body }
}

/// Where the first `,` of `s` is, or its length.
pub open spec fn first_comma(s: Seq<char>) -> nat
    decreases s.len(),
{
    if s.len() == 0 {
        0
    } else if s[0] == ',' {
        0
    } else {
        1 + first_comma(s.drop_first())
    }
}

/// Whether a media range names HTML.
pub open spec fn names_html(part: Seq<char>) -> bool {
    let t = crate::text::trimmed(part);
    t.len() >= 9 && t.take(9) == "text/html"@
}

/// Whether some comma-separated part of an Accept header names HTML.
pub open spec fn accepts_html_of(s: Seq<char>) -> bool
    decreases s.len(),
{
    let c = first_comma(s);
    if c >= s.len() {
        names_html(s)
    } else {
        names_html(s.take(c as int)) || accepts_html_of(s.skip(c + 1int))
    }
}

proof fn lemma_first_comma(s: Seq<char>)
    ensures
        first_comma(s) <= s.len(),
        forall|k: int| 0 <= k < first_comma(s) ==> s[k] != ',',
        first_comma(s) < s.len() ==> s[first_comma(s) as int] == ',',
    decreases s.len(),
{
    if s.len() > 0 && s[0] != ',' {
        lemma_first_comma(s.drop_first());
        assert forall|k: int| 0 <= k < first_comma(s) implies s[k] != ',' by {
            if k > 0 {
                assert(s.drop_first()[k - 1] == s[k]);
            }
        }
    }
}

/// Whether a media range names HTML.
fn part_names_html(part: &Vec<char>) -> (res: bool)
    ensures
        res == names_html(part@),
{
    let text = crate::text::string_of(part);
    let t = crate::text::trim_white(text.as_str());
    let tc = crate::text::chars_of(t.as_str());
    let html = crate::text::chars_of("text/html");
    proof {
        reveal_strlit("text/html");
    }
    has_prefix(&tc, &html)
}

/// Whether an Accept header asks for HTML in any of its parts.
pub fn accepts_html(accept: &str) -> (res: bool)
    ensures
        res == accepts_html_of(accept@),
    decreases accept@.len(),
{
    let chars = crate::text::chars_of(accept);
    let n = chars.len();
    let mut c: usize = 0;
    while c < n && chars[c] != ','
        invariant
            n == chars@.len(),
            c <= n,
            forall|k: int| 0 <= k < c ==> chars@[k] != ',',
        decreases n - c,
    {
        c = c + 1;
    }
    proof {
        lemma_first_comma(chars@);
        if first_comma(chars@) < c {
            assert(chars@[first_comma(chars@) as int] == ',');
        }
        if c < first_comma(chars@) {
            assert(chars@[c as int] != ',');
        }
        assert(first_comma(chars@) == c);
    }
    let mut part: Vec<char> = Vec::new();
    for k in 0..c
        invariant
            c <= n == chars@.len(),
            part@ == chars@.take(k as int),
    {
        part.push(chars[k]);
        assert(chars@.take(k + 1) == chars@.take(k as int).push(chars@[k as int]));
    }
    if c >= n {
        assert(chars@.take(c as int) == chars@);
        return part_names_html(&part);
    }
    if part_names_html(&part) {
        return true;
    }
    let mut rest: Vec<char> = Vec::new();
    for k in c + 1..n
        invariant
            c < n == chars@.len(),
            rest@ == chars@.subrange(c + 1, k as int),
    {
        rest.push(chars[k]);
        assert(chars@.subrange(c + 1, k + 1) == chars@.subrange(c + 1, k as int).push(
            chars@[k as int],
        ));
    }
    assert(rest@ == chars@.skip(c + 1));
    let tail = crate::text::string_of(&rest);
    accepts_html(tail.as_str())
}

/// Whether a request for a missing file without an extension is answered
/// with the index page, as a client-side route: when the client accepts
/// HTML.
pub fn use_index_fallback(exists: bool, relative: &str, accept: Option<&str>) -> (res: bool)
    ensures
        res == (!exists && path_extension(relative@) is None && (accept matches Some(a)
            && accepts_html_of(a@))),
{
    if exists {
        return false;
    }
    if extension(relative).is_some() {
        return false;
    }
    match accept {
        Some(a) => accepts_html(a),
        None => false,
    }
}

} // verus!
