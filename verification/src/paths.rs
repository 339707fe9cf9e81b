//! Where a store's daemon keeps its socket and lock, and the permission
//! rules those places must meet.
//!
//! Paths are held as their text. The caller resolves the store directory to
//! its canonical form and reads the environment; this module decides.

use vstd::prelude::*;

use crate::protocol::DaemonError;
use vstd::string::StringSliceAdditionalSpecFns;
use crate::text::concat;

verus! {

/// The lowercase hexadecimal BLAKE3 digest of `data`.
pub uninterp spec fn blake3_hex_of(data: Seq<u8>) -> Seq<char>;

/// Whether `c` is a lowercase hexadecimal digit.
pub open spec fn is_lower_hex(c: char) -> bool {
    ('0' <= c && c <= '9') || ('a' <= c && c <= 'f')
}

/// The BLAKE3 digest of `data` in hexadecimal.
///
/// Calls `blake3::hash` and `Hash::to_hex`. The contract names the digest
/// and states what `to_hex` shows in its source: 64 characters, each a
/// lowercase hexadecimal digit. The digest itself is not stated.
#[verifier::external_body]
fn blake3_hex(data: &[u8]) -> (res: String)
    ensures
        res@ == blake3_hex_of(data@),
        res@.len() == 64,
        forall|i: int| 0 <= i < res@.len() ==> is_lower_hex(#[trigger] res@[i]),
{
    blake3::hash(data).to_hex().as_str().to_owned()
}

/// `base` with the relative `component` appended, as `Path::join` appends
/// it: a separator goes between them unless `base` is empty or already ends
/// with one.
pub open spec fn joined(base: Seq<char>, component: Seq<char>) -> Seq<char> {
    if base.len() == 0 || base.last() == '/' {
        base + component
    } else {
        base + seq!['/'] + component
    }
}

/// Appends a relative component to a path.
pub fn join_path(base: &str, component: &str) -> (res: String)
    ensures
        res@ == joined(base@, component@),
{
    let chars = crate::text::chars_of(base);
    let n = chars.len();
    if n == 0 || chars[n - 1] == '/' {
        concat(base, component)
    } else {
        let mut s = base.to_owned();
        crate::text::push_char(&mut s, '/');
        crate::text::push_str_chars(&mut s, component);
        s
    }
}

/// Whether `d` is a digest as `blake3_hex` writes it: 64 lowercase
/// hexadecimal digits.
pub open spec fn is_hex_digest(d: Seq<char>) -> bool {
    d.len() == 64 && forall|i: int| 0 <= i < d.len() ==> is_lower_hex(#[trigger] d[i])
}

/// The directory under which runtime directories live: `XDG_RUNTIME_DIR`
/// when it is set, else `/tmp/sift-` followed by the user name (`user` when
/// `USER` is unset).
pub open spec fn runtime_base_of(xdg_runtime_dir: Option<Seq<char>>, user: Option<Seq<char>>) -> Seq<
    char,
> {
    match xdg_runtime_dir {
        Some(dir) => dir,
        None => "/tmp/sift-"@ + match user {
            Some(u) => u,
            None => "user"@,
        },
    }
}

/// The directory under which runtime directories live.
pub fn runtime_base(xdg_runtime_dir: Option<&str>, user: Option<&str>) -> (res: String)
    ensures
        res@ == runtime_base_of(
            match xdg_runtime_dir {
                Some(d) => Some(d@),
                None => None,
            },
            match user {
                Some(u) => Some(u@),
                None => None,
            },
        ),
{
    match xdg_runtime_dir {
        Some(dir) => dir.to_owned(),
        None => match user {
            Some(u) => concat("/tmp/sift-", u),
            None => concat("/tmp/sift-", "user"),
        },
    }
}

/// The runtime directory of the store whose canonical path is `canonical`:
/// `<base>/sift/<first 16 hex digits of the BLAKE3 digest of the path>`.
pub open spec fn runtime_dir_of(base: Seq<char>, canonical: Seq<u8>) -> Seq<char> {
    joined(joined(base, "sift"@), blake3_hex_of(canonical).take(16))
}

/// The runtime directory of a store, derived from its canonical path so
/// that the same store always gets the same directory.
pub fn runtime_dir_at(base: &str, canonical_store: &str) -> (res: String)
    ensures
        res@ == runtime_dir_of(base@, canonical_store.spec_bytes()),
        is_hex_digest(blake3_hex_of(canonical_store.spec_bytes())),
{
    let hex = blake3_hex(canonical_store.as_bytes());
    let chars = crate::text::chars_of(hex.as_str());
    let short_chars = slice_chars(&chars, 16);
    let short = crate::text::string_of(&short_chars);
    let sift = join_path(base, "sift");
    join_path(sift.as_str(), short.as_str())
}

/// The first `n` characters.
fn slice_chars(chars: &Vec<char>, n: usize) -> (res: Vec<char>)
    requires
        n <= chars@.len(),
    ensures
        res@ == chars@.take(n as int),
{
    let mut out: Vec<char> = Vec::new();
    for i in 0..n
        invariant
            n <= chars@.len(),
            out@ == chars@.take(i as int),
    {
        out.push(chars[i]);
        assert(chars@.take(i + 1) == chars@.take(i as int).push(chars@[i as int]));
    }
    out
}

/// The socket of a store's daemon: `daemon.sock` in its runtime directory.
pub fn socket_path_at(base: &str, canonical_store: &str) -> (res: String)
    ensures
        res@ == joined(runtime_dir_of(base@, canonical_store.spec_bytes()), "daemon.sock"@),
        is_hex_digest(blake3_hex_of(canonical_store.spec_bytes())),
{
    let dir = runtime_dir_at(base, canonical_store);
    join_path(dir.as_str(), "daemon.sock")
}

/// The single-instance lock of a store's daemon: `daemon.lock` in its
/// runtime directory.
pub fn lock_path_at(base: &str, canonical_store: &str) -> (res: String)
    ensures
        res@ == joined(runtime_dir_of(base@, canonical_store.spec_bytes()), "daemon.lock"@),
        is_hex_digest(blake3_hex_of(canonical_store.spec_bytes())),
{
    let dir = runtime_dir_at(base, canonical_store);
    join_path(dir.as_str(), "daemon.lock")
}

/// The error text of a store directory that could not be canonicalized.
pub open spec fn canonicalize_failure(store_dir: Seq<char>, error: Seq<char>) -> Seq<char> {
    "canonicalize store "@ + store_dir + ": "@ + error
}

/// The runtime directory of the store at `store_dir`, or with `file`
/// appended, given what canonicalizing it gave (its canonical path, or the
/// error's text): the path, or the text of the `Internal` error.
pub open spec fn store_path_result(
    base: Seq<char>,
    store_dir: Seq<char>,
    canonical: Result<String, String>,
    file: Option<Seq<char>>,
) -> Result<Seq<char>, Seq<char>> {
    match canonical {
        Ok(c) => Ok(
            match file {
                Some(f) => joined(runtime_dir_of(base, vstd::utf8::encode_utf8(c@)), f),
                None => runtime_dir_of(base, vstd::utf8::encode_utf8(c@)),
            },
        ),
        Err(e) => Err(canonicalize_failure(store_dir, e@)),
    }
}

/// A path result as its text, or the detail of its `Internal` error.
pub open spec fn path_outcome(res: Result<String, DaemonError>) -> Result<Seq<char>, Seq<char>> {
    match res {
        Ok(p) => Ok(p@),
        Err(DaemonError::Internal { detail }) => Err(detail@),
        Err(_) => Err(Seq::empty()),
    }
}

fn canonicalize_error(store_dir: &str, error: &str) -> (res: DaemonError)
    ensures
        res matches DaemonError::Internal { detail } && detail@ == canonicalize_failure(store_dir@, error@),
{
    let mut detail = concat("canonicalize store ", store_dir);
    crate::text::push_str_chars(&mut detail, ": ");
    crate::text::push_str_chars(&mut detail, error);
    DaemonError::Internal { detail }
}

/// The runtime directory of the store at `store_dir`, given what
/// canonicalizing it gave; a failure is an `Internal` error naming the
/// directory.
pub fn runtime_dir_for_store(base: &str, store_dir: &str, canonical: &Result<String, String>) -> (res: Result<String, DaemonError>)
    ensures
        path_outcome(res) == store_path_result(base@, store_dir@, *canonical, None),
        res is Err ==> res matches Err(DaemonError::Internal { .. }),
{
    match canonical {
        Ok(c) => Ok(runtime_dir_at(base, c.as_str())),
        Err(e) => Err(canonicalize_error(store_dir, e.as_str())),
    }
}

/// The socket of the daemon serving the store at `store_dir`, given what
/// canonicalizing it gave.
pub fn socket_path_for_store(base: &str, store_dir: &str, canonical: &Result<String, String>) -> (res: Result<String, DaemonError>)
    ensures
        path_outcome(res) == store_path_result(base@, store_dir@, *canonical, Some("daemon.sock"@)),
        res is Err ==> res matches Err(DaemonError::Internal { .. }),
{
    match canonical {
        Ok(c) => Ok(socket_path_at(base, c.as_str())),
        Err(e) => Err(canonicalize_error(store_dir, e.as_str())),
    }
}

/// The single-instance lock of the daemon serving the store at
/// `store_dir`, given what canonicalizing it gave.
pub fn lock_path_for_store(base: &str, store_dir: &str, canonical: &Result<String, String>) -> (res: Result<String, DaemonError>)
    ensures
        path_outcome(res) == store_path_result(base@, store_dir@, *canonical, Some("daemon.lock"@)),
        res is Err ==> res matches Err(DaemonError::Internal { .. }),
{
    match canonical {
        Ok(c) => Ok(lock_path_at(base, c.as_str())),
        Err(e) => Err(canonicalize_error(store_dir, e.as_str())),
    }
}

/// The socket and the lock of a store are found exactly when its directory
/// canonicalizes, and then lie in its runtime directory; when it does not,
/// both fail with the same error.
pub proof fn lemma_socket_and_lock_agree(base: Seq<char>, store_dir: Seq<char>, canonical: Result<String, String>)
    ensures
        store_path_result(base, store_dir, canonical, Some("daemon.sock"@)) is Ok <==> canonical is Ok,
        store_path_result(base, store_dir, canonical, Some("daemon.lock"@)) is Ok <==> canonical is Ok,
        canonical is Err ==> store_path_result(base, store_dir, canonical, Some("daemon.sock"@))
            == store_path_result(base, store_dir, canonical, Some("daemon.lock"@)),
        store_path_result(base, store_dir, canonical, None) matches Ok(dir) ==> (store_path_result(
            base,
            store_dir,
            canonical,
            Some("daemon.sock"@),
        ) matches Ok(sock) && sock == joined(dir, "daemon.sock"@) && sock.take(dir.len() as int)
            == dir) && (store_path_result(base, store_dir, canonical, Some("daemon.lock"@)) matches Ok(
            lock,
        ) && lock == joined(dir, "daemon.lock"@) && lock.take(dir.len() as int) == dir),
{
    if let Ok(c) = canonical {
        lemma_socket_and_lock_share_runtime_dir(base, vstd::utf8::encode_utf8(c@));
    }
}

/// Stores whose digests differ in their first 16 digits get different
/// runtime directories, sockets and locks under the same base.
pub proof fn lemma_distinct_digests_get_distinct_paths(base: Seq<char>, a: Seq<u8>, b: Seq<u8>)
    requires
        is_hex_digest(blake3_hex_of(a)),
        is_hex_digest(blake3_hex_of(b)),
        blake3_hex_of(a).take(16) != blake3_hex_of(b).take(16),
    ensures
        runtime_dir_of(base, a) != runtime_dir_of(base, b),
        joined(runtime_dir_of(base, a), "daemon.sock"@) != joined(runtime_dir_of(base, b), "daemon.sock"@),
        joined(runtime_dir_of(base, a), "daemon.lock"@) != joined(runtime_dir_of(base, b), "daemon.lock"@),
{
    let da = blake3_hex_of(a).take(16);
    let db = blake3_hex_of(b).take(16);
    let sift = joined(base, "sift"@);
    reveal_strlit("sift");
    assert(sift.last() == 't');
    assert(runtime_dir_of(base, a) == sift + seq!['/'] + da);
    assert(runtime_dir_of(base, b) == sift + seq!['/'] + db);
    assert(da.len() == 16 && db.len() == 16);
    assert(exists|k: int| 0 <= k < 16 && da[k] != db[k]) by {
        if forall|k: int| 0 <= k < 16 ==> da[k] == db[k] {
            assert(da =~= db);
        }
    }
    let k = choose|k: int| 0 <= k < 16 && da[k] != db[k];
    let ra = runtime_dir_of(base, a);
    let rb = runtime_dir_of(base, b);
    let p = sift.len() + 1 + k;
    assert(ra[p] == da[k]);
    assert(rb[p] == db[k]);
    assert(is_lower_hex(blake3_hex_of(a)[15]));
    assert(is_lower_hex(blake3_hex_of(b)[15]));
    assert(ra.last() == da[15] && da[15] != '/');
    assert(rb.last() == db[15] && db[15] != '/');
    let sa = joined(ra, "daemon.sock"@);
    let sb = joined(rb, "daemon.sock"@);
    assert(sa[p] == ra[p]);
    assert(sb[p] == rb[p]);
    let la = joined(ra, "daemon.lock"@);
    let lb = joined(rb, "daemon.lock"@);
    assert(la[p] == ra[p]);
    assert(lb[p] == rb[p]);
}

/// The octal digits of `n`, most significant first, as `{:o}` writes them.
pub open spec fn octal_of(n: nat) -> Seq<char>
    decreases n,
{
    if n < 8 {
        seq![octal_digit(n)]
    } else {
        octal_of(n / 8).push(octal_digit(n % 8))
    }
}

/// The digit for a value below 8.
pub open spec fn octal_digit(d: nat) -> char {
    if d == 0 {
        '0'
    } else if d == 1 {
        '1'
    } else if d == 2 {
        '2'
    } else if d == 3 {
        '3'
    } else if d == 4 {
        '4'
    } else if d == 5 {
        '5'
    } else if d == 6 {
        '6'
    } else {
        '7'
    }
}

fn octal_digit_char(d: u32) -> (res: char)
    requires
        d < 8,
    ensures
        res == octal_digit(d as nat),
{
    if d == 0 {
        '0'
    } else if d == 1 {
        '1'
    } else if d == 2 {
        '2'
    } else if d == 3 {
        '3'
    } else if d == 4 {
        '4'
    } else if d == 5 {
        '5'
    } else if d == 6 {
        '6'
    } else {
        '7'
    }
}

/// Writes `n` in octal.
pub fn format_octal(n: u32) -> (res: String)
    ensures
        res@ == octal_of(n as nat),
    decreases n,
{
    if n < 8 {
        let mut s = String::new();
        crate::text::push_char(&mut s, octal_digit_char(n));
        s
    } else {
        let mut s = format_octal(n / 8);
        crate::text::push_char(&mut s, octal_digit_char(n % 8));
        s
    }
}

/// The permission bits of a mode.
pub open spec fn permission_bits(mode: u32) -> u32 {
    mode & 0o777
}

/// Whether a directory's mode lets anyone write to it.
pub open spec fn world_writable(mode: u32) -> bool {
    mode & 0o002 != 0
}

/// Whether a mode grants anything to group or other.
pub open spec fn allows_group_or_other(mode: u32) -> bool {
    (mode & 0o777) & 0o077 != 0
}

/// Refuses a world-writable directory, naming it and its permission bits.
pub fn check_not_world_writable(path: &str, mode: u32) -> (res: Result<(), DaemonError>)
    ensures
        !world_writable(mode) ==> res is Ok,
        world_writable(mode) ==> (res matches Err(DaemonError::Internal { detail }) && detail@
            == "refusing world-writable directory "@ + path@ + " (mode "@ + octal_of(
            permission_bits(mode) as nat,
        ) + ")"@),
{
    if mode & 0o002 != 0 {
        let mut detail = concat("refusing world-writable directory ", path);
        crate::text::push_str_chars(&mut detail, " (mode ");
        let bits = format_octal(mode & 0o777);
        crate::text::push_str_chars(&mut detail, bits.as_str());
        crate::text::push_str_chars(&mut detail, ")");
        return Err(DaemonError::Internal { detail });
    }
    Ok(())
}

/// Refuses an existing runtime directory whose mode grants anything to
/// group or other.
pub fn check_runtime_dir_mode(dir: &str, mode: u32) -> (res: Result<(), DaemonError>)
    ensures
        !allows_group_or_other(mode) ==> res is Ok,
        allows_group_or_other(mode) ==> (res matches Err(DaemonError::Internal { detail })
            && detail@ == "runtime dir "@ + dir@ + " permissions "@ + octal_of(
            permission_bits(mode) as nat,
        ) + " allow group/other"@),
{
    let bits = mode & 0o777;
    if bits & 0o077 != 0 {
        let mut detail = concat("runtime dir ", dir);
        crate::text::push_str_chars(&mut detail, " permissions ");
        let text = format_octal(bits);
        crate::text::push_str_chars(&mut detail, text.as_str());
        crate::text::push_str_chars(&mut detail, " allow group/other");
        return Err(DaemonError::Internal { detail });
    }
    Ok(())
}

/// Refuses a socket whose mode grants anything to group or other.
pub fn check_socket_mode(socket: &str, mode: u32) -> (res: Result<(), DaemonError>)
    ensures
        !allows_group_or_other(mode) ==> res is Ok,
        allows_group_or_other(mode) ==> (res matches Err(DaemonError::Internal { detail })
            && detail@ == "socket "@ + socket@ + " mode "@ + octal_of(permission_bits(mode) as nat)
            + " allows group/other"@),
{
    let bits = mode & 0o777;
    if bits & 0o077 != 0 {
        let mut detail = concat("socket ", socket);
        crate::text::push_str_chars(&mut detail, " mode ");
        let text = format_octal(bits);
        crate::text::push_str_chars(&mut detail, text.as_str());
        crate::text::push_str_chars(&mut detail, " allows group/other");
        return Err(DaemonError::Internal { detail });
    }
    Ok(())
}

/// The same store always gets the same socket: the socket depends on the
/// runtime base and the canonical store path alone, and lies next to the
/// lock in the store's runtime directory.
pub proof fn lemma_socket_and_lock_share_runtime_dir(base: Seq<char>, canonical: Seq<u8>)
    ensures
        joined(runtime_dir_of(base, canonical), "daemon.sock"@).take(
            runtime_dir_of(base, canonical).len() as int,
        ) == runtime_dir_of(base, canonical),
        joined(runtime_dir_of(base, canonical), "daemon.lock"@).take(
            runtime_dir_of(base, canonical).len() as int,
        ) == runtime_dir_of(base, canonical),
{
    let dir = runtime_dir_of(base, canonical);
    assert((dir + "daemon.sock"@).take(dir.len() as int) == dir);
    assert((dir + "daemon.lock"@).take(dir.len() as int) == dir);
    assert((dir + seq!['/'] + "daemon.sock"@).take(dir.len() as int) == dir);
    assert((dir + seq!['/'] + "daemon.lock"@).take(dir.len() as int) == dir);
}

} // verus!
