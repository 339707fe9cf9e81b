//! Repository registrations: what a registration holds and the rules a new
//! one must meet.

use vstd::prelude::*;

use crate::text::{concat, push_str_chars, trim_white, trimmed};

verus! {

/// The paths of a repository registration, as given.
#[derive(Debug, Clone, PartialEq, Eq)]
pub struct RegistrationInput {
    pub name: String,
    pub repo_path: String,
    pub store_path: String,
    pub model_path: String,
    pub daemon_path: String,
}

/// A stored registration.
#[derive(Debug, Clone, PartialEq, Eq)]
pub struct Registration {
    pub id: String,
    pub config: RegistrationInput,
}

/// Why a registration was refused.
#[derive(Debug, Clone, PartialEq, Eq)]
pub enum RegistryError {
    BlankName,
    RelativePath { field: &'static str },
    InvalidPath { field: &'static str, expected: &'static str, path: String },
    DuplicateStore(String),
    Unknown(String),
    Database(String),
}

/// The text of a registry error.
pub open spec fn registry_message(e: RegistryError) -> Seq<char> {
    match e {
        RegistryError::BlankName => "registration name must not be blank"@,
        RegistryError::RelativePath { field } => field@ + " must be an absolute path"@,
        RegistryError::InvalidPath { field, expected, path } => field@ + " is not a valid "@
            + expected@ + ": "@ + path@,
        RegistryError::DuplicateStore(path) => "a registration already uses store "@ + path@,
        RegistryError::Unknown(id) => "unknown repository "@ + id@,
        RegistryError::Database(msg) => "registry database error: "@ + msg@,
    }
}

impl RegistryError {
    /// The text shown for the error.
    pub fn describe(&self) -> (res: String)
        ensures
            res@ == registry_message(*self),
    {
        match self {
            RegistryError::BlankName => "registration name must not be blank".to_owned(),
            RegistryError::RelativePath { field } => concat(field, " must be an absolute path"),
            RegistryError::InvalidPath { field, expected, path } => {
                let mut s = concat(field, " is not a valid ");
                push_str_chars(&mut s, expected);
                push_str_chars(&mut s, ": ");
                push_str_chars(&mut s, path.as_str());
                s
            },
            RegistryError::DuplicateStore(path) => concat(
                "a registration already uses store ",
                path.as_str(),
            ),
            RegistryError::Unknown(id) => concat("unknown repository ", id.as_str()),
            RegistryError::Database(msg) => concat("registry database error: ", msg.as_str()),
        }
    }
}

/// The name a registration is stored under: trimmed, and not blank.
pub fn validate_name(name: &str) -> (res: Result<String, RegistryError>)
    ensures
        trimmed(name@).len() == 0 ==> res == Err::<String, RegistryError>(RegistryError::BlankName),
        trimmed(name@).len() > 0 ==> (res matches Ok(n) && n@ == trimmed(name@)),
{
    let t = trim_white(name);
    if t.as_str().is_empty() {
        return Err(RegistryError::BlankName);
    }
    Ok(t)
}

/// Whether a Unix path is absolute: it starts at the root.
pub open spec fn is_absolute(path: Seq<char>) -> bool {
    path.len() > 0 && path[0] == '/'
}

/// Refuses a relative path for `field`.
pub fn absolute(field: &'static str, path: &str) -> (res: Result<(), RegistryError>)
    ensures
        is_absolute(path@) ==> res is Ok,
        !is_absolute(path@) ==> res == Err::<(), RegistryError>(
            RegistryError::RelativePath { field },
        ),
{
    let chars = crate::text::chars_of(path);
    if chars.len() > 0 && chars[0] == '/' {
        Ok(())
    } else {
        Err(RegistryError::RelativePath { field })
    }
}

/// The refusal of `path` for `field`, which is not a valid `expected`.
pub fn invalid(field: &'static str, expected: &'static str, path: &str) -> (res: RegistryError)
    ensures
        res matches RegistryError::InvalidPath { field: f, expected: x, path: p } && f == field
            && x == expected && p@ == path@,
{
    RegistryError::InvalidPath { field, expected, path: path.to_owned() }
}

/// Whether a file mode lets anyone execute the file.
pub fn is_executable(mode: u32) -> (res: bool)
    ensures
        res == (mode & 0o111 != 0),
{
    mode & 0o111 != 0
}

/// Whether a directory path checks out: it is absolute and resolves to a
/// directory.
pub open spec fn directory_ok(path: Seq<char>, resolved: Option<(String, bool)>) -> bool {
    is_absolute(path) && (resolved matches Some((_, true)))
}

/// Whether `e` is the refusal of the directory path of `field`: a relative
/// path, or one that does not resolve to a directory.
pub open spec fn directory_error(e: RegistryError, field: &'static str, path: Seq<char>) -> bool {
    if !is_absolute(path) {
        e == RegistryError::RelativePath { field }
    } else {
        e matches RegistryError::InvalidPath { field: f, expected: x, path: p } && f == field && x@
            == "directory"@ && p@ == path
    }
}

/// The canonical directory for `field`: the path must be absolute, resolve
/// (`resolved` is its canonical form and whether that is a directory, or
/// `None` when it does not resolve), and be a directory.
pub fn directory(field: &'static str, path: &str, resolved: Option<(String, bool)>) -> (res: Result<
    String,
    RegistryError,
>)
    ensures
        directory_ok(path@, resolved) ==> res == Ok::<String, RegistryError>(resolved->Some_0.0),
        !directory_ok(path@, resolved) ==> res is Err && directory_error(res->Err_0, field, path@),
{
    if let Err(e) = absolute(field, path) {
        return Err(e);
    }
    match resolved {
        Some((canonical, true)) => Ok(canonical),
        _ => Err(invalid(field, "directory", path)),
    }
}

/// Whether a daemon path checks out: it is absolute and resolves to a file
/// that someone may execute.
pub open spec fn executable_ok(path: Seq<char>, resolved: Option<(String, bool, u32)>) -> bool {
    is_absolute(path) && (resolved matches Some((_, true, mode)) && mode & 0o111 != 0)
}

/// Whether `e` is the refusal of the daemon path: a relative path, or one
/// that does not resolve to an executable file.
pub open spec fn executable_error(e: RegistryError, path: Seq<char>) -> bool {
    if !is_absolute(path) {
        e == RegistryError::RelativePath { field: "daemon" }
    } else {
        e matches RegistryError::InvalidPath { field: f, expected: x, path: p } && f@ == "daemon"@
            && x@ == "executable file"@ && p@ == path
    }
}

/// The canonical daemon executable: the path must be absolute, resolve to a
/// file (`resolved` gives its canonical form, whether it is a file, and its
/// mode), and be executable.
pub fn executable(path: &str, resolved: Option<(String, bool, u32)>) -> (res: Result<
    String,
    RegistryError,
>)
    ensures
        executable_ok(path@, resolved) ==> res == Ok::<String, RegistryError>(resolved->Some_0.0),
        !executable_ok(path@, resolved) ==> res is Err && executable_error(res->Err_0, path@),
{
    if let Err(e) = absolute("daemon", path) {
        return Err(e);
    }
    match resolved {
        Some((canonical, true, mode)) => {
            if is_executable(mode) {
                Ok(canonical)
            } else {
                Err(invalid("daemon", "executable file", path))
            }
        },
        _ => Err(invalid("daemon", "executable file", path)),
    }
}

/// What the file system says of a store path.
#[derive(Debug, Clone, PartialEq, Eq)]
pub enum StoreLookup {
    /// The path exists; its canonical form and whether that is a directory,
    /// or `None` when it does not resolve.
    Existing(Option<(String, bool)>),
    /// The path does not exist yet. It splits into its parent directory and
    /// final leaf; the parent's canonical form and whether that is a
    /// directory, or `None` when the parent does not resolve.
    Missing { parent: String, leaf: String, parent_resolved: Option<(String, bool)> },
    /// The path does not exist and has no parent or no final leaf.
    Unsplittable,
}

/// The canonical store a lookup gives when the store path checks out: an
/// existing directory, or a missing final leaf below an existing directory.
pub open spec fn store_ok(path: Seq<char>, found: StoreLookup) -> Option<Seq<char>> {
    if !is_absolute(path) {
        None
    } else {
        match found {
            StoreLookup::Existing(resolved) => if directory_ok(path, resolved) {
                Some(resolved->Some_0.0@)
            } else {
                None
            },
            StoreLookup::Missing { parent, leaf, parent_resolved } => if directory_ok(
                parent@,
                parent_resolved,
            ) {
                Some(crate::paths::joined(parent_resolved->Some_0.0@, leaf@))
            } else {
                None
            },
            StoreLookup::Unsplittable => None,
        }
    }
}

/// Whether `e` is the refusal of a store path: a relative path, a refusal
/// of the existing path or of the missing leaf's parent as a directory, or
/// a missing path that does not split into a parent and a leaf.
pub open spec fn store_error(e: RegistryError, path: Seq<char>, found: StoreLookup) -> bool {
    if !is_absolute(path) {
        e == RegistryError::RelativePath { field: "store" }
    } else {
        match found {
            StoreLookup::Existing(_) => directory_error(e, "store", path),
            StoreLookup::Missing { parent, .. } => directory_error(e, "store", parent@),
            StoreLookup::Unsplittable => e matches RegistryError::InvalidPath {
                field: f,
                expected: x,
                path: p,
            } && f@ == "store"@ && x@ == "directory or missing final leaf below a directory"@ && p@
                == path,
        }
    }
}

/// The canonical store directory: an existing directory, or a missing
/// final leaf below an existing directory.
pub fn store(path: &str, found: StoreLookup) -> (res: Result<String, RegistryError>)
    ensures
        store_ok(path@, found) matches Some(canonical) ==> (res matches Ok(p) && p@ == canonical),
        store_ok(path@, found) is None ==> res is Err && store_error(res->Err_0, path@, found),
{
    if let Err(e) = absolute("store", path) {
        return Err(e);
    }
    match found {
        StoreLookup::Existing(resolved) => directory("store", path, resolved),
        StoreLookup::Missing { parent, leaf, parent_resolved } => {
            match directory("store", parent.as_str(), parent_resolved) {
                Ok(canonical) => Ok(crate::paths::join_path(canonical.as_str(), leaf.as_str())),
                Err(e) => Err(e),
            }
        },
        StoreLookup::Unsplittable => Err(
            invalid("store", "directory or missing final leaf below a directory", path),
        ),
    }
}

/// What the file system says of each path of a registration.
#[derive(Debug, Clone, PartialEq, Eq)]
pub struct ResolvedPaths {
    /// The repository's canonical form and whether it is a directory.
    pub repo: Option<(String, bool)>,
    pub store: StoreLookup,
    /// The model's canonical form and whether it is a directory.
    pub model: Option<(String, bool)>,
    /// The daemon's canonical form, whether it is a file, and its mode.
    pub daemon: Option<(String, bool, u32)>,
}

/// Checks a registration: a name that is not blank, the repository and
/// model directories, the store, and the daemon executable, in that order;
/// the first that fails decides the error. The registration kept has the
/// name trimmed and every path in canonical form.
pub fn validate(input: RegistrationInput, found: ResolvedPaths) -> (res: Result<
    RegistrationInput,
    RegistryError,
>)
    ensures
        trimmed(input.name@).len() == 0 ==> res == Err::<RegistrationInput, RegistryError>(
            RegistryError::BlankName,
        ),
        trimmed(input.name@).len() > 0 ==> if !directory_ok(input.repo_path@, found.repo) {
            res is Err && directory_error(res->Err_0, "repository", input.repo_path@)
        } else if store_ok(input.store_path@, found.store) is None {
            res is Err && store_error(res->Err_0, input.store_path@, found.store)
        } else if !directory_ok(input.model_path@, found.model) {
            res is Err && directory_error(res->Err_0, "model", input.model_path@)
        } else if !executable_ok(input.daemon_path@, found.daemon) {
            res is Err && executable_error(res->Err_0, input.daemon_path@)
        } else {
            res matches Ok(r) && r.name@ == trimmed(input.name@) && r.repo_path
                == found.repo->Some_0.0 && Some(r.store_path@) == store_ok(
                input.store_path@,
                found.store,
            ) && r.model_path == found.model->Some_0.0 && r.daemon_path == found.daemon->Some_0.0
        },
{
    if let Err(e) = validate_name(input.name.as_str()) {
        return Err(e);
    }
    let name = trim_white(input.name.as_str());
    let repo_path = match directory("repository", input.repo_path.as_str(), found.repo) {
        Ok(p) => p,
        Err(e) => return Err(e),
    };
    let store_path = match store(input.store_path.as_str(), found.store) {
        Ok(p) => p,
        Err(e) => return Err(e),
    };
    let model_path = match directory("model", input.model_path.as_str(), found.model) {
        Ok(p) => p,
        Err(e) => return Err(e),
    };
    let daemon_path = match executable(input.daemon_path.as_str(), found.daemon) {
        Ok(p) => p,
        Err(e) => return Err(e),
    };
    Ok(RegistrationInput { name, repo_path, store_path, model_path, daemon_path })
}

} // verus!
