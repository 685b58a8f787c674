//! Which paths may be deleted, moved or truncated.

use vstd::prelude::*;
use crate::paths::{protected_by, is_protected_ancestor};

verus! {

/// System directories that no cleanup may remove. Deleting beneath them is
/// refused by the strict check and allowed by the guard's check.
pub open spec fn system_protected() -> Seq<Seq<char>> {
    seq![
        "/"@, "/bin"@, "/boot"@, "/dev"@, "/etc"@, "/home"@, "/lib"@, "/lib64"@, "/opt"@,
        "/proc"@, "/root"@, "/run"@, "/sbin"@, "/srv"@, "/sys"@, "/usr"@, "/var"@,
    ]
}

pub open spec fn views(list: Seq<String>) -> Seq<Seq<char>> {
    list.map_values(|s: String| s@)
}

pub open spec fn protected_by_any(path: Seq<char>, list: Seq<Seq<char>>) -> bool {
    exists|i: int| 0 <= i < list.len() && protected_by(path, #[trigger] list[i])
}

pub open spec fn equals_any(path: Seq<char>, list: Seq<Seq<char>>) -> bool {
    exists|i: int| 0 <= i < list.len() && path == #[trigger] list[i]
}

/// A path that neither a system entry nor a user entry protects.
pub open spec fn path_is_safe(path: Seq<char>, user: Seq<Seq<char>>) -> bool {
    !protected_by_any(path, system_protected()) && !protected_by_any(path, user)
}

/// The system-protected directories.
pub fn system_protected_paths() -> (v: Vec<&'static str>)
    ensures
        v@.map_values(|s: &str| s@) == system_protected(),
{
    let v = vec![
        "/", "/bin", "/boot", "/dev", "/etc", "/home", "/lib", "/lib64", "/opt", "/proc", "/root",
        "/run", "/sbin", "/srv", "/sys", "/usr", "/var",
    ];
    assert(v@.map_values(|s: &str| s@) =~= system_protected());
    v
}

fn protected_by_system(path: &str) -> (r: bool)
    ensures
        r == protected_by_any(path@, system_protected()),
{
    let sys = system_protected_paths();
    let ghost list = sys@.map_values(|s: &str| s@);
    let mut i: usize = 0;
    while i < sys.len()
        invariant
            0 <= i <= sys.len(),
            list == sys@.map_values(|s: &str| s@),
            list == system_protected(),
            forall|j: int| 0 <= j < i ==> !protected_by(path@, #[trigger] list[j]),
        decreases sys.len() - i,
    {
        if is_protected_ancestor(path, sys[i]) {
            assert(protected_by(path@, list[i as int]));
            return true;
        }
        i = i + 1;
    }
    false
}

fn protected_by_list(path: &str, list: &[String]) -> (r: bool)
    ensures
        r == protected_by_any(path@, views(list@)),
{
    let ghost vs = views(list@);
    let mut i: usize = 0;
    while i < list.len()
        invariant
            0 <= i <= list.len(),
            vs == views(list@),
            forall|j: int| 0 <= j < i ==> !protected_by(path@, #[trigger] vs[j]),
        decreases list.len() - i,
    {
        if is_protected_ancestor(path, list[i].as_str()) {
            assert(protected_by(path@, vs[i as int]));
            return true;
        }
        i = i + 1;
    }
    false
}

fn equals_system(path: &str) -> (r: bool)
    ensures
        r == equals_any(path@, system_protected()),
{
    let sys = system_protected_paths();
    let ghost list = sys@.map_values(|s: &str| s@);
    let p = path.to_owned();
    let mut i: usize = 0;
    while i < sys.len()
        invariant
            0 <= i <= sys.len(),
            p@ == path@,
            list == sys@.map_values(|s: &str| s@),
            list == system_protected(),
            forall|j: int| 0 <= j < i ==> path@ != #[trigger] list[j],
        decreases sys.len() - i,
    {
        let q = sys[i].to_owned();
        if p == q {
            assert(path@ == list[i as int]);
            return true;
        }
        i = i + 1;
    }
    false
}

/// Whether deleting `path` is allowed: no system-protected directory and no
/// user-protected path is `path` itself or an ancestor of it.
pub fn check_path_str(path: &str, user_protected: &[String]) -> (safe: bool)
    ensures
        safe == path_is_safe(path@, views(user_protected@)),
{
    !protected_by_system(path) && !protected_by_list(path, user_protected)
}

/// Why a deletion was refused.
#[derive(Debug, Clone, Copy, PartialEq, Eq)]
pub enum DeleteRefusal {
    /// The path is a symbolic link; links are never followed into a delete.
    Symlink,
    /// The path is, or lies under, a protected path.
    Protected,
}

/// The strict check before deleting or truncating: refuses symlinks and any
/// protected path or descendant. `canonical` is the resolved path;
/// `is_symlink` says whether the path as given was a link.
pub fn check_safe_to_delete(canonical: &str, is_symlink: bool, user_protected: &[String]) -> (r:
    Result<String, DeleteRefusal>)
    ensures
        is_symlink ==> r == Err::<String, DeleteRefusal>(DeleteRefusal::Symlink),
        !is_symlink && !path_is_safe(canonical@, views(user_protected@)) ==> r == Err::<
            String,
            DeleteRefusal,
        >(DeleteRefusal::Protected),
        !is_symlink && path_is_safe(canonical@, views(user_protected@)) ==> (r matches Ok(s) && s@
            == canonical@),
{
    if is_symlink {
        return Err(DeleteRefusal::Symlink);
    }
    if !check_path_str(canonical, user_protected) {
        return Err(DeleteRefusal::Protected);
    }
    Ok(canonical.to_owned())
}

/// The guard's check before an automatic delete: refuses symlinks, the
/// system-protected directories themselves (not what lies beneath them), and
/// any user-protected path or descendant.
pub fn check_safe_to_delete_guard(canonical: &str, is_symlink: bool, user_protected: &[String]) -> (r:
    Result<String, DeleteRefusal>)
    ensures
        is_symlink ==> r == Err::<String, DeleteRefusal>(DeleteRefusal::Symlink),
        !is_symlink && (equals_any(canonical@, system_protected()) || protected_by_any(
            canonical@,
            views(user_protected@),
        )) ==> r == Err::<String, DeleteRefusal>(DeleteRefusal::Protected),
        !is_symlink && !equals_any(canonical@, system_protected()) && !protected_by_any(
            canonical@,
            views(user_protected@),
        ) ==> (r matches Ok(s) && s@ == canonical@),
{
    if is_symlink {
        return Err(DeleteRefusal::Symlink);
    }
    if equals_system(canonical) || protected_by_list(canonical, user_protected) {
        return Err(DeleteRefusal::Protected);
    }
    Ok(canonical.to_owned())
}

/// Whatever the strict check allows, the guard's check allows too.
pub proof fn lemma_strict_check_is_stricter(path: Seq<char>, user: Seq<Seq<char>>)
    requires
        path_is_safe(path, user),
    ensures
        !equals_any(path, system_protected()),
        !protected_by_any(path, user),
{
    if equals_any(path, system_protected()) {
        let i = choose|i: int| 0 <= i < system_protected().len() && path == #[trigger] system_protected()[i];
        assert(protected_by(path, system_protected()[i]));
    }
}

} // verus!
