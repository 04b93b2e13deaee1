//! Where things live: the local save directory of an application, and the
//! remote namespace that holds one directory of snapshots per application.
use vstd::prelude::*;

use crate::text::{join_path, join_spec};

verus! {

/// Relies on `dirs::home_dir`: the user's home directory, where one is
/// known.
#[verifier::external_body]
fn home_dir() -> (r: Option<String>) {
    dirs::home_dir().map(|p| p.to_string_lossy().into_owned())
}

pub open spec fn namespace_dir_name() -> Seq<char> {
    seq!['.', 'b', 'e', 't', 't', 'e', 'r', '-', 's', 't', 'e', 'a', 'm', '-', 'c', 'l', 'o', 'u', 'd']
}

pub open spec fn compat_dir_rel() -> Seq<char> {
    ".local/share/Steam/steamapps/compatdata"@
}

pub open spec fn save_dir_rel() -> Seq<char> {
    "pfx/drive_c/users/steamuser/AppData"@
}

/// The remote namespace root under home directory `home`.
pub fn namespace_root(home: &str) -> (r: String)
    ensures
        r@ == join_spec(home@, namespace_dir_name()),
{
    let name = ".better-steam-cloud";
    proof {
        reveal_strlit(".better-steam-cloud");
    }
    assert(name@ =~= namespace_dir_name());
    join_path(home, name)
}

/// The remote namespace root under this user's home directory, where the
/// home directory is known.
pub fn remote_namespace_root() -> (r: Option<String>)
    ensures
        r matches Some(s) ==> exists|h: Seq<char>| s@ == join_spec(h, namespace_dir_name()),
{
    match home_dir() {
        Some(h) => Some(namespace_root(h.as_str())),
        None => None,
    }
}

/// The directory that holds one subdirectory per application, under home
/// directory `home`.
pub fn compat_root(home: &str) -> (r: String)
    ensures
        r@ == join_spec(home@, compat_dir_rel()),
{
    join_path(home, ".local/share/Steam/steamapps/compatdata")
}

/// The local directory of application `game_id`'s save data, below the
/// directory `base` that holds one subdirectory per application.
pub fn get_save_path(base: &str, game_id: &str) -> (r: String)
    ensures
        r@ == join_spec(join_spec(base@, game_id@), save_dir_rel()),
{
    let app = join_path(base, game_id);
    join_path(app.as_str(), "pfx/drive_c/users/steamuser/AppData")
}

/// The remote directory that holds application `app_id`'s snapshots.
pub fn app_dir(namespace_root: &str, app_id: &str) -> (r: String)
    ensures
        r@ == join_spec(namespace_root@, app_id@),
{
    join_path(namespace_root, app_id)
}

/// The remote directory of snapshot `name` of application `app_id`.
pub fn snapshot_dir(namespace_root: &str, app_id: &str, name: &str) -> (r: String)
    ensures
        r@ == join_spec(join_spec(namespace_root@, app_id@), name@),
{
    let app = join_path(namespace_root, app_id);
    join_path(app.as_str(), name)
}

} // verus!
