//! Where settings live.

use crate::text::{chars_of, concat3, copied};
use vstd::prelude::*;

verus! {

/// A path with one more component.
pub open spec fn joined_path(base: Seq<char>, part: Seq<char>) -> Seq<char> {
    if base.len() == 0 {
        part
    } else if base.last() == '/' {
        base + part
    } else {
        base + "/"@ + part
    }
}

/// Adds a relative component to a path.
pub fn join_path(base: &str, part: &str) -> (r: String)
    ensures
        r@ == joined_path(base@, part@),
{
    let chars = chars_of(base);
    if chars.len() == 0 {
        return copied(part);
    }
    if chars[chars.len() - 1] == '/' {
        let r = concat3(base, part, "");
        proof {
            reveal_strlit("");
            assert(r@ =~= base@ + part@);
        }
        return r;
    }
    concat3(base, "/", part)
}

/// True for paths that start at the root.
pub open spec fn is_absolute(path: Seq<char>) -> bool {
    path.len() > 0 && path[0] == '/'
}

fn starts_at_root(path: &str) -> (r: bool)
    ensures
        r == is_absolute(path@),
{
    let chars = chars_of(path);
    chars.len() > 0 && chars[0] == '/'
}

/// The folder in which a kind of file lives: the one that the environment names, if it is
/// absolute; else `fallback` in the home folder; else `fallback` itself.
pub open spec fn base_folder(
    named: Option<Seq<char>>,
    home: Option<Seq<char>>,
    fallback: Seq<char>,
) -> Seq<char> {
    if named is Some && is_absolute(named->0) {
        named->0
    } else if home is Some {
        joined_path(home->0, fallback)
    } else {
        fallback
    }
}

/// What an optional borrowed text holds.
pub open spec fn str_view(text: Option<&str>) -> Option<Seq<char>> {
    match text {
        None => None,
        Some(text) => Some(text@),
    }
}

/// Picks the folder in which a kind of file lives.
pub fn pick_folder(named: Option<&str>, home: Option<&str>, fallback: &str) -> (r: String)
    ensures
        r@ == base_folder(str_view(named), str_view(home), fallback@),
{
    if let Some(path) = named {
        if starts_at_root(path) {
            return copied(path);
        }
    }
    match home {
        Some(home) => join_path(home, fallback),
        None => copied(fallback),
    }
}

/// The configuration folder: `$XDG_CONFIG_HOME/tessera`, or `~/.config/tessera`. Holds
/// `config.toml`, `services.toml` and `scripts/`.
pub fn config_dir(xdg_config_home: Option<&str>, home: Option<&str>) -> (r: String)
    ensures
        r@ == config_folder(str_view(xdg_config_home), str_view(home)),
{
    let base = pick_folder(xdg_config_home, home, ".config");
    join_path(base.as_str(), "tessera")
}

/// The configuration folder.
pub open spec fn config_folder(named: Option<Seq<char>>, home: Option<Seq<char>>) -> Seq<char> {
    joined_path(base_folder(named, home, ".config"@), "tessera"@)
}

/// Where the configuration file lives: `$XDG_CONFIG_HOME/tessera/config.toml`, or
/// `~/.config/tessera/config.toml`.
pub fn config_path(xdg_config_home: Option<&str>, home: Option<&str>) -> (r: String)
    ensures
        r@ == joined_path(
            config_folder(str_view(xdg_config_home), str_view(home)),
            "config.toml"@,
        ),
{
    let folder = config_dir(xdg_config_home, home);
    join_path(folder.as_str(), "config.toml")
}

/// The scripts folder: `$XDG_CONFIG_HOME/tessera/scripts`.
pub fn scripts_dir(xdg_config_home: Option<&str>, home: Option<&str>) -> (r: String)
    ensures
        r@ == joined_path(
            config_folder(str_view(xdg_config_home), str_view(home)),
            "scripts"@,
        ),
{
    let folder = config_dir(xdg_config_home, home);
    join_path(folder.as_str(), "scripts")
}

/// A joined path begins with its folder and ends with what was joined to it, with one slash
/// between them.
pub proof fn paths_join_with_one_slash(base: Seq<char>, part: Seq<char>)
    requires
        base.len() > 0,
    ensures
        base.last() == '/' ==> joined_path(base, part) == base + part,
        base.last() != '/' ==> joined_path(base, part) == base.push('/') + part,
        joined_path(Seq::empty(), part) == part,
{
    reveal_strlit("/");
    assert(base + "/"@ =~= base.push('/'));
}

/// Settings live in the folder that is named for them, if it is named in full; a relative one
/// does not count, and then they live in the home folder.
pub proof fn relative_folders_do_not_count(
    named: Seq<char>,
    home: Option<Seq<char>>,
    fallback: Seq<char>,
)
    ensures
        named.len() > 0 && named[0] == '/' ==> base_folder(Some(named), home, fallback) == named,
        named.len() == 0 || named[0] != '/' ==> base_folder(Some(named), home, fallback)
            == base_folder(None, home, fallback),
        home is Some ==> base_folder(None, home, fallback) == joined_path(home->0, fallback),
{
}

} // verus!
