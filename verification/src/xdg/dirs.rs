//! The XDG base directories, as functions of the environment.
//!
//! A variable that names a single directory counts only when its value is
//! an absolute path; otherwise the directory is the usual one below the
//! home directory, if there is a home directory. A variable that names a
//! list of directories is split at `:`.

use crate::text::{join, join_path, tokens, tokens_of};
pub use crate::xdg::user_dirs::{UserDir, UserDirParser};
use crate::xdg::{user_directories_of, Environment, EnvironmentView};
use vstd::prelude::*;
use vstd::string::StringExecFns;

verus! {

/// Whether `path` begins at the root.
pub open spec fn absolute(path: Seq<char>) -> bool {
    path.len() > 0 && path[0] == '/'
}

/// The home directory: the value of `HOME` unless it is empty.
pub open spec fn home_of(env: EnvironmentView) -> Option<Seq<char>> {
    match env.home {
        Some(h) if h.len() > 0 => Some(h),
        _ => None,
    }
}

/// A base directory: `var` if it is an absolute path, else `fallback`
/// below the home directory, else nothing.
pub open spec fn base_dir_of(var: Option<Seq<char>>, env: EnvironmentView, fallback: Seq<char>)
    -> Option<Seq<char>> {
    match var {
        Some(v) if absolute(v) => Some(v),
        _ => match home_of(env) {
            Some(h) => Some(join(h, fallback)),
            None => None,
        },
    }
}

/// `$XDG_CACHE_HOME`, or `~/.cache`.
pub open spec fn cache_of(env: EnvironmentView) -> Option<Seq<char>> {
    base_dir_of(env.xdg_cache_home, env, ".cache"@)
}

/// `$XDG_CONFIG_HOME`, or `~/.config`.
pub open spec fn config_home_of(env: EnvironmentView) -> Option<Seq<char>> {
    base_dir_of(env.xdg_config_home, env, ".config"@)
}

/// `$XDG_DATA_HOME`, or `~/.local/share`.
pub open spec fn data_home_of(env: EnvironmentView) -> Option<Seq<char>> {
    base_dir_of(env.xdg_data_home, env, ".local/share"@)
}

/// `$XDG_STATE_HOME`, or `~/.local/state`.
pub open spec fn state_of(env: EnvironmentView) -> Option<Seq<char>> {
    base_dir_of(env.xdg_state_home, env, ".local/state"@)
}

/// `$XDG_BIN_HOME`, or `~/.local/bin`.
pub open spec fn executable_of(env: EnvironmentView) -> Option<Seq<char>> {
    base_dir_of(env.xdg_bin_home, env, ".local/bin"@)
}

/// `$XDG_RUNTIME_DIR` if it is an absolute path. There is no fallback.
pub open spec fn runtime_of(env: EnvironmentView) -> Option<Seq<char>> {
    match env.xdg_runtime_dir {
        Some(v) if absolute(v) => Some(v),
        _ => None,
    }
}

/// A list of directories: the pieces of `var` between `:`, trimmed, the
/// empty ones dropped; `fallback` where the variable is not set at all.
pub open spec fn dir_list_of(var: Option<Seq<char>>, fallback: Seq<Seq<char>>) -> Seq<Seq<char>> {
    match var {
        Some(v) => tokens(v, ':'),
        None => fallback,
    }
}

/// `$XDG_CONFIG_DIRS`, or `/etc/xdg`.
pub open spec fn config_dirs_of(env: EnvironmentView) -> Seq<Seq<char>> {
    dir_list_of(env.xdg_config_dirs, seq!["/etc/xdg"@])
}

/// `$XDG_DATA_DIRS`, or `/usr/local/share` and `/usr/share`.
pub open spec fn data_dirs_of(env: EnvironmentView) -> Seq<Seq<char>> {
    dir_list_of(env.xdg_data_dirs, seq!["/usr/local/share"@, "/usr/share"@])
}

/// The file that names the user's directories: `user-dirs.dirs` in the
/// configuration directory.
pub open spec fn user_dirs_file_of(env: EnvironmentView) -> Option<Seq<char>> {
    match config_home_of(env) {
        Some(c) => Some(join(c, "user-dirs.dirs"@)),
        None => None,
    }
}

/// Hands `path` back if it is absolute.
pub fn is_absolute(path: String) -> (r: Option<String>)
    ensures
        r == if absolute(path@) {
            Some(path)
        } else {
            None
        },
{
    if !path.as_str().is_empty() && path.as_str().get_char(0) == '/' {
        Some(path)
    } else {
        None
    }
}

/// The home directory: the value of `HOME` unless it is empty.
pub fn home_dir(env: &Environment) -> (r: Option<String>)
    ensures
        r.deep_view() == home_of(env@),
{
    match &env.home {
        Some(h) => {
            if h.as_str().is_empty() {
                None
            } else {
                Some(h.clone())
            }
        },
        None => None,
    }
}

/// A base directory: `var` if it is an absolute path, else `fallback`
/// below the home directory, else nothing.
pub fn base_dir(var: &Option<String>, env: &Environment, fallback: &str) -> (r: Option<String>)
    ensures
        r.deep_view() == base_dir_of(var.deep_view(), env@, fallback@),
{
    let given = match var {
        Some(v) => is_absolute(v.clone()),
        None => None,
    };
    match given {
        Some(v) => Some(v),
        None => match home_dir(env) {
            Some(h) => Some(join_path(h.as_str(), fallback)),
            None => None,
        },
    }
}

/// `$XDG_CACHE_HOME`, or `~/.cache`.
pub fn cache_dir(env: &Environment) -> (r: Option<String>)
    ensures
        r.deep_view() == cache_of(env@),
{
    base_dir(&env.xdg_cache_home, env, ".cache")
}

/// `$XDG_CONFIG_HOME`, or `~/.config`.
pub fn config_dir(env: &Environment) -> (r: Option<String>)
    ensures
        r.deep_view() == config_home_of(env@),
{
    base_dir(&env.xdg_config_home, env, ".config")
}

/// `$XDG_DATA_HOME`, or `~/.local/share`.
pub fn data_dir(env: &Environment) -> (r: Option<String>)
    ensures
        r.deep_view() == data_home_of(env@),
{
    base_dir(&env.xdg_data_home, env, ".local/share")
}

/// `$XDG_RUNTIME_DIR` if it is an absolute path. There is no fallback.
pub fn runtime_dir(env: &Environment) -> (r: Option<String>)
    ensures
        r.deep_view() == runtime_of(env@),
{
    match &env.xdg_runtime_dir {
        Some(v) => is_absolute(v.clone()),
        None => None,
    }
}

/// `$XDG_STATE_HOME`, or `~/.local/state`.
pub fn state_dir(env: &Environment) -> (r: Option<String>)
    ensures
        r.deep_view() == state_of(env@),
{
    base_dir(&env.xdg_state_home, env, ".local/state")
}

/// `$XDG_BIN_HOME`, or `~/.local/bin`.
pub fn executable_dir(env: &Environment) -> (r: Option<String>)
    ensures
        r.deep_view() == executable_of(env@),
{
    base_dir(&env.xdg_bin_home, env, ".local/bin")
}

/// `$XDG_CONFIG_DIRS`, or `/etc/xdg`.
pub fn config_dirs(env: &Environment) -> (r: Vec<String>)
    ensures
        r.deep_view() == config_dirs_of(env@),
{
    match &env.xdg_config_dirs {
        Some(v) => tokens_of(v.as_str(), ':'),
        None => {
            let mut r: Vec<String> = Vec::new();
            r.push(String::from_str("/etc/xdg"));
            assert(r.deep_view() =~= seq!["/etc/xdg"@]);
            r
        },
    }
}

/// `$XDG_DATA_DIRS`, or `/usr/local/share` and `/usr/share`.
pub fn data_dirs(env: &Environment) -> (r: Vec<String>)
    ensures
        r.deep_view() == data_dirs_of(env@),
{
    match &env.xdg_data_dirs {
        Some(v) => tokens_of(v.as_str(), ':'),
        None => {
            let mut r: Vec<String> = Vec::new();
            r.push(String::from_str("/usr/local/share"));
            r.push(String::from_str("/usr/share"));
            assert(r.deep_view() =~= seq!["/usr/local/share"@, "/usr/share"@]);
            r
        },
    }
}

/// The file that names the user's directories: `user-dirs.dirs` in the
/// configuration directory.
pub fn user_dirs_file(env: &Environment) -> (r: Option<String>)
    ensures
        r.deep_view() == user_dirs_file_of(env@),
{
    match config_dir(env) {
        Some(c) => Some(join_path(c.as_str(), "user-dirs.dirs")),
        None => None,
    }
}

/// The user's well-known directories, as `file`, the text of
/// `user-dirs.dirs`, names them: `None` without a home directory, a
/// configuration directory or the file.
pub fn user_dirs(env: &Environment, file: Option<&str>) -> (r: Option<Vec<UserDir>>)
    ensures
        r.deep_view() == user_directories_of(env@, file.deep_view()),
{
    let home = match home_dir(env) {
        Some(h) => h,
        None => { return None; },
    };
    match config_dir(env) {
        Some(_) => {},
        None => { return None; },
    }
    match file {
        Some(text) => Some(UserDirParser::new(text, home.as_str()).collect()),
        None => None,
    }
}

} // verus!
