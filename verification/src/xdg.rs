//! The XDG base directories and what is found by way of them.

use crate::text::{ascii_lowercase_of, join, join_path, to_ascii_lowercase, tokens, tokens_of};
use crate::xdg::dirs::{
    cache_of, config_dirs_of, config_home_of, data_dirs_of, data_home_of, executable_of, home_of,
    runtime_of, state_of,
};
use crate::xdg::user_dirs::{user_dirs_of, UserDirView};
pub use crate::xdg::user_dirs::{UserDir, UserDirParser};
use vstd::prelude::*;
use vstd::string::StringExecFns;

pub mod dirs;
pub mod user_dirs;

verus! {

/// The environment variables that the base directories depend on, as they
/// stood at one moment. A variable that is not set is `None`.
#[derive(Debug)]
pub struct Environment {
    /// `HOME`
    pub home: Option<String>,
    /// `XDG_CACHE_HOME`
    pub xdg_cache_home: Option<String>,
    /// `XDG_CONFIG_HOME`
    pub xdg_config_home: Option<String>,
    /// `XDG_CONFIG_DIRS`
    pub xdg_config_dirs: Option<String>,
    /// `XDG_DATA_HOME`
    pub xdg_data_home: Option<String>,
    /// `XDG_DATA_DIRS`
    pub xdg_data_dirs: Option<String>,
    /// `XDG_RUNTIME_DIR`
    pub xdg_runtime_dir: Option<String>,
    /// `XDG_STATE_HOME`
    pub xdg_state_home: Option<String>,
    /// `XDG_BIN_HOME`
    pub xdg_bin_home: Option<String>,
    /// `XDG_CURRENT_DESKTOP`
    pub xdg_current_desktop: Option<String>,
}

/// What an [`Environment`] holds, as character sequences.
pub struct EnvironmentView {
    pub home: Option<Seq<char>>,
    pub xdg_cache_home: Option<Seq<char>>,
    pub xdg_config_home: Option<Seq<char>>,
    pub xdg_config_dirs: Option<Seq<char>>,
    pub xdg_data_home: Option<Seq<char>>,
    pub xdg_data_dirs: Option<Seq<char>>,
    pub xdg_runtime_dir: Option<Seq<char>>,
    pub xdg_state_home: Option<Seq<char>>,
    pub xdg_bin_home: Option<Seq<char>>,
    pub xdg_current_desktop: Option<Seq<char>>,
}

impl View for Environment {
    type V = EnvironmentView;

    open spec fn view(&self) -> EnvironmentView {
        EnvironmentView {
            home: self.home.deep_view(),
            xdg_cache_home: self.xdg_cache_home.deep_view(),
            xdg_config_home: self.xdg_config_home.deep_view(),
            xdg_config_dirs: self.xdg_config_dirs.deep_view(),
            xdg_data_home: self.xdg_data_home.deep_view(),
            xdg_data_dirs: self.xdg_data_dirs.deep_view(),
            xdg_runtime_dir: self.xdg_runtime_dir.deep_view(),
            xdg_state_home: self.xdg_state_home.deep_view(),
            xdg_bin_home: self.xdg_bin_home.deep_view(),
            xdg_current_desktop: self.xdg_current_desktop.deep_view(),
        }
    }
}

impl Environment {
    /// The environment in which no variable is set.
    pub fn empty() -> (env: Environment)
        ensures
            env@ == (EnvironmentView {
                home: None,
                xdg_cache_home: None,
                xdg_config_home: None,
                xdg_config_dirs: None,
                xdg_data_home: None,
                xdg_data_dirs: None,
                xdg_runtime_dir: None,
                xdg_state_home: None,
                xdg_bin_home: None,
                xdg_current_desktop: None,
            }),
    {
        Environment {
            home: None,
            xdg_cache_home: None,
            xdg_config_home: None,
            xdg_config_dirs: None,
            xdg_data_home: None,
            xdg_data_dirs: None,
            xdg_runtime_dir: None,
            xdg_state_home: None,
            xdg_bin_home: None,
            xdg_current_desktop: None,
        }
    }
}

/// The desktops that are in use: the pieces of `XDG_CURRENT_DESKTOP`
/// between `:`, trimmed and in lower case, the empty ones dropped. The
/// order is that of the variable.
pub open spec fn desktops_of(env: EnvironmentView) -> Seq<Seq<char>> {
    match env.xdg_current_desktop {
        Some(v) => tokens(v, ':').map_values(|d: Seq<char>| to_ascii_lowercase(d)),
        None => Seq::empty(),
    }
}

/// The directories that name the user's well-known directories, when
/// there is a home directory, a configuration directory, and the text
/// `file` of `user-dirs.dirs` in the latter.
pub open spec fn user_directories_of(env: EnvironmentView, file: Option<Seq<char>>) -> Option<
    Seq<UserDirView>,
> {
    match (home_of(env), config_home_of(env), file) {
        (Some(home), Some(_), Some(text)) => Some(user_dirs_of(text, home)),
        _ => None,
    }
}

/// The base directories that an environment gives.
#[derive(Debug)]
pub struct Dirs {
    pub home: Option<String>,
    pub cache: Option<String>,
    pub config_home: Option<String>,
    pub config_dirs: Vec<String>,
    pub data_home: Option<String>,
    pub data_dirs: Vec<String>,
    pub runtime: Option<String>,
    pub state: Option<String>,
    pub executable: Option<String>,
    pub user_directories: Vec<UserDir>,
    pub current_desktop: Vec<String>,
}

/// What [`Dirs`] holds, as character sequences.
pub struct DirsView {
    pub home: Option<Seq<char>>,
    pub cache: Option<Seq<char>>,
    pub config_home: Option<Seq<char>>,
    pub config_dirs: Seq<Seq<char>>,
    pub data_home: Option<Seq<char>>,
    pub data_dirs: Seq<Seq<char>>,
    pub runtime: Option<Seq<char>>,
    pub state: Option<Seq<char>>,
    pub executable: Option<Seq<char>>,
    pub user_directories: Seq<UserDirView>,
    pub current_desktop: Seq<Seq<char>>,
}

impl View for Dirs {
    type V = DirsView;

    open spec fn view(&self) -> DirsView {
        DirsView {
            home: self.home.deep_view(),
            cache: self.cache.deep_view(),
            config_home: self.config_home.deep_view(),
            config_dirs: self.config_dirs.deep_view(),
            data_home: self.data_home.deep_view(),
            data_dirs: self.data_dirs.deep_view(),
            runtime: self.runtime.deep_view(),
            state: self.state.deep_view(),
            executable: self.executable.deep_view(),
            user_directories: self.user_directories.deep_view(),
            current_desktop: self.current_desktop.deep_view(),
        }
    }
}

/// The base directories that `env` gives, with the user's well-known
/// directories as `file`, the text of `user-dirs.dirs`, names them.
pub open spec fn dirs_of(env: EnvironmentView, file: Option<Seq<char>>) -> DirsView {
    DirsView {
        home: home_of(env),
        cache: cache_of(env),
        config_home: config_home_of(env),
        config_dirs: config_dirs_of(env),
        data_home: data_home_of(env),
        data_dirs: data_dirs_of(env),
        runtime: runtime_of(env),
        state: state_of(env),
        executable: executable_of(env),
        user_directories: match user_directories_of(env, file) {
            Some(found) => found,
            None => Seq::empty(),
        },
        current_desktop: desktops_of(env),
    }
}

/// The names under which a directory may hold associations, in the order
/// of their precedence: one per desktop, then the general one.
pub open spec fn mimeapps_names(desktops: Seq<Seq<char>>) -> Seq<Seq<char>> {
    desktops.map_values(|d: Seq<char>| d + "-mimeapps.list"@).push("mimeapps.list"@)
}

/// The association files of one directory `dir`, `prefix` put before each
/// name.
pub open spec fn candidates_in(dir: Seq<char>, prefix: Seq<char>, desktops: Seq<Seq<char>>) -> Seq<
    Seq<char>,
> {
    mimeapps_names(desktops).map_values(|name: Seq<char>| join(dir, prefix + name))
}

/// The association files of the directories `dirs`, directory by directory.
pub open spec fn candidates(dirs: Seq<Seq<char>>, prefix: Seq<char>, desktops: Seq<Seq<char>>)
    -> Seq<Seq<char>> {
    dirs.map_values(|dir: Seq<char>| candidates_in(dir, prefix, desktops)).flatten()
}

/// The user's own directory, if there is one, before the system's.
pub open spec fn with_home(home: Option<Seq<char>>, dirs: Seq<Seq<char>>) -> Seq<Seq<char>> {
    match home {
        Some(h) => seq![h] + dirs,
        None => dirs,
    }
}

/// The association files below the configuration directories.
pub open spec fn config_candidates(d: DirsView) -> Seq<Seq<char>> {
    candidates(with_home(d.config_home, d.config_dirs), ""@, d.current_desktop)
}

/// The association files below the data directories.
pub open spec fn data_candidates(d: DirsView) -> Seq<Seq<char>> {
    candidates(with_home(d.data_home, d.data_dirs), "applications/"@, d.current_desktop)
}

/// Every file that may hold associations, in the order of precedence:
/// configuration before data, the user's directory before the system's,
/// and in each directory the files of the desktops before the general one.
pub open spec fn search_paths(d: DirsView) -> Seq<Seq<char>> {
    config_candidates(d) + data_candidates(d)
}

/// [`candidates`] with one more directory at the end.
pub proof fn lemma_candidates_push(
    dirs: Seq<Seq<char>>,
    dir: Seq<char>,
    prefix: Seq<char>,
    desktops: Seq<Seq<char>>,
)
    ensures
        candidates(dirs.push(dir), prefix, desktops) == candidates(dirs, prefix, desktops)
            + candidates_in(dir, prefix, desktops),
{
    let f = |d: Seq<char>| candidates_in(d, prefix, desktops);
    assert(dirs.push(dir).map_values(f) =~= dirs.map_values(f).push(f(dir)));
    dirs.map_values(f).lemma_flatten_push(f(dir));
}

/// Adds the association files of one directory to `out`.
fn push_candidates_in(out: &mut Vec<String>, dir: &str, prefix: &str, desktops: &Vec<String>)
    ensures
        final(out).deep_view() == old(out).deep_view() + candidates_in(
            dir@,
            prefix@,
            desktops.deep_view(),
        ),
{
    let ghost goal = candidates_in(dir@, prefix@, desktops.deep_view());
    let mut i: usize = 0;
    assert(out.deep_view() =~= old(out).deep_view() + goal.take(0));
    while i < desktops.len()
        invariant
            i <= desktops.len(),
            goal == candidates_in(dir@, prefix@, desktops.deep_view()),
            out.deep_view() == old(out).deep_view() + goal.take(i as int),
        decreases desktops.len() - i,
    {
        let ghost before = out.deep_view();
        let mut name = String::from_str(prefix);
        name.append(desktops[i].as_str());
        name.append("-mimeapps.list");
        let path = join_path(dir, name.as_str());
        assert(path@ == goal[i as int]) by {
            assert(name@ =~= prefix@ + (desktops.deep_view()[i as int] + "-mimeapps.list"@));
        }
        out.push(path);
        assert(out.deep_view() =~= before.push(path@));
        i += 1;
        assert(out.deep_view() =~= old(out).deep_view() + goal.take(i as int));
    }
    let ghost before = out.deep_view();
    let mut name = String::from_str(prefix);
    name.append("mimeapps.list");
    let path = join_path(dir, name.as_str());
    out.push(path);
    assert(out.deep_view() =~= before.push(path@));
    assert(out.deep_view() =~= old(out).deep_view() + goal);
}

/// Adds the association files of the user's directory and of the system's
/// directories to `out`.
fn push_candidates(
    out: &mut Vec<String>,
    home: &Option<String>,
    dirs: &Vec<String>,
    prefix: &str,
    desktops: &Vec<String>,
)
    ensures
        final(out).deep_view() == old(out).deep_view() + candidates(
            with_home(home.deep_view(), dirs.deep_view()),
            prefix@,
            desktops.deep_view(),
        ),
{
    let ghost first: Seq<Seq<char>> = match home.deep_view() {
        Some(h) => seq![h],
        None => Seq::empty(),
    };
    let ghost all = with_home(home.deep_view(), dirs.deep_view());
    assert(all =~= first + dirs.deep_view());
    assert(candidates(Seq::empty(), prefix@, desktops.deep_view()) =~= Seq::<Seq<char>>::empty());
    match home {
        Some(h) => {
            push_candidates_in(out, h.as_str(), prefix, desktops);
            proof {
                lemma_candidates_push(Seq::empty(), h@, prefix@, desktops.deep_view());
                assert(Seq::<Seq<char>>::empty().push(h@) =~= first);
            }
        },
        None => {},
    }
    assert(out.deep_view() =~= old(out).deep_view() + candidates(
        first,
        prefix@,
        desktops.deep_view(),
    ));
    let mut i: usize = 0;
    assert(first + dirs.deep_view().take(0) =~= first);
    while i < dirs.len()
        invariant
            i <= dirs.len(),
            all == first + dirs.deep_view(),
            out.deep_view() == old(out).deep_view() + candidates(
                first + dirs.deep_view().take(i as int),
                prefix@,
                desktops.deep_view(),
            ),
        decreases dirs.len() - i,
    {
        let ghost done = first + dirs.deep_view().take(i as int);
        push_candidates_in(out, dirs[i].as_str(), prefix, desktops);
        proof {
            lemma_candidates_push(done, dirs[i as int]@, prefix@, desktops.deep_view());
            assert(done.push(dirs[i as int]@) =~= first + dirs.deep_view().take(i + 1));
        }
        i += 1;
    }
    assert(first + dirs.deep_view().take(i as int) =~= all);
}

impl Dirs {
    /// The base directories that `env` gives. `user_dirs` is the text of
    /// the file that [`dirs::user_dirs_file`] names, if it could be read.
    pub fn all(env: &Environment, user_dirs: Option<&str>) -> (d: Dirs)
        ensures
            d@ == dirs_of(env@, user_dirs.deep_view()),
    {
        let user_directories = match Self::user_directories(env, user_dirs) {
            Some(found) => found,
            None => {
                let none: Vec<UserDir> = Vec::new();
                assert(none.deep_view() =~= Seq::<UserDirView>::empty());
                none
            },
        };
        Dirs {
            home: Self::home_dir(env),
            cache: Self::cache_dir(env),
            config_home: Self::config_home_dir(env),
            config_dirs: Self::config_dirs(env),
            data_home: Self::data_home_dir(env),
            data_dirs: Self::data_dirs(env),
            runtime: Self::runtime_dir(env),
            state: Self::state_dir(env),
            executable: Self::executable_dir(env),
            user_directories,
            current_desktop: Self::current_desktop(env),
        }
    }

    /// Every file that may hold associations, in the order in which they
    /// are to be looked at:
    ///
    /// - `$XDG_CONFIG_HOME/$desktop-mimeapps.list`
    /// - `$XDG_CONFIG_HOME/mimeapps.list`
    /// - `$XDG_CONFIG_DIRS/$desktop-mimeapps.list`
    /// - `$XDG_CONFIG_DIRS/mimeapps.list`
    /// - `$XDG_DATA_HOME/applications/$desktop-mimeapps.list`
    /// - `$XDG_DATA_HOME/applications/mimeapps.list`
    /// - `$XDG_DATA_DIRS/applications/$desktop-mimeapps.list`
    /// - `$XDG_DATA_DIRS/applications/mimeapps.list`
    pub fn mimeapps_search_paths(&self) -> (paths: Vec<String>)
        ensures
            paths.deep_view() == search_paths(self@),
    {
        let mut paths: Vec<String> = Vec::new();
        push_candidates(&mut paths, &self.config_home, &self.config_dirs, "", &self.current_desktop);
        push_candidates(
            &mut paths,
            &self.data_home,
            &self.data_dirs,
            "applications/",
            &self.current_desktop,
        );
        assert(paths.deep_view() =~= search_paths(self@));
        paths
    }

    /// The files below the data directories that may hold associations, in
    /// the order in which they are to be looked at: the last part of
    /// [`Dirs::mimeapps_search_paths`].
    pub fn mimeapps_data_paths(&self) -> (paths: Vec<String>)
        ensures
            paths.deep_view() == data_candidates(self@),
    {
        let mut paths: Vec<String> = Vec::new();
        push_candidates(
            &mut paths,
            &self.data_home,
            &self.data_dirs,
            "applications/",
            &self.current_desktop,
        );
        assert(paths.deep_view() =~= data_candidates(self@));
        paths
    }

    /// The home directory.
    pub fn home_dir(env: &Environment) -> (r: Option<String>)
        ensures
            r.deep_view() == home_of(env@),
    {
        dirs::home_dir(env)
    }

    /// `$XDG_CACHE_HOME`, or `~/.cache`.
    pub fn cache_dir(env: &Environment) -> (r: Option<String>)
        ensures
            r.deep_view() == cache_of(env@),
    {
        dirs::cache_dir(env)
    }

    /// `$XDG_CONFIG_HOME`, or `~/.config`.
    pub fn config_home_dir(env: &Environment) -> (r: Option<String>)
        ensures
            r.deep_view() == config_home_of(env@),
    {
        dirs::config_dir(env)
    }

    /// `$XDG_DATA_HOME`, or `~/.local/share`.
    pub fn data_home_dir(env: &Environment) -> (r: Option<String>)
        ensures
            r.deep_view() == data_home_of(env@),
    {
        dirs::data_dir(env)
    }

    /// `$XDG_DATA_DIRS`, or `/usr/local/share` and `/usr/share`.
    pub fn data_dirs(env: &Environment) -> (r: Vec<String>)
        ensures
            r.deep_view() == data_dirs_of(env@),
    {
        dirs::data_dirs(env)
    }

    /// `$XDG_RUNTIME_DIR`.
    pub fn runtime_dir(env: &Environment) -> (r: Option<String>)
        ensures
            r.deep_view() == runtime_of(env@),
    {
        dirs::runtime_dir(env)
    }

    /// `$XDG_STATE_HOME`, or `~/.local/state`.
    pub fn state_dir(env: &Environment) -> (r: Option<String>)
        ensures
            r.deep_view() == state_of(env@),
    {
        dirs::state_dir(env)
    }

    /// `$XDG_BIN_HOME`, or `~/.local/bin`.
    pub fn executable_dir(env: &Environment) -> (r: Option<String>)
        ensures
            r.deep_view() == executable_of(env@),
    {
        dirs::executable_dir(env)
    }

    /// The user's well-known directories, as `file`, the text of
    /// `user-dirs.dirs`, names them.
    pub fn user_directories(env: &Environment, file: Option<&str>) -> (r: Option<Vec<UserDir>>)
        ensures
            r.deep_view() == user_directories_of(env@, file.deep_view()),
    {
        dirs::user_dirs(env, file)
    }

    /// The desktops that are in use, in the order of their precedence.
    pub fn current_desktop(env: &Environment) -> (r: Vec<String>)
        ensures
            r.deep_view() == desktops_of(env@),
    {
        match &env.xdg_current_desktop {
            Some(v) => {
                let pieces = tokens_of(v.as_str(), ':');
                let mut r: Vec<String> = Vec::new();
                let mut i: usize = 0;
                while i < pieces.len()
                    invariant
                        i <= pieces.len(),
                        r.len() == i,
                        forall|j: int|
                            0 <= j < i ==> #[trigger] r[j]@ == to_ascii_lowercase(pieces[j]@),
                    decreases pieces.len() - i,
                {
                    let lower = ascii_lowercase_of(pieces[i].as_str());
                    r.push(lower);
                    i += 1;
                }
                assert(r.deep_view() =~= desktops_of(env@));
                r
            },
            None => {
                let r: Vec<String> = Vec::new();
                assert(r.deep_view() =~= Seq::<Seq<char>>::empty());
                r
            },
        }
    }

    /// `$XDG_CONFIG_DIRS`, or `/etc/xdg`.
    pub fn config_dirs(env: &Environment) -> (r: Vec<String>)
        ensures
            r.deep_view() == config_dirs_of(env@),
    {
        dirs::config_dirs(env)
    }
}

} // verus!
