use slime::mimeapps::FileSystem;
use slime::xdg::dirs;
use slime::xdg::user_dirs::{shell_unescape, UserDirParser};
use slime::xdg::{Dirs, Environment};

fn s(x: &str) -> Option<String> {
    Some(x.to_string())
}

fn strings(v: &[&str]) -> Vec<String> {
    v.iter().map(|x| x.to_string()).collect()
}

#[test]
fn test_finding_mimepaths_search_paths() {
    let mut env = Environment::empty();
    env.home = s("/home/user");
    env.xdg_current_desktop = s("GNOME");
    let mut fs = FileSystem::new();
    fs.add_file("/home/user/.config/mimeapps.list", "[Default Applications]\n");

    let mut found_one = false;
    for path in Dirs::all(&env, None).mimeapps_search_paths() {
        if fs.is_file(&path) {
            println!("'{}' Found!", path);
            found_one = true;
        } else {
            println!("'{}' Not Found!", path);
        }
    }
    assert!(found_one, "Expected to find at least one mimeapps file");
}

#[test]
fn user_paser() {
    let mut env = Environment::empty();
    env.home = s("/home/user");
    let home = Dirs::home_dir(&env).unwrap();
    let config_home = Dirs::config_home_dir(&env).unwrap();
    assert_eq!(config_home, "/home/user/.config");
    let users = "# This file is written by xdg-user-dirs-update\n\
                 XDG_DESKTOP_DIR=\"$HOME/Desktop\"\n\
                 XDG_DOCUMENTS_DIR=\"$HOME/Documents\"\n";
    let parser = UserDirParser::new(users, &home);
    let parsed = parser.collect();
    for x in parsed.iter() {
        println!("{x:?}");
    }
    assert!(parsed.into_iter().find(|x| x.name == "documents").is_some());
}

#[test]
fn user_dir_paser() {
    let mut env = Environment::empty();
    env.home = s("/home/user");
    let home = dirs::home_dir(&env).unwrap();
    let config_home = dirs::config_dir(&env).unwrap();
    assert_eq!(dirs::user_dirs_file(&env).unwrap(), format!("{}/user-dirs.dirs", config_home));
    let user_dirs = "XDG_DOCUMENTS_DIR=\"$HOME/Documents\"\nXDG_MUSIC_DIR=\"/srv/music\"\n";
    let parser = UserDirParser::new(user_dirs, &home);
    let parsed = parser.collect();
    for x in parsed.iter() {
        println!("{x:?}");
    }
    assert!(parsed.into_iter().find(|x| x.name == "documents").is_some());
}

#[test]
fn user_dirs_lines() {
    let text = "XDG_DESKTOP_DIR=\"$HOME/Desktop\"\n\
                XDG_DOWNLOAD_DIR=\"$HOME/\"\n\
                XDG_MUSIC_DIR=\"/srv/my\\ music\"\n\
                XDG_PICTURES_DIR=\"relative/dir\"\n\
                XDG_VIDEOS_DIR=$HOME/Videos\n\
                XDG_DIR=\"/x\"\n\
                XDG__DIR=\"/empty-name\"\n\
                XDG_PUBLICSHARE_DIR=\"\n\
                OTHER_TEMPLATES_DIR=\"/t\"\n\
                  XDG_TEMPLATES_DIR=\"$HOME//abs\"  \n";
    let got: Vec<(String, String)> = UserDirParser::new(text, "/home/u")
        .collect()
        .into_iter()
        .map(|d| (d.name, d.path))
        .collect();
    assert_eq!(
        got,
        vec![
            ("desktop".to_string(), "/home/u/Desktop".to_string()),
            ("music".to_string(), "/srv/my music".to_string()),
            ("".to_string(), "/empty-name".to_string()),
            ("templates".to_string(), "/abs".to_string()),
        ]
    );
}

#[test]
fn user_dir_parser_next_runs_out() {
    let mut p = UserDirParser::new("XDG_A_DIR=\"/a\"\nXDG_B_DIR=\"/b\"", "/h");
    assert_eq!(p.next().unwrap().name, "a");
    assert_eq!(p.next().unwrap().path, "/b");
    assert!(p.next().is_none());
    assert!(p.next().is_none());
}

#[test]
fn user_dir_name_is_lowercased_by_unicode_rules() {
    let got = UserDirParser::new("XDG_\u{c4}B_DIR=\"/x\"", "/h").collect();
    assert_eq!(got.len(), 1);
    assert_eq!(got[0].name, "\u{e4}b");
}

#[test]
fn shell_unescape_drops_backslashes() {
    assert_eq!(shell_unescape(""), "");
    assert_eq!(shell_unescape("plain"), "plain");
    assert_eq!(shell_unescape("a\\ b"), "a b");
    assert_eq!(shell_unescape("a\\\\b"), "a\\b");
    assert_eq!(shell_unescape("\\$HOME\\\""), "$HOME\"");
    assert_eq!(shell_unescape("tail\\"), "tail");
}

#[test]
fn is_absolute_keeps_only_rooted_paths() {
    assert_eq!(dirs::is_absolute("/a".to_string()), s("/a"));
    assert_eq!(dirs::is_absolute("a/b".to_string()), None);
    assert_eq!(dirs::is_absolute("".to_string()), None);
}

#[test]
fn home_is_absent_when_unset_or_empty() {
    let mut env = Environment::empty();
    assert_eq!(Dirs::home_dir(&env), None);
    env.home = s("");
    assert_eq!(Dirs::home_dir(&env), None);
    env.home = s("/root");
    assert_eq!(Dirs::home_dir(&env), s("/root"));
}

#[test]
fn base_dirs_fall_back_below_home() {
    let mut env = Environment::empty();
    env.home = s("/home/u");
    assert_eq!(Dirs::cache_dir(&env), s("/home/u/.cache"));
    assert_eq!(Dirs::config_home_dir(&env), s("/home/u/.config"));
    assert_eq!(Dirs::data_home_dir(&env), s("/home/u/.local/share"));
    assert_eq!(Dirs::state_dir(&env), s("/home/u/.local/state"));
    assert_eq!(Dirs::executable_dir(&env), s("/home/u/.local/bin"));
    assert_eq!(Dirs::runtime_dir(&env), None);
    env.home = s("/home/u/");
    assert_eq!(Dirs::config_home_dir(&env), s("/home/u/.config"));
}

#[test]
fn base_dirs_take_absolute_values_only() {
    let mut env = Environment::empty();
    env.home = s("/home/u");
    env.xdg_cache_home = s("/c");
    env.xdg_config_home = s("relative/config");
    env.xdg_data_home = s("/d");
    env.xdg_state_home = s("");
    env.xdg_bin_home = s("/b");
    env.xdg_runtime_dir = s("/run/user/1000");
    assert_eq!(dirs::cache_dir(&env), s("/c"));
    assert_eq!(dirs::config_dir(&env), s("/home/u/.config"));
    assert_eq!(dirs::data_dir(&env), s("/d"));
    assert_eq!(dirs::state_dir(&env), s("/home/u/.local/state"));
    assert_eq!(dirs::executable_dir(&env), s("/b"));
    assert_eq!(dirs::runtime_dir(&env), s("/run/user/1000"));
    env.xdg_runtime_dir = s("run");
    assert_eq!(dirs::runtime_dir(&env), None);
}

#[test]
fn base_dirs_are_absent_without_home_and_variable() {
    let mut env = Environment::empty();
    env.xdg_config_home = s("not/absolute");
    assert_eq!(Dirs::config_home_dir(&env), None);
    assert_eq!(Dirs::data_home_dir(&env), None);
    assert_eq!(Dirs::cache_dir(&env), None);
}

#[test]
fn directory_lists_default_only_when_unset() {
    let mut env = Environment::empty();
    assert_eq!(Dirs::config_dirs(&env), strings(&["/etc/xdg"]));
    assert_eq!(Dirs::data_dirs(&env), strings(&["/usr/local/share", "/usr/share"]));
    env.xdg_config_dirs = s("");
    env.xdg_data_dirs = s(" : :");
    assert_eq!(Dirs::config_dirs(&env), Vec::<String>::new());
    assert_eq!(Dirs::data_dirs(&env), Vec::<String>::new());
    env.xdg_config_dirs = s("/a: /b ::/c:");
    env.xdg_data_dirs = s("/x");
    assert_eq!(Dirs::config_dirs(&env), strings(&["/a", "/b", "/c"]));
    assert_eq!(Dirs::data_dirs(&env), strings(&["/x"]));
}

#[test]
fn current_desktop_is_split_trimmed_and_lowercased() {
    let mut env = Environment::empty();
    assert_eq!(Dirs::current_desktop(&env), Vec::<String>::new());
    env.xdg_current_desktop = s("GNOME: KDE ::Xfce:");
    assert_eq!(Dirs::current_desktop(&env), strings(&["gnome", "kde", "xfce"]));
    env.xdg_current_desktop = s("\u{c4}B");
    assert_eq!(Dirs::current_desktop(&env), strings(&["\u{c4}b"]));
}

#[test]
fn search_paths_follow_the_lookup_order() {
    let mut env = Environment::empty();
    env.home = s("/home/u");
    env.xdg_config_dirs = s("/etc/xdg:/opt/xdg");
    env.xdg_data_dirs = s("/usr/share");
    env.xdg_current_desktop = s("GNOME:KDE");
    let dirs = Dirs::all(&env, None);
    assert_eq!(
        dirs.mimeapps_search_paths(),
        strings(&[
            "/home/u/.config/gnome-mimeapps.list",
            "/home/u/.config/kde-mimeapps.list",
            "/home/u/.config/mimeapps.list",
            "/etc/xdg/gnome-mimeapps.list",
            "/etc/xdg/kde-mimeapps.list",
            "/etc/xdg/mimeapps.list",
            "/opt/xdg/gnome-mimeapps.list",
            "/opt/xdg/kde-mimeapps.list",
            "/opt/xdg/mimeapps.list",
            "/home/u/.local/share/applications/gnome-mimeapps.list",
            "/home/u/.local/share/applications/kde-mimeapps.list",
            "/home/u/.local/share/applications/mimeapps.list",
            "/usr/share/applications/gnome-mimeapps.list",
            "/usr/share/applications/kde-mimeapps.list",
            "/usr/share/applications/mimeapps.list",
        ])
    );
    assert_eq!(
        dirs.mimeapps_data_paths(),
        strings(&[
            "/home/u/.local/share/applications/gnome-mimeapps.list",
            "/home/u/.local/share/applications/kde-mimeapps.list",
            "/home/u/.local/share/applications/mimeapps.list",
            "/usr/share/applications/gnome-mimeapps.list",
            "/usr/share/applications/kde-mimeapps.list",
            "/usr/share/applications/mimeapps.list",
        ])
    );
}

#[test]
fn absent_base_directory_contributes_no_paths() {
    let mut env = Environment::empty();
    env.xdg_config_dirs = s("");
    env.xdg_data_dirs = s("/d");
    let dirs = Dirs::all(&env, None);
    assert_eq!(dirs.config_home, None);
    assert_eq!(dirs.data_home, None);
    assert_eq!(dirs.mimeapps_search_paths(), strings(&["/d/applications/mimeapps.list"]));
}

#[test]
fn all_collects_every_directory() {
    let mut env = Environment::empty();
    env.home = s("/home/u");
    env.xdg_runtime_dir = s("/run/u");
    env.xdg_current_desktop = s("sway");
    let dirs = Dirs::all(&env, Some("XDG_MUSIC_DIR=\"$HOME/Music\"\n"));
    assert_eq!(dirs.home, s("/home/u"));
    assert_eq!(dirs.cache, s("/home/u/.cache"));
    assert_eq!(dirs.config_home, s("/home/u/.config"));
    assert_eq!(dirs.config_dirs, strings(&["/etc/xdg"]));
    assert_eq!(dirs.data_home, s("/home/u/.local/share"));
    assert_eq!(dirs.data_dirs, strings(&["/usr/local/share", "/usr/share"]));
    assert_eq!(dirs.runtime, s("/run/u"));
    assert_eq!(dirs.state, s("/home/u/.local/state"));
    assert_eq!(dirs.executable, s("/home/u/.local/bin"));
    assert_eq!(dirs.current_desktop, strings(&["sway"]));
    assert_eq!(dirs.user_directories.len(), 1);
    assert_eq!(dirs.user_directories[0].name, "music");
    assert_eq!(dirs.user_directories[0].path, "/home/u/Music");
}

#[test]
fn user_directories_need_home_config_and_file() {
    let mut env = Environment::empty();
    let text = "XDG_MUSIC_DIR=\"/m\"\n";
    assert!(Dirs::user_directories(&env, Some(text)).is_none());
    env.home = s("/h");
    assert!(Dirs::user_directories(&env, None).is_none());
    assert_eq!(Dirs::user_directories(&env, Some(text)).unwrap().len(), 1);
    assert!(Dirs::all(&env, None).user_directories.is_empty());
}
