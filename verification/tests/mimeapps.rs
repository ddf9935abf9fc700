use slime::mimeapps::{
    applications_dir, association_ids, check_mimeapps_list, check_mimeapps_lists,
    data_directories, desktop_file_to_command, exec_line, probe_paths, query_default_app,
    subdirectory_probe, FileSystem,
};
use slime::xdg::Dirs;
use slime::xdg::Environment;

fn s(x: &str) -> Option<String> {
    Some(x.to_string())
}

fn env() -> Environment {
    let mut env = Environment::empty();
    env.home = s("/home/u");
    env.xdg_config_home = s("/cfg");
    env.xdg_config_dirs = s("/etc/xdg");
    env.xdg_data_home = s("/data");
    env.xdg_data_dirs = s("/usr/share");
    env
}

fn data_dirs() -> Vec<String> {
    vec!["/data".to_string(), "/usr/share".to_string()]
}

fn desktop(exec: &str) -> String {
    format!("[Desktop Entry]\nName=App\nExec={exec}\n")
}

#[test]
fn it_works() {
    let env = env();
    let mut fs = FileSystem::new();
    fs.add_file("/cfg/mimeapps.list", "[Default Applications]\ntext/html=firefox.desktop\n");
    fs.add_file("/data/applications/firefox.desktop", &desktop("firefox %u"));
    println!("{:?}", query_default_app(&env, &fs, "image/jpeg"));
    println!("{:?}", query_default_app(&env, &fs, "text/html"));
    println!("{:?}", query_default_app(&env, &fs, "video/mp4"));
    println!("{:?}", query_default_app(&env, &fs, "application/pdf"));
}

#[test]
fn end_to_end_text_html() {
    let env = env();
    let mut fs = FileSystem::new();
    fs.add_file("/cfg/mimeapps.list", "[Default Applications]\ntext/html=firefox.desktop;\n");
    fs.add_file("/data/applications/firefox.desktop", "[Desktop Entry]\nExec=firefox %u\n");
    assert_eq!(query_default_app(&env, &fs, "text/html").unwrap(), "firefox %u");
}

#[test]
fn missing_files_give_not_found() {
    let env = env();
    let fs = FileSystem::new();
    let err = query_default_app(&env, &fs, "text/html").unwrap_err();
    assert_eq!(err.query, "text/html");
    assert_eq!(err.message(), "no default application for text/html");
}

#[test]
fn resolution_is_repeatable() {
    let env = env();
    let mut fs = FileSystem::new();
    fs.add_file("/cfg/mimeapps.list", "[Added Associations]\nimage/png=gimp.desktop;eog.desktop\n");
    fs.add_file("/usr/share/applications/eog.desktop", &desktop("eog %U"));
    let first = query_default_app(&env, &fs, "image/png").ok();
    let second = query_default_app(&env, &fs, "image/png").ok();
    assert_eq!(first, s("eog %U"));
    assert_eq!(first, second);
}

#[test]
fn desktop_precedence_gnome_before_kde() {
    let mut env = env();
    env.xdg_current_desktop = s("GNOME:KDE");
    let mut fs = FileSystem::new();
    fs.add_file("/cfg/kde-mimeapps.list", "[Default Applications]\ntext/plain=kate.desktop\n");
    fs.add_file("/cfg/gnome-mimeapps.list", "[Default Applications]\ntext/plain=gedit.desktop\n");
    fs.add_file("/cfg/mimeapps.list", "[Default Applications]\ntext/plain=vim.desktop\n");
    fs.add_file("/usr/share/applications/kate.desktop", &desktop("kate %U"));
    fs.add_file("/usr/share/applications/gedit.desktop", &desktop("gedit %U"));
    fs.add_file("/usr/share/applications/vim.desktop", &desktop("vim %F"));
    assert_eq!(query_default_app(&env, &fs, "text/plain").unwrap(), "gedit %U");
    env.xdg_current_desktop = s("KDE:GNOME");
    assert_eq!(query_default_app(&env, &fs, "text/plain").unwrap(), "kate %U");
    env.xdg_current_desktop = None;
    assert_eq!(query_default_app(&env, &fs, "text/plain").unwrap(), "vim %F");
}

#[test]
fn vendor_split_lookup() {
    let mut fs = FileSystem::new();
    fs.add_file("/usr/share/applications/mozilla/firefox.desktop", &desktop("firefox %u"));
    assert!(!fs.is_file("/usr/share/applications/mozilla-firefox.desktop"));
    assert_eq!(
        desktop_file_to_command("mozilla-firefox.desktop", &fs, &data_dirs()),
        s("firefox %u")
    );
}

#[test]
fn vendor_split_is_at_the_first_dash() {
    let mut fs = FileSystem::new();
    fs.add_file("/data/applications/org/gnome-eog.desktop", &desktop("eog"));
    assert_eq!(desktop_file_to_command("org-gnome-eog.desktop", &fs, &data_dirs()), s("eog"));
}

#[test]
fn vendor_path_wins_over_direct_path() {
    let mut fs = FileSystem::new();
    fs.add_file("/data/applications/a-b.desktop", &desktop("direct"));
    assert_eq!(desktop_file_to_command("a-b.desktop", &fs, &data_dirs()), s("direct"));
    fs.add_file("/data/applications/a/b.desktop", &desktop("vendored"));
    assert_eq!(desktop_file_to_command("a-b.desktop", &fs, &data_dirs()), s("vendored"));
}

#[test]
fn data_directory_order_is_kept() {
    let mut fs = FileSystem::new();
    fs.add_file("/usr/share/applications/x.desktop", &desktop("system"));
    assert_eq!(desktop_file_to_command("x.desktop", &fs, &data_dirs()), s("system"));
    fs.add_file("/data/applications/x.desktop", &desktop("user"));
    assert_eq!(desktop_file_to_command("x.desktop", &fs, &data_dirs()), s("user"));
}

#[test]
fn subdirectories_are_scanned_one_level() {
    let mut fs = FileSystem::new();
    fs.add_directory("/data/applications", vec!["kde4".to_string(), "wine".to_string()]);
    fs.add_file("/data/applications/wine/notepad.desktop", &desktop("wine notepad"));
    fs.add_file("/data/applications/kde4/deep/okular.desktop", &desktop("okular"));
    assert_eq!(desktop_file_to_command("notepad.desktop", &fs, &data_dirs()), s("wine notepad"));
    assert_eq!(desktop_file_to_command("okular.desktop", &fs, &data_dirs()), None);
}

#[test]
fn absolute_id_is_a_path() {
    let mut fs = FileSystem::new();
    fs.add_file("/opt/app/app.desktop", &desktop("/opt/app/run"));
    assert_eq!(desktop_file_to_command("/opt/app/app.desktop", &fs, &Vec::new()), s("/opt/app/run"));
    assert_eq!(desktop_file_to_command("/opt/app/none.desktop", &fs, &data_dirs()), None);
}

#[test]
fn entry_without_exec_fails_for_that_id_only() {
    let env = env();
    let mut fs = FileSystem::new();
    fs.add_file("/cfg/mimeapps.list", "[Default Applications]\na/b=one.desktop; ;two.desktop;\n");
    fs.add_file("/data/applications/one.desktop", "[Desktop Entry]\nName=No command\n");
    fs.add_file("/data/applications/two.desktop", &desktop("two"));
    assert_eq!(desktop_file_to_command("one.desktop", &fs, &data_dirs()), None);
    assert_eq!(query_default_app(&env, &fs, "a/b").unwrap(), "two");
}

#[test]
fn exec_is_read_from_the_desktop_entry_section_only() {
    assert_eq!(exec_line("[Desktop Action New]\nExec=wrong\n[Desktop Entry]\nExec=right %f\nExec=later\n"), s("right %f"));
    assert_eq!(exec_line("Exec=outside\n"), None);
    assert_eq!(exec_line("[Desktop Entry]\nexec=lowercase\n"), None);
    assert_eq!(exec_line(""), None);
}

#[test]
fn key_match_that_does_not_resolve_does_not_stop_the_search() {
    let env = env();
    let mut fs = FileSystem::new();
    fs.add_file(
        "/cfg/mimeapps.list",
        "[Default Applications]\nx/y=gone.desktop\n[Added Associations]\nx/y=also-gone.desktop\n",
    );
    fs.add_file("/etc/xdg/mimeapps.list", "[Removed Associations]\nx/y=here.desktop\n[Added Associations]\nx/y=here.desktop\n");
    fs.add_file("/usr/share/applications/here.desktop", &desktop("here"));
    assert_eq!(check_mimeapps_list("/cfg/mimeapps.list", &fs, &data_dirs(), "x/y"), None);
    assert_eq!(query_default_app(&env, &fs, "x/y").unwrap(), "here");
}

#[test]
fn other_sections_are_not_associations() {
    let env = env();
    let mut fs = FileSystem::new();
    fs.add_file("/cfg/mimeapps.list", "x/y=a.desktop\n[Removed Associations]\nx/y=a.desktop\n");
    fs.add_file("/data/applications/a.desktop", &desktop("a"));
    assert!(query_default_app(&env, &fs, "x/y").is_err());
}

#[test]
fn config_files_come_before_data_files() {
    let env = env();
    let mut fs = FileSystem::new();
    fs.add_file("/data/applications/mimeapps.list", "[Default Applications]\nx/y=d.desktop\n");
    fs.add_file("/usr/share/applications/mimeapps.list", "[Default Applications]\nx/y=s.desktop\n");
    fs.add_file("/data/applications/d.desktop", &desktop("from data home"));
    fs.add_file("/data/applications/s.desktop", &desktop("from data dirs"));
    fs.add_file("/data/applications/c.desktop", &desktop("from config"));
    assert_eq!(query_default_app(&env, &fs, "x/y").unwrap(), "from data home");
    fs.add_file("/etc/xdg/mimeapps.list", "[Default Applications]\nx/y=c.desktop\n");
    assert_eq!(query_default_app(&env, &fs, "x/y").unwrap(), "from config");
}

#[test]
fn later_file_replaces_earlier_at_same_path() {
    let mut fs = FileSystem::new();
    fs.add_file("/a", "one");
    fs.add_file("/b", "two");
    fs.add_file("/a", "three");
    assert_eq!(fs.read("/a").map(|t| t.as_str()), Some("three"));
    assert_eq!(fs.read("/b").map(|t| t.as_str()), Some("two"));
    assert_eq!(fs.read("/c"), None);
    fs.add_directory("/d", vec!["x".to_string()]);
    fs.add_directory("/d", vec!["y".to_string()]);
    assert_eq!(fs.entries("/d"), Some(&vec!["y".to_string()]));
    assert_eq!(fs.entries("/a"), None);
}

#[test]
fn association_ids_are_the_trimmed_tokens_of_matching_pairs() {
    let text = "[Default Applications]\nx/y= a.desktop ;;b-c.desktop;\nz/z=no.desktop\n\
                [Removed Associations]\nx/y=removed.desktop\n[Added Associations]\nx/y=/abs/d.desktop\n";
    assert_eq!(
        association_ids(text, "x/y"),
        vec!["a.desktop".to_string(), "b-c.desktop".to_string(), "/abs/d.desktop".to_string()]
    );
    assert_eq!(association_ids(text, "q/q"), Vec::<String>::new());
}

#[test]
fn probe_paths_of_an_entry() {
    assert_eq!(applications_dir("/usr/share"), "/usr/share/applications");
    assert_eq!(probe_paths("/d", "app.desktop"), vec!["/d/applications/app.desktop".to_string()]);
    assert_eq!(
        probe_paths("/d", "org-gnome-eog.desktop"),
        vec![
            "/d/applications/org/gnome-eog.desktop".to_string(),
            "/d/applications/org-gnome-eog.desktop".to_string(),
        ]
    );
    assert_eq!(probe_paths("/d", "/abs/app.desktop"), vec!["/abs/app.desktop".to_string()]);
    assert_eq!(subdirectory_probe("/d", "kde4", "k.desktop"), "/d/applications/kde4/k.desktop");
}

#[test]
fn data_directories_put_the_users_directory_first() {
    let dirs = Dirs::all(&env(), None);
    assert_eq!(data_directories(&dirs), data_dirs());
    let mut no_home = Environment::empty();
    no_home.xdg_data_dirs = s("/a:/b");
    assert_eq!(
        data_directories(&Dirs::all(&no_home, None)),
        vec!["/a".to_string(), "/b".to_string()]
    );
}

#[test]
fn files_are_tried_in_the_order_given() {
    let mut fs = FileSystem::new();
    fs.add_file("/one", "[Default Applications]\nx/y=missing.desktop\n");
    fs.add_file("/two", "[Default Applications]\nx/y=b.desktop\n");
    fs.add_file("/three", "[Default Applications]\nx/y=a.desktop\n");
    fs.add_file("/data/applications/a.desktop", &desktop("a"));
    fs.add_file("/data/applications/b.desktop", &desktop("b"));
    let paths = vec!["/none".to_string(), "/one".to_string(), "/two".to_string(), "/three".to_string()];
    assert_eq!(check_mimeapps_lists(&paths, &fs, &data_dirs(), "x/y"), s("b"));
    assert_eq!(check_mimeapps_lists(&Vec::new(), &fs, &data_dirs(), "x/y"), None);
}

#[test]
fn snapshot_gives_the_answer_of_the_disk() {
    let mut env = env();
    env.xdg_current_desktop = s("sway");
    let mut disk = FileSystem::new();
    disk.add_file("/cfg/sway-mimeapps.list", "[Default Applications]\nx/y=gone.desktop;v-w.desktop;/opt/o.desktop\n");
    disk.add_file("/etc/xdg/mimeapps.list", "[Added Associations]\nx/y=deep.desktop\n");
    disk.add_file("/unrelated/file", "Exec=no\n");
    disk.add_file("/usr/share/applications/other.desktop", &desktop("other"));
    disk.add_file("/usr/share/applications/v/w.desktop", "[Desktop Entry]\nName=no command\n");
    disk.add_file("/opt/o.desktop", "[Desktop Entry]\nName=no command either\n");
    disk.add_directory("/usr/share/applications", vec!["v".to_string(), "sub".to_string()]);
    disk.add_file("/usr/share/applications/sub/deep.desktop", &desktop("deep %f"));

    let dirs = Dirs::all(&env, None);
    let data = data_directories(&dirs);
    let mut snapshot = FileSystem::new();
    let mut ids = Vec::new();
    for path in dirs.mimeapps_search_paths() {
        if let Some(text) = disk.read(&path) {
            snapshot.add_file(&path, text);
            ids.extend(association_ids(text, "x/y"));
        }
    }
    for id in &ids {
        for dir in &data {
            for path in probe_paths(dir, id) {
                if let Some(text) = disk.read(&path) {
                    snapshot.add_file(&path, text);
                }
            }
            let apps = applications_dir(dir);
            if let Some(entries) = disk.entries(&apps) {
                snapshot.add_directory(&apps, entries.clone());
                for entry in entries {
                    let path = subdirectory_probe(dir, entry, id);
                    if let Some(text) = disk.read(&path) {
                        snapshot.add_file(&path, text);
                    }
                }
            }
        }
    }
    assert!(!snapshot.is_file("/unrelated/file"));
    assert!(!snapshot.is_file("/usr/share/applications/other.desktop"));
    assert_eq!(query_default_app(&env, &disk, "x/y").unwrap(), "deep %f");
    assert_eq!(query_default_app(&env, &snapshot, "x/y").unwrap(), "deep %f");
}
