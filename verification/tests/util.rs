use slime::util::either::Either;
use slime::util::path::{Component, Path};

fn split(p: &str) -> (String, String) {
    let (d, b) = Path::new(p).split();
    (d.into_string(), b.into_string())
}

fn names(p: &str) -> Vec<String> {
    Path::new(p)
        .components()
        .into_iter()
        .map(|c| match c {
            Component::RootDir => "<root>".to_string(),
            Component::AppDefined => "<app>".to_string(),
            Component::CurDir => "<cur>".to_string(),
            Component::ParentDir => "<parent>".to_string(),
            Component::Normal(p) => p.into_string(),
        })
        .collect()
}

fn strip(path: &str, prefix: &str) -> Option<String> {
    Path::new(path).strip_prefix(&Path::new(prefix)).map(|p| p.into_string())
}

#[test]
fn either_left_and_right() {
    let values: [Either<i32, &str>; 2] = [Either::Left(1), Either::Right("the right value")];
    assert_eq!(values[0].is_left(), true);
    assert_eq!(values[1].is_left(), false);
    assert_eq!(values[0].is_right(), false);
    assert_eq!(values[1].is_right(), true);
    let left: Either<&str, ()> = Either::Left("some value");
    assert_eq!(left.left(), Some("some value"));
    assert_eq!(left.right(), None);
    let right: Either<(), i32> = Either::Right(321);
    assert_eq!(right.left(), None);
    assert_eq!(right.right(), Some(321));
    assert_eq!(right.clone(), Either::Right(321));
    assert!(Either::<i32, i32>::Left(5) < Either::Right(0));
}

#[test]
fn path_text_round_trips() {
    assert_eq!(Path::new("a/b").as_str(), "a/b");
    assert_eq!(Path::from_string("x".to_string()).into_owned().into_string(), "x");
    assert_eq!(Path::new("/q").clone().as_str(), "/q");
}

#[test]
fn path_roots() {
    for (p, root, app) in [
        ("", false, false),
        ("a", false, false),
        ("/", true, false),
        ("/a", true, false),
        ("//", false, true),
        ("//a", false, true),
        ("//\u{e9}", false, true),
        ("///", true, false),
        ("///a", true, false),
    ] {
        let path = Path::new(p);
        assert_eq!(path.has_root(), root, "{p}");
        assert_eq!(path.has_app_defined(), app, "{p}");
        assert_eq!(path.is_abs(), root || app, "{p}");
    }
}

#[test]
fn path_split() {
    assert_eq!(split("a"), (".".to_string(), "a".to_string()));
    assert_eq!(split(""), (".".to_string(), "".to_string()));
    assert_eq!(split("/a"), ("/".to_string(), "a".to_string()));
    assert_eq!(split("//a"), ("//".to_string(), "a".to_string()));
    assert_eq!(split("///a"), ("/".to_string(), "a".to_string()));
    assert_eq!(split("a/b"), ("a".to_string(), "b".to_string()));
    assert_eq!(split("a//b"), ("a".to_string(), "b".to_string()));
    assert_eq!(split("a/b/"), ("a/b".to_string(), ".".to_string()));
    assert_eq!(split("/"), ("/".to_string(), ".".to_string()));
    assert_eq!(split("/a/b/c.txt"), ("/a/b".to_string(), "c.txt".to_string()));
    assert_eq!(Path::new("x/y").basename().as_str(), "y");
    assert_eq!(Path::new("x/y").dirname().as_str(), "x");
}

#[test]
fn path_components() {
    assert_eq!(names(""), Vec::<String>::new());
    assert_eq!(names("a"), vec!["a"]);
    assert_eq!(names("/"), vec!["<root>", "<cur>"]);
    assert_eq!(names("/a/b"), vec!["<root>", "a", "b"]);
    assert_eq!(names("//a/b"), vec!["<app>", "a", "b"]);
    assert_eq!(names("///a"), vec!["<root>", "a"]);
    assert_eq!(names("a//b/"), vec!["a", "b", "<cur>"]);
    assert_eq!(names("../a/./b/.."), vec!["<parent>", "a", "<cur>", "b", "<parent>"]);
    assert_eq!(names("."), vec!["<cur>"]);
}

#[test]
fn path_is_normal() {
    for p in ["/", "//", "a", "a/b", "/a/b", "//a", "../a", "../../a/b", "a/", "..", "/a/"] {
        assert!(Path::new(p).is_normal(), "{p}");
    }
    for p in ["", ".", "./a", "a/./b", "a//b", "/..", "/a/..", "a/..", "a/../b", "///", "a//", "/."] {
        assert!(!Path::new(p).is_normal(), "{p}");
    }
}

#[test]
fn path_join() {
    let base = Path::new("/base");
    assert_eq!(base.join(&Path::new("x/y")).as_str(), "/base/x/y");
    assert_eq!(base.join(&Path::new("/abs")).as_str(), "/abs");
    assert_eq!(base.join(&Path::new("//app")).as_str(), "//app");
    assert_eq!(base.join(&Path::new("")).as_str(), "/base/");
    assert_eq!(Path::new("").join(&Path::new("x")).as_str(), "/x");
}

#[test]
fn path_strip_prefix() {
    assert_eq!(strip("/a/b/c", "/a"), Some("b/c".to_string()));
    assert_eq!(strip("/a/b/c", "/a/b"), Some("c".to_string()));
    assert_eq!(strip("/a/b/c", "/a/b/c"), Some(".".to_string()));
    assert_eq!(strip("/a/b/c", "/a/b/"), Some("c".to_string()));
    assert_eq!(strip("a/b", "a"), Some("b".to_string()));
    assert_eq!(strip("a//b", "a"), Some("b".to_string()));
    assert_eq!(strip("a/b", "b"), None);
    assert_eq!(strip("a", "b"), None);
    assert_eq!(strip("/a/b", "a"), None);
    assert_eq!(strip("//a/b", "/a"), None);
    assert_eq!(strip("//a/b", "//a"), Some("b".to_string()));
    assert_eq!(strip("a/b", ""), Some("a/b".to_string()));
    assert_eq!(strip("", ""), Some(".".to_string()));
    assert_eq!(strip("./a", "a"), Some(".".to_string()));
    assert_eq!(strip("a/b", "."), Some("a/b".to_string()));
    assert_eq!(strip("", "."), Some(".".to_string()));
    assert_eq!(strip("ab/c", "a"), Some("b/c".to_string()));
    assert_eq!(strip("a/b/c", "a/x"), None);
    assert_eq!(strip("a", "a/b"), None);
}

#[test]
fn paths_compare_as_text() {
    assert_eq!(Path::new("a/b"), Path::from_string("a/b".to_string()));
    assert!(Path::new("a/b") != Path::new("a//b"));
    assert!(Path::new("a") < Path::new("b"));
    assert_eq!(
        Path::new("/x/..").components(),
        vec![Component::RootDir, Component::Normal(Path::new("x")), Component::ParentDir]
    );
    assert!(Component::Normal(Path::new("x")) != Component::Normal(Path::new("y")));
    assert!(Component::CurDir != Component::ParentDir);
    assert_eq!(Component::Normal(Path::new("x")).clone(), Component::Normal(Path::new("x")));
}
