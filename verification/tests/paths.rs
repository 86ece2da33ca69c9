use rocs::path::{
    components_of, extension_of, file_name_of, has_only_normal_components, join_path,
    name_extension_of, add_md_extension, starts_with_path, Component,
};

fn describe(p: &str) -> Vec<String> {
    components_of(p)
        .into_iter()
        .map(|c| match c {
            Component::RootDir => "/".to_string(),
            Component::CurDir => ".".to_string(),
            Component::ParentDir => "..".to_string(),
            Component::Normal(s) => format!("n:{}", s),
        })
        .collect()
}

#[test]
fn components_drop_empty_and_inner_dot_pieces() {
    assert_eq!(describe("a/./b//c/"), vec!["n:a", "n:b", "n:c"]);
    assert_eq!(describe("/x/y"), vec!["/", "n:x", "n:y"]);
    assert_eq!(describe("./x"), vec![".", "n:x"]);
    assert_eq!(describe("../x"), vec!["..", "n:x"]);
    assert_eq!(describe("a/../b"), vec!["n:a", "..", "n:b"]);
    assert!(describe("").is_empty());
    assert_eq!(describe("."), vec!["."]);
    assert_eq!(describe("//"), vec!["/"]);
}

#[test]
fn plain_addresses_are_accepted() {
    assert!(has_only_normal_components("guide.md"));
    assert!(has_only_normal_components("docs/guide"));
    assert!(has_only_normal_components("a/./b"));
    assert!(has_only_normal_components("dir/"));
    assert!(has_only_normal_components(""));
}

#[test]
fn climbing_addresses_are_refused() {
    assert!(!has_only_normal_components("../etc/passwd"));
    assert!(!has_only_normal_components("a/../../b"));
    assert!(!has_only_normal_components("/etc/passwd"));
    assert!(!has_only_normal_components("./README.md"));
    assert!(!has_only_normal_components(".."));
}

#[test]
fn file_names() {
    assert_eq!(file_name_of("a/b.md"), Some("b.md".to_string()));
    assert_eq!(file_name_of("a/b/"), Some("b".to_string()));
    assert_eq!(file_name_of("a/b/."), Some("b".to_string()));
    assert_eq!(file_name_of("a/.."), None);
    assert_eq!(file_name_of("/"), None);
    assert_eq!(file_name_of(""), None);
}

#[test]
fn extensions() {
    assert_eq!(extension_of("docs/guide.md"), Some("md".to_string()));
    assert_eq!(extension_of("archive.tar.gz"), Some("gz".to_string()));
    assert_eq!(extension_of("a/.bashrc"), None);
    assert_eq!(extension_of("a/..md"), Some("md".to_string()));
    assert_eq!(extension_of("notes."), Some("".to_string()));
    assert_eq!(extension_of("docs/guide"), None);
    assert_eq!(name_extension_of("README.md"), Some("md".to_string()));
    assert_eq!(name_extension_of(".hidden"), None);
}

#[test]
fn joining() {
    assert_eq!(join_path("/docs", "a/b.md"), "/docs/a/b.md");
    assert_eq!(join_path("/docs/", "x"), "/docs/x");
    assert_eq!(join_path("/docs", "/abs"), "/abs");
    assert_eq!(join_path("/docs", ""), "/docs/");
    assert_eq!(join_path("", "x"), "x");
}

#[test]
fn md_extension_is_added_after_the_file_name() {
    assert_eq!(add_md_extension("/docs/foods"), "/docs/foods.md");
    assert_eq!(add_md_extension("/docs/foods/"), "/docs/foods.md");
    assert_eq!(add_md_extension("/docs/foods/./"), "/docs/foods.md");
    assert_eq!(add_md_extension("/"), "/");
    assert_eq!(add_md_extension("a/.."), "a/..");
}

#[test]
fn starts_with_goes_by_components() {
    assert!(starts_with_path("/docs/a.md", "/docs"));
    assert!(starts_with_path("/docs", "/docs/"));
    assert!(starts_with_path("/docs//a.md", "/docs"));
    assert!(!starts_with_path("/docs2/a.md", "/docs"));
    assert!(!starts_with_path("/etc/passwd", "/docs"));
    assert!(!starts_with_path("/doc", "/docs"));
}

#[test]
fn joined_plain_paths_stay_below_the_base() {
    for rel in ["a.md", "a/b/c.md", "dir/", "x/./y"] {
        let joined = join_path("/srv/docs", rel);
        assert!(starts_with_path(&joined, "/srv/docs"));
    }
    assert!(!starts_with_path(&join_path("/srv/docs", "/etc"), "/srv/docs"));
}
