use rocs::page::{
    after_canonicalize, after_dir_check, fill_page, start_page, Canonical, PageError, PageStep,
    ROOT_FILE,
};
use rocs::text::{chars_of, first_word_of, is_white_space_char, replace_all_of, string_from_chars};

fn check_dir(step: PageStep) -> String {
    match step {
        PageStep::CheckDir(p) => p,
        _ => panic!("expected a directory check"),
    }
}

fn canonicalize(step: PageStep) -> String {
    match step {
        PageStep::Canonicalize(p) => p,
        _ => panic!("expected a canonicalization"),
    }
}

fn is_not_found(step: &PageStep) -> bool {
    matches!(step, PageStep::Fail(PageError::NotFound))
}

#[test]
fn a_plain_address_is_joined_to_the_root() {
    assert_eq!(check_dir(start_page("/srv/docs", "guide.md")), "/srv/docs/guide.md");
    assert_eq!(check_dir(start_page("/srv/docs", ROOT_FILE)), "/srv/docs/README.md");
    assert_eq!(check_dir(start_page("/srv/docs", "sub/")), "/srv/docs/sub/");
}

#[test]
fn a_climbing_address_is_not_found() {
    assert!(is_not_found(&start_page("/srv/docs", "../secret.md")));
    assert!(is_not_found(&start_page("/srv/docs", "/etc/passwd")));
    assert!(is_not_found(&start_page("/srv/docs", "./README.md")));
    assert!(is_not_found(&start_page("/srv/docs", "a/../../b.md")));
}

#[test]
fn a_directory_is_served_by_its_readme() {
    assert_eq!(canonicalize(after_dir_check("/srv/docs/sub", true)), "/srv/docs/sub/README.md");
    assert_eq!(canonicalize(after_dir_check("/srv/docs/sub/", true)), "/srv/docs/sub/README.md");
}

#[test]
fn a_name_without_extension_gets_md() {
    assert_eq!(canonicalize(after_dir_check("/srv/docs/foods", false)), "/srv/docs/foods.md");
    assert_eq!(canonicalize(after_dir_check("/srv/docs/foods/", false)), "/srv/docs/foods.md");
}

#[test]
fn only_markdown_is_served() {
    assert_eq!(canonicalize(after_dir_check("/srv/docs/rust.md", false)), "/srv/docs/rust.md");
    assert!(is_not_found(&after_dir_check("/srv/docs/logo.png", false)));
    assert!(is_not_found(&after_dir_check("/srv/docs/notes.", false)));
    assert!(is_not_found(&after_dir_check("/srv/docs/a.MD", false)));
}

#[test]
fn canonical_paths_outside_the_root_are_not_found() {
    match after_canonicalize("/srv/docs", Canonical::Found("/srv/docs/a/b.md".to_string())) {
        PageStep::Read(p) => assert_eq!(p, "/srv/docs/a/b.md"),
        _ => panic!("expected a read"),
    }
    assert!(is_not_found(&after_canonicalize("/srv/docs", Canonical::Found("/etc/x.md".to_string()))));
    assert!(is_not_found(&after_canonicalize("/srv/docs", Canonical::Found("/srv/docs2/x.md".to_string()))));
    assert!(is_not_found(&after_canonicalize("/srv/docs", Canonical::Missing)));
    match after_canonicalize("/srv/docs", Canonical::Failed("permission denied".to_string())) {
        PageStep::Fail(PageError::Internal(m)) => assert_eq!(m, "permission denied"),
        _ => panic!("expected an internal error"),
    }
}

#[test]
fn errors_answer_with_status_and_text() {
    assert_eq!(PageError::NotFound.status_code(), 404);
    assert_eq!(PageError::NotFound.message(), "Page not found");
    let e = PageError::Internal("disk on fire".to_string());
    assert_eq!(e.status_code(), 500);
    assert_eq!(e.message(), "Could not read page: disk on fire");
}

#[test]
fn template_is_filled() {
    let t = "<main>{{ content }}</main>{{ watch_script }}";
    assert_eq!(fill_page(t, "<p>hi</p>", true, "<script>r()</script>"), "<main><p>hi</p></main><script>r()</script>");
    assert_eq!(fill_page(t, "<p>hi</p>", false, "<script>r()</script>"), "<main><p>hi</p></main>");
    assert_eq!(fill_page("plain", "<p>hi</p>", true, "s"), "plain");
}

#[test]
fn watch_marker_in_the_body_is_replaced_too() {
    let t = "{{ content }}";
    assert_eq!(fill_page(t, "a {{ watch_script }} b", true, "S"), "a S b");
}

#[test]
fn replacement_is_left_to_right_without_overlap() {
    assert_eq!(replace_all_of("aaa", "aa", "b"), "ba");
    assert_eq!(replace_all_of("xyxy", "xy", ""), "");
    assert_eq!(replace_all_of("abc", "zz", "q"), "abc");
    assert_eq!(replace_all_of("abc", "", "X"), "XaXbXcX");
    assert_eq!(replace_all_of("", "", "X"), "X");
}

#[test]
fn code_language_is_the_first_word() {
    assert_eq!(first_word_of("rust"), "rust");
    assert_eq!(first_word_of("  rust ignore"), "rust");
    assert_eq!(first_word_of("\u{3000}py\tx"), "py");
    assert_eq!(first_word_of(""), "");
    assert_eq!(first_word_of(" \n "), "");
}

#[test]
fn character_helpers() {
    assert_eq!(chars_of("añb"), vec!['a', 'ñ', 'b']);
    assert_eq!(string_from_chars(&vec!['x', 'y', 'z'], 1, 3), "yz");
    assert!(is_white_space_char('\u{85}'));
    assert!(is_white_space_char('\u{2028}'));
    assert!(!is_white_space_char('\u{200B}'));
    assert!(!is_white_space_char('a'));
}

#[test]
fn a_directory_and_its_readme_resolve_to_the_same_file() {
    let dir = after_dir_check(&check_dir(start_page("/srv/docs", "sub")), true);
    let readme = after_dir_check(&check_dir(start_page("/srv/docs", "sub/README.md")), false);
    assert_eq!(canonicalize(dir), canonicalize(readme));
}

#[test]
fn a_name_and_its_md_file_resolve_to_the_same_file() {
    let bare = after_dir_check(&check_dir(start_page("/srv/docs", "guide/intro")), false);
    let md = after_dir_check(&check_dir(start_page("/srv/docs", "guide/intro.md")), false);
    assert_eq!(canonicalize(bare), canonicalize(md));
}

#[test]
fn a_directory_with_trailing_slash_and_its_readme_name_the_same_file() {
    use_components_equal(
        &canonicalize(after_dir_check(&check_dir(start_page("/srv/docs", "sub/")), true)),
        &canonicalize(after_dir_check(&check_dir(start_page("/srv/docs", "sub//README.md")), false)),
    );
}

fn use_components_equal(a: &str, b: &str) {
    let show = |p: &str| {
        rocs::path::components_of(p)
            .into_iter()
            .map(|c| match c {
                rocs::path::Component::Normal(s) => s,
                rocs::path::Component::RootDir => "/".to_string(),
                rocs::path::Component::CurDir => ".".to_string(),
                rocs::path::Component::ParentDir => "..".to_string(),
            })
            .collect::<Vec<_>>()
    };
    assert_eq!(show(a), show(b));
    assert_eq!(show(a), vec!["/", "srv", "docs", "sub", "README.md"]);
}
