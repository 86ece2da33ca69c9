use rocs::highlight::{Highlighter, DEFAULT_THEME};
use rocs::markdown::{plan_html_events, render_markdown, render_page_html, HtmlEvent, MdEvent};

fn parsed_indices(plan: &[HtmlEvent]) -> Vec<usize> {
    plan.iter()
        .filter_map(|e| match e {
            HtmlEvent::Parsed(i) => Some(*i),
            _ => None,
        })
        .collect()
}

#[test]
fn themes_fall_back_to_the_default() {
    let h = Highlighter::load_defaults();
    assert!(h.has_theme("InspiredGitHub"));
    assert!(!h.has_theme("no such theme"));
    assert_eq!(h.theme_for("InspiredGitHub"), "InspiredGitHub");
    assert_eq!(h.theme_for("no such theme"), DEFAULT_THEME);
}

#[test]
fn known_languages() {
    let h = Highlighter::load_defaults();
    assert!(h.knows_language("rust"));
    assert!(h.knows_language("rs"));
    assert!(h.knows_language("Python"));
    assert!(!h.knows_language("no-such-language"));
    assert!(!h.knows_language(""));
}

#[test]
fn plain_markdown_is_rendered() {
    let h = Highlighter::load_defaults();
    let html = render_markdown(&h, "# Title\n\nSome *text*.\n", "InspiredGitHub");
    assert_eq!(html, "<h1>Title</h1>\n<p>Some <em>text</em>.</p>\n");
}

#[test]
fn tables_task_lists_and_strikethrough_are_enabled() {
    let h = Highlighter::load_defaults();
    let html = render_markdown(&h, "| a | b |\n|---|---|\n| 1 | 2 |\n\n- [x] done\n\n~~old~~\n", DEFAULT_THEME);
    assert!(html.contains("<table>"));
    assert!(html.contains("<input disabled=\"\" type=\"checkbox\" checked=\"\"/>"));
    assert!(html.contains("<del>old</del>"));
}

#[test]
fn known_code_is_highlighted() {
    let h = Highlighter::load_defaults();
    let html = render_markdown(&h, "```rust\nfn main() {}\n```\n", DEFAULT_THEME);
    assert!(html.starts_with("<pre style=\""));
    assert!(!html.contains("language-rust"));
    assert!(html.contains("main"));
}

#[test]
fn unknown_code_is_left_as_a_code_block() {
    let h = Highlighter::load_defaults();
    let html = render_markdown(&h, "```no-such-language\nx < y\n```\n", DEFAULT_THEME);
    assert_eq!(html, "<pre><code class=\"language-no-such-language\">x &lt; y\n</code></pre>\n");
}

#[test]
fn indented_code_is_left_alone() {
    let h = Highlighter::load_defaults();
    let html = render_markdown(&h, "    fn main() {}\n", DEFAULT_THEME);
    assert_eq!(html, "<pre><code>fn main() {}\n</code></pre>\n");
}

#[test]
fn plan_passes_unknown_blocks_through() {
    let h = Highlighter::load_defaults();
    let events = vec![
        MdEvent::Other,
        MdEvent::FencedStart("no-such-language".to_string()),
        MdEvent::Text("x".to_string()),
        MdEvent::CodeEnd,
        MdEvent::Text("after".to_string()),
    ];
    let plan = plan_html_events(&h, &events, DEFAULT_THEME);
    assert_eq!(plan.len(), 5);
    assert_eq!(parsed_indices(&plan), vec![0, 1, 2, 3, 4]);
}

#[test]
fn plan_replaces_a_known_block_by_html() {
    let h = Highlighter::load_defaults();
    let events = vec![
        MdEvent::Other,
        MdEvent::FencedStart("rust extra words".to_string()),
        MdEvent::Text("fn a() {}\n".to_string()),
        MdEvent::Text("fn b() {}\n".to_string()),
        MdEvent::CodeEnd,
        MdEvent::Other,
    ];
    let plan = plan_html_events(&h, &events, DEFAULT_THEME);
    assert_eq!(plan.len(), 3);
    assert_eq!(parsed_indices(&plan), vec![0, 5]);
    match &plan[1] {
        HtmlEvent::Html(markup) => {
            assert!(markup.starts_with("<pre style=\""));
            assert!(markup.contains("fn"));
            assert_ne!(markup, "fn a() {}\nfn b() {}\n");
        }
        _ => panic!("expected highlighted HTML"),
    }
}

#[test]
fn text_outside_code_is_kept() {
    let h = Highlighter::load_defaults();
    let events = vec![MdEvent::Text("a".to_string()), MdEvent::CodeEnd, MdEvent::Other];
    let plan = plan_html_events(&h, &events, DEFAULT_THEME);
    assert_eq!(parsed_indices(&plan), vec![0, 1, 2]);
}

#[test]
fn whole_page() {
    let h = Highlighter::load_defaults();
    let page = render_page_html(&h, "<main>{{ content }}</main>{{ watch_script }}", "<script>r()</script>", "hello", "x", true);
    assert_eq!(page, "<main><p>hello</p>\n</main><script>r()</script>");
    let page = render_page_html(&h, "<main>{{ content }}</main>{{ watch_script }}", "<script>r()</script>", "hello", "x", false);
    assert_eq!(page, "<main><p>hello</p>\n</main>");
}

#[test]
fn only_the_first_word_of_a_fence_counts() {
    let h = Highlighter::load_defaults();
    let a = render_markdown(&h, "```rust\nfn f() {}\n```\n", DEFAULT_THEME);
    let b = render_markdown(&h, "```rust ignore extra\nfn f() {}\n```\n", DEFAULT_THEME);
    assert_eq!(a, b);
    let c = render_markdown(&h, "```rs\nfn f() {}\n```\n", DEFAULT_THEME);
    assert!(c.starts_with("<pre style=\""));
}

#[test]
fn style_and_watch_only_change_the_html() {
    let h = Highlighter::load_defaults();
    let t = "{{ content }}{{ watch_script }}";
    let a = render_page_html(&h, t, "S", "```rust\nfn f() {}\n```\n", "InspiredGitHub", true);
    let b = render_page_html(&h, t, "S", "```rust\nfn f() {}\n```\n", DEFAULT_THEME, false);
    assert_ne!(a, b);
    assert!(a.ends_with('S'));
}
