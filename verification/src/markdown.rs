//! Rendering a Markdown page: `pulldown-cmark` parses it and writes the HTML;
//! in between, fenced code blocks in a language that `syntect` knows are
//! replaced by their highlighted HTML.

use vstd::prelude::*;
use vstd::string::StringExecFns;
use pulldown_cmark::{CodeBlockKind, Event, Options, Parser, Tag, TagEnd};
use crate::highlight::{highlighted_html, Highlighter};
use crate::page::{fill_page, page_html, resolve, CanonicalView, PageErrorView, PageStepView};
use crate::text::{first_word, first_word_of};

verus! {

/// Parser option: tables.
pub const OPTION_TABLES: u32 = 2;

/// Parser option: strikethrough.
pub const OPTION_STRIKETHROUGH: u32 = 8;

/// Parser option: task lists.
pub const OPTION_TASKLISTS: u32 = 16;

/// The parser options that pages are rendered with: tables, task lists and
/// strikethrough.
pub const PAGE_OPTIONS: u32 = 26;

/// What the highlighting pass needs to know of one parser event.
pub enum MdEvent {
    /// The start of a fenced code block, with its info string.
    FencedStart(String),
    /// Text.
    Text(String),
    /// The end of a code block.
    CodeEnd,
    /// Any other event.
    Other,
}

/// The mathematical value of an [`MdEvent`].
pub enum MdEventView {
    FencedStart(Seq<char>),
    Text(Seq<char>),
    CodeEnd,
    Other,
}

impl View for MdEvent {
    type V = MdEventView;

    open spec fn view(&self) -> MdEventView {
        match self {
            MdEvent::FencedStart(s) => MdEventView::FencedStart(s@),
            MdEvent::Text(s) => MdEventView::Text(s@),
            MdEvent::CodeEnd => MdEventView::CodeEnd,
            MdEvent::Other => MdEventView::Other,
        }
    }
}

/// One event handed to the HTML writer.
pub enum HtmlEvent {
    /// The parser's event at this index, unchanged.
    Parsed(usize),
    /// Raw HTML.
    Html(String),
    /// The start of a fenced code block in this language.
    FencedStart(String),
    /// Text.
    Text(String),
    /// The end of a code block.
    CodeEnd,
}

/// The mathematical value of an [`HtmlEvent`].
pub enum HtmlEventView {
    Parsed(usize),
    Html(Seq<char>),
    FencedStart(Seq<char>),
    Text(Seq<char>),
    CodeEnd,
}

impl View for HtmlEvent {
    type V = HtmlEventView;

    open spec fn view(&self) -> HtmlEventView {
        match self {
            HtmlEvent::Parsed(i) => HtmlEventView::Parsed(*i),
            HtmlEvent::Html(s) => HtmlEventView::Html(s@),
            HtmlEvent::FencedStart(s) => HtmlEventView::FencedStart(s@),
            HtmlEvent::Text(s) => HtmlEventView::Text(s@),
            HtmlEvent::CodeEnd => HtmlEventView::CodeEnd,
        }
    }
}

/// The views of a sequence of parser events.
pub open spec fn md_views(es: Seq<MdEvent>) -> Seq<MdEventView> {
    es.map_values(|e: MdEvent| e@)
}

/// The views of a sequence of writer events.
pub open spec fn html_views(es: Seq<HtmlEvent>) -> Seq<HtmlEventView> {
    es.map_values(|e: HtmlEvent| e@)
}

/// The events that `pulldown_cmark::Parser::new_ext` yields for `markdown`
/// with the option bits `options`, as the highlighting pass sees them.
pub uninterp spec fn markdown_events(markdown: Seq<char>, options: u32) -> Seq<MdEventView>;

/// The HTML that `pulldown_cmark::html::push_html` writes for `plan`, where
/// `Parsed(i)` stands for the parser's `i`-th event on `markdown` with the
/// option bits `options`.
pub uninterp spec fn markdown_html(
    markdown: Seq<char>,
    options: u32,
    plan: Seq<HtmlEventView>,
) -> Seq<char>;

/// `pulldown_cmark::Parser::new_ext` on `markdown` with the option bits
/// `options`, each event classified one for one.
#[verifier::external_body]
fn parse_markdown(markdown: &str, options: u32) -> (kinds: Vec<MdEvent>)
    ensures
        md_views(kinds@) == markdown_events(markdown@, options),
{
    let mut kinds = Vec::new();
    for event in Parser::new_ext(markdown, Options::from_bits_truncate(options)) {
        kinds.push(match event {
            Event::Start(Tag::CodeBlock(CodeBlockKind::Fenced(info))) => MdEvent::FencedStart(info.to_string()),
            Event::Text(t) => MdEvent::Text(t.to_string()),
            Event::End(TagEnd::CodeBlock) => MdEvent::CodeEnd,
            _ => MdEvent::Other,
        });
    }
    kinds
}

/// Whether every `Parsed` index of `plan` is below `n`.
pub open spec fn plan_within(plan: Seq<HtmlEventView>, n: nat) -> bool {
    forall|i: int| 0 <= i < plan.len() ==> (#[trigger] plan[i] matches HtmlEventView::Parsed(k) ==> k < n)
}

/// `pulldown_cmark::Parser::new_ext` on `markdown` with the option bits
/// `options`, then `pulldown_cmark::html::push_html` on the events of `plan`,
/// each made from its entry one for one (`Parsed(i)` is the parser's `i`-th
/// event).
#[verifier::external_body]
fn write_html(markdown: &str, options: u32, plan: &Vec<HtmlEvent>) -> (html: String)
    requires
        plan_within(html_views(plan@), markdown_events(markdown@, options).len()),
    ensures
        html@ == markdown_html(markdown@, options, html_views(plan@)),
{
    let parsed: Vec<Event> = Parser::new_ext(markdown, Options::from_bits_truncate(options)).collect();
    let mut events: Vec<Event> = Vec::new();
    for e in plan.iter() {
        events.push(match e {
            HtmlEvent::Parsed(i) => parsed[*i].clone(),
            HtmlEvent::Html(s) => Event::Html(s.clone().into()),
            HtmlEvent::FencedStart(l) => Event::Start(Tag::CodeBlock(CodeBlockKind::Fenced(l.clone().into()))),
            HtmlEvent::Text(s) => Event::Text(s.clone().into()),
            HtmlEvent::CodeEnd => Event::End(TagEnd::CodeBlock),
        });
    }
    let mut html = String::new();
    pulldown_cmark::html::push_html(&mut html, events.into_iter());
    html
}


/// An open code block: its language and the code gathered so far.
pub type OpenBlock = Option<(Seq<char>, Seq<char>)>;

/// The writer events that replace a closed code block: its highlighted HTML,
/// or, where highlighting fails, the block again, as one text, with its
/// language as info string.
pub open spec fn closed_block(language: Seq<char>, code: Seq<char>, theme: Seq<char>) -> Seq<
    HtmlEventView,
> {
    match highlighted_html(code, language, theme) {
        Some(h) => seq![HtmlEventView::Html(h)],
        None => seq![
            HtmlEventView::FencedStart(language),
            HtmlEventView::Text(code),
            HtmlEventView::CodeEnd,
        ],
    }
}

/// One step of the highlighting pass over the parser's `i`-th event: a fenced
/// block in a known language opens (replacing one still open); text inside an
/// open block is gathered; the end of an open block emits [`closed_block`];
/// everything else passes unchanged.
pub open spec fn highlight_step(
    open: OpenBlock,
    i: usize,
    event: MdEventView,
    languages: Set<Seq<char>>,
    theme: Seq<char>,
) -> (OpenBlock, Seq<HtmlEventView>) {
    match event {
        MdEventView::FencedStart(info) => if languages.contains(first_word(info)) {
            (Some((first_word(info), Seq::empty())), Seq::empty())
        } else {
            (open, seq![HtmlEventView::Parsed(i)])
        },
        MdEventView::Text(t) => match open {
            Some((l, code)) => (Some((l, code + t)), Seq::empty()),
            None => (None, seq![HtmlEventView::Parsed(i)]),
        },
        MdEventView::CodeEnd => match open {
            Some((l, code)) => (None, closed_block(l, code, theme)),
            None => (None, seq![HtmlEventView::Parsed(i)]),
        },
        MdEventView::Other => (open, seq![HtmlEventView::Parsed(i)]),
    }
}

/// The highlighting pass over the first `k` events.
pub open spec fn highlight_prefix(
    events: Seq<MdEventView>,
    k: int,
    languages: Set<Seq<char>>,
    theme: Seq<char>,
) -> (OpenBlock, Seq<HtmlEventView>)
    decreases k,
{
    if k <= 0 {
        (None, Seq::empty())
    } else {
        let (open, out) = highlight_prefix(events, k - 1, languages, theme);
        let (open2, more) = highlight_step(open, (k - 1) as usize, events[k - 1], languages, theme);
        (open2, out + more)
    }
}

/// The writer events for a page's parser events.
pub open spec fn highlight_plan(
    events: Seq<MdEventView>,
    languages: Set<Seq<char>>,
    theme: Seq<char>,
) -> Seq<HtmlEventView> {
    highlight_prefix(events, events.len() as int, languages, theme).1
}

/// The view of an open block.
pub open spec fn open_view(o: Option<(String, String)>) -> OpenBlock {
    match o {
        Some((l, c)) => Some((l@, c@)),
        None => None,
    }
}

/// The parser's first `n` events, unchanged.
pub open spec fn unchanged_plan(n: nat) -> Seq<HtmlEventView> {
    Seq::new(n, |i: int| HtmlEventView::Parsed(i as usize))
}

/// Whether no fenced code block among `events` is in a known language.
pub open spec fn no_known_code(events: Seq<MdEventView>, languages: Set<Seq<char>>) -> bool {
    forall|i: int|
        0 <= i < events.len() ==> (#[trigger] events[i] matches MdEventView::FencedStart(info)
            ==> !languages.contains(first_word(info)))
}

/// A page without a fenced code block in a known language is written exactly
/// as the parser yields it.
pub proof fn lemma_no_known_code_unchanged(
    events: Seq<MdEventView>,
    languages: Set<Seq<char>>,
    theme: Seq<char>,
)
    requires
        no_known_code(events, languages),
        events.len() <= usize::MAX,
    ensures
        highlight_plan(events, languages, theme) == unchanged_plan(events.len()),
{
    lemma_no_known_code_prefix(events, events.len() as int, languages, theme);
}

proof fn lemma_no_known_code_prefix(
    events: Seq<MdEventView>,
    k: int,
    languages: Set<Seq<char>>,
    theme: Seq<char>,
)
    requires
        no_known_code(events, languages),
        0 <= k <= events.len(),
        events.len() <= usize::MAX,
    ensures
        highlight_prefix(events, k, languages, theme) == (None::<(Seq<char>, Seq<char>)>, unchanged_plan(k as nat)),
    decreases k,
{
    if k > 0 {
        lemma_no_known_code_prefix(events, k - 1, languages, theme);
        let e = events[k - 1];
        assert(unchanged_plan((k - 1) as nat) + seq![HtmlEventView::Parsed((k - 1) as usize)]
            =~= unchanged_plan(k as nat));
    } else {
        assert(unchanged_plan(0) =~= Seq::<HtmlEventView>::empty());
    }
}

/// Whether the parser events that `plan` keeps appear in their order,
/// each at most once.
pub open spec fn parsed_in_order(plan: Seq<HtmlEventView>) -> bool {
    forall|i: int, j: int|
        0 <= i < j < plan.len() ==> (#[trigger] plan[i] matches HtmlEventView::Parsed(a) ==> (
        #[trigger] plan[j] matches HtmlEventView::Parsed(b) ==> a < b))
}

/// The highlighting pass keeps the parser's events that it does not replace
/// in their order, none twice.
pub proof fn lemma_parsed_in_order(
    events: Seq<MdEventView>,
    languages: Set<Seq<char>>,
    theme: Seq<char>,
)
    requires
        events.len() <= usize::MAX,
    ensures
        parsed_in_order(highlight_plan(events, languages, theme)),
{
    lemma_parsed_in_order_prefix(events, events.len() as int, languages, theme);
}

proof fn lemma_parsed_in_order_prefix(
    events: Seq<MdEventView>,
    k: int,
    languages: Set<Seq<char>>,
    theme: Seq<char>,
)
    requires
        0 <= k <= events.len(),
        events.len() <= usize::MAX,
    ensures
        parsed_in_order(highlight_prefix(events, k, languages, theme).1),
        plan_within(highlight_prefix(events, k, languages, theme).1, k as nat),
    decreases k,
{
    if k > 0 {
        lemma_parsed_in_order_prefix(events, k - 1, languages, theme);
        let (open, out) = highlight_prefix(events, k - 1, languages, theme);
        let (open2, more) = highlight_step(open, (k - 1) as usize, events[k - 1], languages, theme);
        let all = out + more;
        assert(forall|j: int| 0 <= j < more.len() ==> (#[trigger] more[j] matches HtmlEventView::Parsed(b) ==> b == k - 1));
        assert forall|i: int, j: int|
            0 <= i < j < all.len() implies (#[trigger] all[i] matches HtmlEventView::Parsed(a) ==> (
            #[trigger] all[j] matches HtmlEventView::Parsed(b) ==> a < b)) by {
            if i < out.len() && j < out.len() {
                assert(all[i] == out[i] && all[j] == out[j]);
            } else if i < out.len() {
                assert(all[i] == out[i] && all[j] == more[j - out.len()]);
            } else {
                assert(all[i] == more[i - out.len()] && all[j] == more[j - out.len()]);
            }
        }
        assert forall|i: int| 0 <= i < all.len() implies (#[trigger] all[i] matches HtmlEventView::Parsed(a) ==> a < k) by {
            if i < out.len() {
                assert(all[i] == out[i]);
            } else {
                assert(all[i] == more[i - out.len()]);
            }
        }
    }
}

/// Runs the highlighting pass: the writer events for `events`, highlighted
/// in the theme that `style` chooses.
pub fn plan_html_events(h: &Highlighter, events: &Vec<MdEvent>, style: &str) -> (plan: Vec<HtmlEvent>)
    ensures
        html_views(plan@) == highlight_plan(md_views(events@), h.languages(), chosen_theme(*h, style@)),
        plan_within(html_views(plan@), events.len() as nat),
{
    let chosen = h.theme_for(style);
    let theme = chosen.as_str();
    let ghost evs = md_views(events@);
    let mut plan: Vec<HtmlEvent> = Vec::new();
    let mut open: Option<(String, String)> = None;
    let n = events.len();
    for i in 0..n
        invariant
            n == events.len(),
            evs == md_views(events@),
            h.themes().contains(theme@),
            (open_view(open), html_views(plan@)) == highlight_prefix(evs, i as int, h.languages(), theme@),
            open_view(open) matches Some((l, _)) ==> h.languages().contains(l),
    {
        let ghost before = html_views(plan@);
        let ghost (o, out) = highlight_prefix(evs, i as int, h.languages(), theme@);
        let ghost (o2, more) = highlight_step(o, i, evs[i as int], h.languages(), theme@);
        assert(evs[i as int] == events@[i as int]@);
        match &events[i] {
            MdEvent::FencedStart(info) => {
                let language = first_word_of(info.as_str());
                if h.knows_language(language.as_str()) {
                    open = Some((language, String::new()));
                    assert(html_views(plan@) =~= out + more);
                } else {
                    plan.push(HtmlEvent::Parsed(i));
                    assert(html_views(plan@) =~= out + more);
                }
            },
            MdEvent::Text(t) => {
                match open {
                    Some((l, mut code)) => {
                        code.append(t.as_str());
                        open = Some((l, code));
                        assert(html_views(plan@) =~= out + more);
                    },
                    None => {
                        plan.push(HtmlEvent::Parsed(i));
                        assert(html_views(plan@) =~= out + more);
                    },
                }
            },
            MdEvent::CodeEnd => {
                match open {
                    Some((l, code)) => {
                        match h.highlight(code.as_str(), l.as_str(), theme) {
                            Some(markup) => {
                                plan.push(HtmlEvent::Html(markup));
                            },
                            None => {
                                plan.push(HtmlEvent::FencedStart(l));
                                plan.push(HtmlEvent::Text(code));
                                plan.push(HtmlEvent::CodeEnd);
                            },
                        }
                        open = None;
                        assert(html_views(plan@) =~= out + more);
                    },
                    None => {
                        plan.push(HtmlEvent::Parsed(i));
                        assert(html_views(plan@) =~= out + more);
                    },
                }
            },
            MdEvent::Other => {
                plan.push(HtmlEvent::Parsed(i));
                assert(html_views(plan@) =~= out + more);
            },
        }
    }
    proof {
        lemma_parsed_in_order_prefix(evs, n as int, h.languages(), theme@);
    }
    plan
}

/// The HTML of a Markdown page, its fenced code highlighted in the theme that
/// `style` chooses.
pub open spec fn rendered_markdown(
    markdown: Seq<char>,
    languages: Set<Seq<char>>,
    theme: Seq<char>,
) -> Seq<char> {
    markdown_html(
        markdown,
        PAGE_OPTIONS,
        highlight_plan(markdown_events(markdown, PAGE_OPTIONS), languages, theme),
    )
}

/// The theme that `style` chooses.
pub open spec fn chosen_theme(h: Highlighter, style: Seq<char>) -> Seq<char> {
    if h.themes().contains(style) {
        style
    } else {
        crate::highlight::DEFAULT_THEME@
    }
}

/// Renders Markdown to HTML: tables, task lists and strikethrough enabled,
/// fenced code in a known language highlighted in the theme `style` (or the
/// default theme when there is no such theme).
pub fn render_markdown(h: &Highlighter, markdown: &str, style: &str) -> (html: String)
    ensures
        html@ == rendered_markdown(markdown@, h.languages(), chosen_theme(*h, style@)),
{
    let kinds = parse_markdown(markdown, PAGE_OPTIONS);
    let plan = plan_html_events(h, &kinds, style);
    write_html(markdown, PAGE_OPTIONS, &plan)
}

/// The page for a Markdown file: the rendered Markdown in `template`, with
/// the reload script in watch mode.
pub fn render_page_html(
    h: &Highlighter,
    template: &str,
    reload_script: &str,
    markdown: &str,
    style: &str,
    watch: bool,
) -> (page: String)
    ensures
        page@ == page_html(
            template@,
            rendered_markdown(markdown@, h.languages(), chosen_theme(*h, style@)),
            watch,
            reload_script@,
        ),
{
    let body = render_markdown(h, markdown, style);
    fill_page(template, body.as_str(), watch, reload_script)
}


/// What a request is answered: the page for the file that serving it comes
/// to, or the error. `is_dir` and `canon` are the file system's answers as in
/// [`resolve`]; `read` is what reading a file gives (its text, or the
/// failure's description).
pub open spec fn page_answer(
    root: Seq<char>,
    url_path: Seq<char>,
    is_dir: spec_fn(Seq<char>) -> bool,
    canon: spec_fn(Seq<char>) -> CanonicalView,
    read: spec_fn(Seq<char>) -> Result<Seq<char>, Seq<char>>,
    h: Highlighter,
    template: Seq<char>,
    reload_script: Seq<char>,
    style: Seq<char>,
    watch: bool,
) -> Result<Seq<char>, PageErrorView> {
    match resolve(root, url_path, is_dir, canon) {
        PageStepView::Read(f) => match read(f) {
            Ok(markdown) => Ok(
                page_html(
                    template,
                    rendered_markdown(markdown, h.languages(), chosen_theme(h, style)),
                    watch,
                    reload_script,
                ),
            ),
            Err(m) => Err(PageErrorView::Internal(m)),
        },
        PageStepView::Fail(e) => Err(e),
        _ => Err(PageErrorView::NotFound),
    }
}

/// The highlight style and watch mode change only the page's HTML, never
/// whether a page is served nor which error answers the request.
pub proof fn lemma_style_and_watch_keep_outcome(
    root: Seq<char>,
    url_path: Seq<char>,
    is_dir: spec_fn(Seq<char>) -> bool,
    canon: spec_fn(Seq<char>) -> CanonicalView,
    read: spec_fn(Seq<char>) -> Result<Seq<char>, Seq<char>>,
    h: Highlighter,
    template: Seq<char>,
    reload_script: Seq<char>,
    style1: Seq<char>,
    watch1: bool,
    style2: Seq<char>,
    watch2: bool,
)
    ensures
        ({
            let a1 = page_answer(root, url_path, is_dir, canon, read, h, template, reload_script, style1, watch1);
            let a2 = page_answer(root, url_path, is_dir, canon, read, h, template, reload_script, style2, watch2);
            &&& a1 is Ok <==> a2 is Ok
            &&& a1 is Err ==> a1 == a2
        }),
{
}

/// Whether two event runs differ at most in the info strings of fenced code
/// blocks, and there only after the first word.
pub open spec fn same_up_to_fence_tails(a: Seq<MdEventView>, b: Seq<MdEventView>) -> bool {
    &&& a.len() == b.len()
    &&& forall|i: int|
        0 <= i < a.len() ==> #[trigger] a[i] == b[i] || match (a[i], b[i]) {
            (MdEventView::FencedStart(x), MdEventView::FencedStart(y)) => first_word(x) == first_word(y),
            _ => false,
        }
}

/// Only the first word of a fence's info string matters: fences that differ
/// after it are written alike.
pub proof fn lemma_fence_tail_ignored(
    a: Seq<MdEventView>,
    b: Seq<MdEventView>,
    languages: Set<Seq<char>>,
    theme: Seq<char>,
)
    requires
        same_up_to_fence_tails(a, b),
    ensures
        highlight_plan(a, languages, theme) == highlight_plan(b, languages, theme),
{
    lemma_fence_tail_prefix(a, b, a.len() as int, languages, theme);
}

proof fn lemma_fence_tail_prefix(
    a: Seq<MdEventView>,
    b: Seq<MdEventView>,
    k: int,
    languages: Set<Seq<char>>,
    theme: Seq<char>,
)
    requires
        same_up_to_fence_tails(a, b),
        0 <= k <= a.len(),
    ensures
        highlight_prefix(a, k, languages, theme) == highlight_prefix(b, k, languages, theme),
    decreases k,
{
    if k > 0 {
        lemma_fence_tail_prefix(a, b, k - 1, languages, theme);
        assert(a[k - 1] == b[k - 1] || match (a[k - 1], b[k - 1]) {
            (MdEventView::FencedStart(x), MdEventView::FencedStart(y)) => first_word(x) == first_word(y),
            _ => false,
        });
    }
}

/// A fenced block in a known language becomes its closed form: the
/// highlighted HTML, or the block again where highlighting fails.
pub proof fn lemma_known_fence_replaced(
    info: Seq<char>,
    code: Seq<char>,
    languages: Set<Seq<char>>,
    theme: Seq<char>,
)
    requires
        languages.contains(first_word(info)),
    ensures
        highlight_plan(
            seq![MdEventView::FencedStart(info), MdEventView::Text(code), MdEventView::CodeEnd],
            languages,
            theme,
        ) == closed_block(first_word(info), code, theme),
{
    let evs = seq![MdEventView::FencedStart(info), MdEventView::Text(code), MdEventView::CodeEnd];
    let none = Seq::<HtmlEventView>::empty();
    assert(evs[0] == MdEventView::FencedStart(info));
    assert(evs[1] == MdEventView::Text(code));
    assert(evs[2] == MdEventView::CodeEnd);
    assert(none + none =~= none);
    assert(highlight_prefix(evs, 0, languages, theme) == (None::<(Seq<char>, Seq<char>)>, none));
    assert(highlight_prefix(evs, 1, languages, theme) == (
        Some((first_word(info), Seq::<char>::empty())),
        Seq::<HtmlEventView>::empty(),
    ));
    assert(Seq::<char>::empty() + code =~= code);
    assert(highlight_prefix(evs, 2, languages, theme) == (Some((first_word(info), code)), Seq::<HtmlEventView>::empty()));
    assert(Seq::<HtmlEventView>::empty() + closed_block(first_word(info), code, theme) =~= closed_block(first_word(info), code, theme));
}


proof fn lemma_prefix_depends_on_prefix(
    a: Seq<MdEventView>,
    b: Seq<MdEventView>,
    k: int,
    languages: Set<Seq<char>>,
    theme: Seq<char>,
)
    requires
        0 <= k <= a.len(),
        k <= b.len(),
        forall|i: int| 0 <= i < k ==> a[i] == b[i],
    ensures
        highlight_prefix(a, k, languages, theme) == highlight_prefix(b, k, languages, theme),
    decreases k,
{
    if k > 0 {
        lemma_prefix_depends_on_prefix(a, b, k - 1, languages, theme);
    }
}

/// The end of a code block closes whatever block is open: text that follows
/// it is written as it was parsed, never gathered into a block.
pub proof fn lemma_text_after_code_end_is_kept(
    before: Seq<MdEventView>,
    text: Seq<char>,
    languages: Set<Seq<char>>,
    theme: Seq<char>,
)
    requires
        before.len() + 2 <= usize::MAX,
    ensures
        highlight_plan(before.push(MdEventView::CodeEnd).push(MdEventView::Text(text)), languages, theme)
            == highlight_plan(before.push(MdEventView::CodeEnd), languages, theme).push(
            HtmlEventView::Parsed((before.len() + 1) as usize),
        ),
{
    let a = before.push(MdEventView::CodeEnd);
    let b = a.push(MdEventView::Text(text));
    let n = before.len() as int;
    lemma_prefix_depends_on_prefix(b, a, n + 1, languages, theme);
    assert(b[n] == MdEventView::CodeEnd);
    assert(b[n + 1] == MdEventView::Text(text));
    assert(highlight_prefix(b, n + 1, languages, theme).0 is None);
    let out = highlight_prefix(b, n + 1, languages, theme).1;
    assert(out + seq![HtmlEventView::Parsed((n + 1) as usize)] =~= out.push(
        HtmlEventView::Parsed((n + 1) as usize),
    ));
}

/// A known fenced block followed by text: the block is replaced, and the
/// text after it is written as parsed.
pub proof fn lemma_block_then_text(
    info: Seq<char>,
    code: Seq<char>,
    text: Seq<char>,
    languages: Set<Seq<char>>,
    theme: Seq<char>,
)
    requires
        languages.contains(first_word(info)),
    ensures
        highlight_plan(
            seq![
                MdEventView::FencedStart(info),
                MdEventView::Text(code),
                MdEventView::CodeEnd,
                MdEventView::Text(text),
            ],
            languages,
            theme,
        ) == closed_block(first_word(info), code, theme).push(HtmlEventView::Parsed(3)),
{
    let before = seq![MdEventView::FencedStart(info), MdEventView::Text(code)];
    lemma_known_fence_replaced(info, code, languages, theme);
    lemma_text_after_code_end_is_kept(before, text, languages, theme);
    assert(before.push(MdEventView::CodeEnd) =~= seq![
        MdEventView::FencedStart(info),
        MdEventView::Text(code),
        MdEventView::CodeEnd,
    ]);
    assert(before.push(MdEventView::CodeEnd).push(MdEventView::Text(text)) =~= seq![
        MdEventView::FencedStart(info),
        MdEventView::Text(code),
        MdEventView::CodeEnd,
        MdEventView::Text(text),
    ]);
}

/// Pages are highlighted in the requested style whenever a theme of that name
/// exists, and in the default theme otherwise.
pub proof fn lemma_requested_theme_is_used(h: Highlighter, style: Seq<char>)
    ensures
        h.themes().contains(style) ==> chosen_theme(h, style) == style,
        !h.themes().contains(style) ==> chosen_theme(h, style) == crate::highlight::DEFAULT_THEME@,
        h.themes().contains(chosen_theme(h, style)) || !h.themes().contains(crate::highlight::DEFAULT_THEME@),
{
}

} // verus!
