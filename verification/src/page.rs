//! Which file a page request names, and what a refused request is answered.
//!
//! Serving a page alternates file-system calls and decisions. The decisions
//! stand here as steps: each takes what the previous call found and says what
//! to do next ([`PageStep`]).

use vstd::prelude::*;
use vstd::string::StringExecFns;
use crate::path::{
    file_name, lemma_append_md_plain, lemma_only_normal_components, lemma_plain_path_file_name,
    lemma_push_plain_name, lemma_trailing_slash_components, segments, trim_trailing, lemma_join_stays_below, lemma_last_dot, lemma_md_extension_added, lemma_pushed_file_name, name_extension, no_slash, all_normal, components, extension, extension_of, has_only_normal_components, join_path,
    path_starts_with, pushed, add_md_extension, starts_with_path, with_md_extension,
};
use crate::text::{lemma_replace_absent, occurs_at, replace_all, replace_all_of};

verus! {

/// The file that stands for a directory (`index.html` of this server).
pub const ROOT_FILE: &'static str = "README.md";

/// The place in the page template that receives the rendered Markdown.
pub const CONTENT_MARKER: &'static str = "{{ content }}";

/// The place in the page template that receives the live-reload script.
pub const WATCH_MARKER: &'static str = "{{ watch_script }}";

/// Why a page could not be served.
pub enum PageError {
    /// There is no page at that address (or the address is refused).
    NotFound,
    /// The page exists but could not be read; the text describes the failure.
    Internal(String),
}

/// The mathematical value of a [`PageError`].
pub enum PageErrorView {
    NotFound,
    Internal(Seq<char>),
}

impl View for PageError {
    type V = PageErrorView;

    open spec fn view(&self) -> PageErrorView {
        match self {
            PageError::NotFound => PageErrorView::NotFound,
            PageError::Internal(m) => PageErrorView::Internal(m@),
        }
    }
}

/// The HTTP status that answers an error: 404 for a missing page, 500 for one
/// that could not be read.
pub open spec fn error_status(e: PageErrorView) -> u16 {
    match e {
        PageErrorView::NotFound => 404,
        PageErrorView::Internal(_) => 500,
    }
}

/// The text that answers an error.
pub open spec fn error_message(e: PageErrorView) -> Seq<char> {
    match e {
        PageErrorView::NotFound => "Page not found"@,
        PageErrorView::Internal(m) => "Could not read page: "@ + m,
    }
}

impl PageError {
    /// The HTTP status of the answer.
    pub fn status_code(&self) -> (code: u16)
        ensures
            code == error_status(self@),
    {
        match self {
            PageError::NotFound => 404,
            PageError::Internal(_) => 500,
        }
    }

    /// The text of the answer (what the error displays as).
    pub fn message(&self) -> (m: String)
        ensures
            m@ == error_message(self@),
    {
        match self {
            PageError::NotFound => String::from_str("Page not found"),
            PageError::Internal(detail) => {
                let mut m = String::from_str("Could not read page: ");
                m.append(detail.as_str());
                m
            },
        }
    }
}

/// What to do next while serving a page.
pub enum PageStep {
    /// Find out whether this path is a directory, then call [`after_dir_check`].
    CheckDir(String),
    /// Resolve this path to its canonical form, then call [`after_canonicalize`].
    Canonicalize(String),
    /// Read this file and render it.
    Read(String),
    /// Answer with this error.
    Fail(PageError),
}

/// The mathematical value of a [`PageStep`].
pub enum PageStepView {
    CheckDir(Seq<char>),
    Canonicalize(Seq<char>),
    Read(Seq<char>),
    Fail(PageErrorView),
}

impl View for PageStep {
    type V = PageStepView;

    open spec fn view(&self) -> PageStepView {
        match self {
            PageStep::CheckDir(p) => PageStepView::CheckDir(p@),
            PageStep::Canonicalize(p) => PageStepView::Canonicalize(p@),
            PageStep::Read(p) => PageStepView::Read(p@),
            PageStep::Fail(e) => PageStepView::Fail(e@),
        }
    }
}

/// What resolving a path to its canonical form came to.
pub enum Canonical {
    /// The canonical path.
    Found(String),
    /// Nothing exists at the path.
    Missing,
    /// Resolution failed otherwise; the text describes the failure.
    Failed(String),
}

/// The mathematical value of a [`Canonical`].
pub enum CanonicalView {
    Found(Seq<char>),
    Missing,
    Failed(Seq<char>),
}

impl View for Canonical {
    type V = CanonicalView;

    open spec fn view(&self) -> CanonicalView {
        match self {
            Canonical::Found(p) => CanonicalView::Found(p@),
            Canonical::Missing => CanonicalView::Missing,
            Canonical::Failed(m) => CanonicalView::Failed(m@),
        }
    }
}

/// First step for the address `url_path` below the folder `root`: an address
/// made of plain names only is joined to `root`; any other is not found.
pub open spec fn start_step(root: Seq<char>, url_path: Seq<char>) -> PageStepView {
    if all_normal(components(url_path)) {
        PageStepView::CheckDir(pushed(root, url_path))
    } else {
        PageStepView::Fail(PageErrorView::NotFound)
    }
}

/// The file that stands for `path`: a directory's `README.md`, else the path
/// itself, given the extension `md` when it has none.
pub open spec fn page_file(path: Seq<char>, is_dir: bool) -> Seq<char> {
    if is_dir {
        pushed(path, "README.md"@)
    } else if extension(path) is None {
        with_md_extension(path)
    } else {
        path
    }
}

/// Second step: only a Markdown file (extension `md`) is served.
pub open spec fn dir_step(path: Seq<char>, is_dir: bool) -> PageStepView {
    let file = page_file(path, is_dir);
    if extension(file) == Some("md"@) {
        PageStepView::Canonicalize(file)
    } else {
        PageStepView::Fail(PageErrorView::NotFound)
    }
}

/// Third step: a missing file is not found, a failed resolution is an internal
/// error, and a file whose canonical path leaves `root` is not found.
pub open spec fn canonical_step(root: Seq<char>, outcome: CanonicalView) -> PageStepView {
    match outcome {
        CanonicalView::Missing => PageStepView::Fail(PageErrorView::NotFound),
        CanonicalView::Failed(m) => PageStepView::Fail(PageErrorView::Internal(m)),
        CanonicalView::Found(f) => if path_starts_with(f, root) {
            PageStepView::Read(f)
        } else {
            PageStepView::Fail(PageErrorView::NotFound)
        },
    }
}

/// The first step for the address `url_path` below the folder `root`.
pub fn start_page(root: &str, url_path: &str) -> (step: PageStep)
    ensures
        step@ == start_step(root@, url_path@),
{
    if has_only_normal_components(url_path) {
        PageStep::CheckDir(join_path(root, url_path))
    } else {
        PageStep::Fail(PageError::NotFound)
    }
}

/// The step after learning whether `path` is a directory.
pub fn after_dir_check(path: &str, is_dir: bool) -> (step: PageStep)
    ensures
        step@ == dir_step(path@, is_dir),
{
    let file = if is_dir {
        join_path(path, ROOT_FILE)
    } else {
        match extension_of(path) {
            None => add_md_extension(path),
            Some(_) => String::from_str(path),
        }
    };
    let md = String::from_str("md");
    match extension_of(file.as_str()) {
        Some(ext) => {
            if ext == md {
                PageStep::Canonicalize(file)
            } else {
                PageStep::Fail(PageError::NotFound)
            }
        },
        None => PageStep::Fail(PageError::NotFound),
    }
}

/// The step after resolving the candidate file; `root` is the canonical
/// documentation folder.
pub fn after_canonicalize(root: &str, outcome: Canonical) -> (step: PageStep)
    ensures
        step@ == canonical_step(root@, outcome@),
{
    match outcome {
        Canonical::Missing => PageStep::Fail(PageError::NotFound),
        Canonical::Failed(m) => PageStep::Fail(PageError::Internal(m)),
        Canonical::Found(f) => {
            if starts_with_path(f.as_str(), root) {
                PageStep::Read(f)
            } else {
                PageStep::Fail(PageError::NotFound)
            }
        },
    }
}

/// The page: `template` with the rendered Markdown at its content marker and,
/// in watch mode, the reload script at its watch marker (the second
/// replacement runs over the result of the first).
pub open spec fn page_html(
    template: Seq<char>,
    body: Seq<char>,
    watch: bool,
    reload_script: Seq<char>,
) -> Seq<char> {
    let script = if watch {
        reload_script
    } else {
        Seq::empty()
    };
    replace_all(replace_all(template, CONTENT_MARKER@, body), WATCH_MARKER@, script)
}

/// Fills the page template.
pub fn fill_page(template: &str, body: &str, watch: bool, reload_script: &str) -> (page: String)
    ensures
        page@ == page_html(template@, body@, watch, reload_script@),
{
    proof {
        reveal_strlit("{{ content }}");
        reveal_strlit("{{ watch_script }}");
    }
    let with_body = replace_all_of(template, CONTENT_MARKER, body);
    let script = if watch {
        reload_script
    } else {
        ""
    };
    proof {
        reveal_strlit("");
        assert(""@ =~= Seq::<char>::empty());
    }
    replace_all_of(with_body.as_str(), WATCH_MARKER, script)
}


/// A file is read only when the address was made of plain names, the file
/// asked for has the extension `md`, and its canonical path lies inside the
/// documentation folder.
pub proof fn lemma_read_only_inside_root(
    root: Seq<char>,
    url_path: Seq<char>,
    is_dir: bool,
    outcome: CanonicalView,
    file: Seq<char>,
)
    requires
        start_step(root, url_path) is CheckDir,
        dir_step(start_step(root, url_path)->CheckDir_0, is_dir) is Canonicalize,
        canonical_step(root, outcome) == PageStepView::Read(file),
    ensures
        all_normal(components(url_path)),
        extension(page_file(pushed(root, url_path), is_dir)) == Some("md"@),
        outcome == CanonicalView::Found(file),
        path_starts_with(file, root),
{
}

/// An address with a component that is not a plain name (`..`, a leading `/`
/// or `.`) is answered "not found" before anything is looked up.
pub proof fn lemma_refused_address(root: Seq<char>, url_path: Seq<char>)
    requires
        !all_normal(components(url_path)),
    ensures
        start_step(root, url_path) == PageStepView::Fail(PageErrorView::NotFound),
{
}

/// An address made of plain names is looked up below the documentation
/// folder, never beside or above it.
pub proof fn lemma_accepted_address_below_root(root: Seq<char>, url_path: Seq<char>)
    requires
        all_normal(components(url_path)),
    ensures
        start_step(root, url_path) == PageStepView::CheckDir(pushed(root, url_path)),
        path_starts_with(pushed(root, url_path), root),
{
    lemma_join_stays_below(root, url_path);
}

/// A file name without extension is looked up as the Markdown file of that
/// name: `guide` is served from `guide.md`.
pub proof fn lemma_extensionless_served_as_md(path: Seq<char>)
    requires
        file_name(path) is Some,
        extension(path) is None,
    ensures
        dir_step(path, false) == PageStepView::Canonicalize(with_md_extension(path)),
        file_name(with_md_extension(path)) == Some(file_name(path)->0 + ".md"@),
{
    reveal_strlit("md");
    reveal_strlit(".md");
    lemma_md_extension_added(path);
    assert(seq!['m', 'd'] =~= "md"@);
    assert(seq!['.', 'm', 'd'] =~= ".md"@);
}

/// A directory is served by the `README.md` inside it.
pub proof fn lemma_directory_serves_readme(path: Seq<char>)
    ensures
        dir_step(path, true) == PageStepView::Canonicalize(pushed(path, "README.md"@)),
{
    reveal_strlit("README.md");
    reveal_strlit("md");
    let w = "README.md"@;
    assert(no_slash(w));
    assert(w.len() == 9);
    assert(w != seq!['.']);
    assert(w != seq!['.', '.']) by {
        assert(w[0] != seq!['.', '.'][0]);
    }
    lemma_pushed_file_name(path, w);
    lemma_last_dot(w, 6);
    assert(w.subrange(7, 9) =~= "md"@);
    assert(name_extension(w) == Some("md"@));
}


/// A template without markers is the page as it is, whatever the body.
pub proof fn lemma_template_without_markers(
    template: Seq<char>,
    body: Seq<char>,
    watch: bool,
    reload_script: Seq<char>,
)
    requires
        forall|i: int| !#[trigger] occurs_at(template, CONTENT_MARKER@, i),
        forall|i: int| !#[trigger] occurs_at(template, WATCH_MARKER@, i),
    ensures
        page_html(template, body, watch, reload_script) == template,
{
    let script = if watch {
        reload_script
    } else {
        Seq::empty()
    };
    lemma_replace_absent(template, CONTENT_MARKER@, body);
    lemma_replace_absent(template, WATCH_MARKER@, script);
}


/// What serving `url_path` comes to, given how the file system answers:
/// `is_dir` tells whether a path is a directory, `canon` what resolving a
/// path to its canonical form gives.
pub open spec fn resolve(
    root: Seq<char>,
    url_path: Seq<char>,
    is_dir: spec_fn(Seq<char>) -> bool,
    canon: spec_fn(Seq<char>) -> CanonicalView,
) -> PageStepView {
    match start_step(root, url_path) {
        PageStepView::CheckDir(p) => match dir_step(p, is_dir(p)) {
            PageStepView::Canonicalize(f) => canonical_step(root, canon(f)),
            other => other,
        },
        other => other,
    }
}

/// Serving a page always ends in reading a file or in an error.
pub proof fn lemma_resolve_ends(
    root: Seq<char>,
    url_path: Seq<char>,
    is_dir: spec_fn(Seq<char>) -> bool,
    canon: spec_fn(Seq<char>) -> CanonicalView,
)
    ensures
        resolve(root, url_path, is_dir, canon) is Read || resolve(root, url_path, is_dir, canon) is Fail,
{
}

proof fn lemma_pushed_relative(root: Seq<char>, u: Seq<char>)
    requires
        u.len() > 0,
        u[0] != '/',
    ensures
        pushed(root, u) == (if root.len() == 0 || root.last() == '/' {
            root
        } else {
            root + seq!['/']
        }) + u,
{
    if !(root.len() == 0 || root.last() == '/') {
        assert(root + seq!['/'] + u =~= (root + seq!['/']) + u);
    }
}

/// `README.md` as characters.
proof fn lemma_readme_name()
    ensures
        no_slash("README.md"@),
        "README.md"@.len() == 9,
        "README.md"@ != seq!['.'],
        "README.md"@ != seq!['.', '.'],
{
    reveal_strlit("README.md");
    let w = "README.md"@;
    assert(w[0] != seq!['.', '.'][0]);
    assert(w[0] != seq!['.'][0]);
}

/// A directory's address and the address of its `README.md` are answered
/// alike: `README.md` is the index page of each directory.
pub proof fn lemma_directory_same_as_its_readme(
    root: Seq<char>,
    dir: Seq<char>,
    is_dir: spec_fn(Seq<char>) -> bool,
    canon: spec_fn(Seq<char>) -> CanonicalView,
)
    requires
        all_normal(components(dir)),
        dir.len() > 0,
        dir.last() != '/',
        is_dir(pushed(root, dir)),
        !is_dir(pushed(root, dir + "/README.md"@)),
    ensures
        resolve(root, dir, is_dir, canon) == resolve(root, dir + "/README.md"@, is_dir, canon),
{
    reveal_strlit("/README.md");
    reveal_strlit("README.md");
    lemma_readme_name();
    let w = "README.md"@;
    let u2 = dir + "/README.md"@;
    assert(u2 =~= dir + seq!['/'] + w);
    lemma_only_normal_components(dir);
    assert(dir[0] != '/');
    lemma_push_plain_name(dir, w);
    assert forall|i: int| 0 <= i < components(u2).len() implies #[trigger] components(u2)[i] is Normal by {
        if i < components(dir).len() {
            assert(components(u2)[i] == components(dir)[i]);
        }
    }
    let q = pushed(root, dir);
    lemma_pushed_relative(root, dir);
    assert(u2[0] == dir[0]);
    lemma_pushed_relative(root, u2);
    assert(q.len() > 0 && q.last() == dir.last());
    assert(pushed(root, u2) =~= pushed(q, w));
    lemma_directory_serves_readme(q);
    lemma_pushed_file_name(q, w);
    lemma_last_dot(w, 6);
    assert(w.subrange(7, 9) =~= "md"@) by {
        reveal_strlit("md");
    }
    assert(extension(pushed(q, w)) == Some("md"@));
}

/// An address without extension and the same address with `.md` are
/// answered alike, when the former names no directory and has no extension.
pub proof fn lemma_extensionless_same_as_md(
    root: Seq<char>,
    name: Seq<char>,
    is_dir: spec_fn(Seq<char>) -> bool,
    canon: spec_fn(Seq<char>) -> CanonicalView,
)
    requires
        all_normal(components(name)),
        name.len() > 0,
        name.last() != '/',
        !(name.len() >= 2 && name.last() == '.' && name[name.len() - 2] == '/'),
        !is_dir(pushed(root, name)),
        extension(pushed(root, name)) is None,
        !is_dir(pushed(root, name + ".md"@)),
    ensures
        resolve(root, name, is_dir, canon) == resolve(root, name + ".md"@, is_dir, canon),
{
    reveal_strlit(".md");
    let md = seq!['.', 'm', 'd'];
    assert(".md"@ =~= md);
    let u2 = name + md;
    lemma_append_md_plain(name);
    lemma_only_normal_components(name);
    lemma_plain_path_file_name(name);
    let q = pushed(root, name);
    lemma_pushed_relative(root, name);
    assert(u2[0] == name[0]);
    lemma_pushed_relative(root, u2);
    assert(pushed(root, u2) =~= q + md);
    lemma_join_stays_below(root, name);
    let cn = components(name);
    assert(components(q).last() == cn.last());
    assert(file_name(q) == file_name(name));
    assert(q.last() == name.last());
    if q.len() >= 2 && q.last() == '.' && q[q.len() - 2] == '/' {
        if name.len() == 1 {
            assert(segments(name).last() =~= name) by {
                lemma_plain_path_file_name(name);
            }
            assert(name.len() == 1 && name[0] == '.');
            assert(segments(name).last() =~= seq!['.']);
        } else {
            assert(q[q.len() - 2] == name[name.len() - 2]);
        }
    }
    assert(trim_trailing(q) == q);
    assert(with_md_extension(q) == q + md);
    lemma_extensionless_served_as_md(q);
    lemma_md_extension_added(q);
}


/// Whether resolving paths to their canonical form depends only on their
/// components, as it does on a file system: `sub//README.md` and
/// `sub/README.md` name the same file.
pub open spec fn canonical_by_components(canon: spec_fn(Seq<char>) -> CanonicalView) -> bool {
    forall|a: Seq<char>, b: Seq<char>|
        components(a) == components(b) ==> #[trigger] canon(a) == #[trigger] canon(b)
}

/// A directory's address and the address of its `README.md` are answered
/// alike, also when the directory's address ends with `/`: `README.md` is the
/// index page of each directory.
pub proof fn lemma_directory_answered_as_its_readme(
    root: Seq<char>,
    dir: Seq<char>,
    is_dir: spec_fn(Seq<char>) -> bool,
    canon: spec_fn(Seq<char>) -> CanonicalView,
)
    requires
        all_normal(components(dir)),
        dir.len() > 0,
        canonical_by_components(canon),
        is_dir(pushed(root, dir)),
        !is_dir(pushed(root, dir + "/README.md"@)),
    ensures
        resolve(root, dir, is_dir, canon) == resolve(root, dir + "/README.md"@, is_dir, canon),
{
    if dir.last() != '/' {
        lemma_directory_same_as_its_readme(root, dir, is_dir, canon);
    } else {
        reveal_strlit("/README.md");
        reveal_strlit("README.md");
        lemma_readme_name();
        let w = "README.md"@;
        let u2 = dir + "/README.md"@;
        assert(u2 =~= dir + seq!['/'] + w);
        lemma_only_normal_components(dir);
        assert(dir[0] != '/');
        lemma_push_plain_name(dir, w);
        assert forall|i: int| 0 <= i < components(u2).len() implies #[trigger] components(u2)[i] is Normal by {
            if i < components(dir).len() {
                assert(components(u2)[i] == components(dir)[i]);
            }
        }
        let q = pushed(root, dir);
        lemma_pushed_relative(root, dir);
        assert(u2[0] == dir[0]);
        lemma_pushed_relative(root, u2);
        let q2 = pushed(root, u2);
        assert(q2 =~= q + seq!['/'] + w);
        // The directory's README.md, as pushed onto `q`.
        lemma_directory_serves_readme(q);
        let f1 = pushed(q, w);
        assert(q.len() > 0 && q.last() == '/');
        assert(f1 =~= q + w);
        // Both name the same components.
        let q0 = q.drop_last();
        assert(q =~= q0 + seq!['/']);
        assert(q0.len() > 0) by {
            if q0.len() == 0 {
                assert(q =~= seq!['/']);
                assert(dir.len() == 1);
            }
        }
        assert(f1 =~= q0 + seq!['/'] + w);
        lemma_push_plain_name(q0, w);
        lemma_push_plain_name(q, w);
        lemma_trailing_slash_components(q0);
        assert(components(f1) == components(q2));
        assert(canon(f1) == canon(q2));
        // The README.md address itself is a Markdown file.
        let x = q + seq!['/'];
        assert(pushed(x, w) =~= q2);
        lemma_pushed_file_name(x, w);
        lemma_last_dot(w, 6);
        assert(w.subrange(7, 9) =~= "md"@) by {
            reveal_strlit("md");
        }
        assert(extension(q2) == Some("md"@));
    }
}


/// A file whose canonical path lies at or below the documentation folder is
/// read, one outside it is not found: the folder's own files (its index
/// `README.md` among them) are served like those of its subfolders.
pub proof fn lemma_found_file_read_iff_inside(root: Seq<char>, file: Seq<char>)
    ensures
        path_starts_with(file, root) ==> canonical_step(root, CanonicalView::Found(file))
            == PageStepView::Read(file),
        !path_starts_with(file, root) ==> canonical_step(root, CanonicalView::Found(file))
            == PageStepView::Fail(PageErrorView::NotFound),
{
}

/// Any file named by plain names below the documentation folder, once found
/// at that very path, is read; in particular the folder's `README.md`.
pub proof fn lemma_file_below_root_is_read(root: Seq<char>, name: Seq<char>)
    requires
        all_normal(components(name)),
    ensures
        canonical_step(root, CanonicalView::Found(pushed(root, name))) == PageStepView::Read(
            pushed(root, name),
        ),
{
    lemma_join_stays_below(root, name);
}

/// The index page: the folder's `README.md`, found where it is asked for, is
/// read.
pub proof fn lemma_index_page_is_read(root: Seq<char>)
    ensures
        canonical_step(root, CanonicalView::Found(pushed(root, "README.md"@))) == PageStepView::Read(
            pushed(root, "README.md"@),
        ),
{
    reveal_strlit("README.md");
    lemma_readme_name();
    let w = "README.md"@;
    crate::path::lemma_plain_name_components(w);
    lemma_file_below_root_is_read(root, w);
}

} // verus!
