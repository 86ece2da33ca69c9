//! Syntax highlighting of fenced code blocks, done by `syntect` with its
//! default syntaxes and themes.

use vstd::prelude::*;
use vstd::string::StringExecFns;
use syntect::highlighting::ThemeSet;
use syntect::parsing::SyntaxSet;

verus! {

/// The theme used when the requested one does not exist.
pub const DEFAULT_THEME: &'static str = "base16-ocean.dark";

#[verifier::external_type_specification]
#[verifier::external_body]
pub struct ExSyntaxSet(SyntaxSet);

#[verifier::external_type_specification]
#[verifier::external_body]
pub struct ExThemeSet(ThemeSet);

/// The names of the themes that a theme set holds (the keys of its `themes`
/// map).
pub uninterp spec fn theme_names(t: ThemeSet) -> Set<Seq<char>>;

/// The tokens (file extensions and syntax names) for which
/// `SyntaxSet::find_syntax_by_token` finds a syntax in a syntax set.
pub uninterp spec fn syntax_tokens(s: SyntaxSet) -> Set<Seq<char>>;

/// The HTML that `syntect::html::highlighted_html_for_string` makes of
/// `source`, highlighted as the language that `token` names, in the theme
/// named `theme`, with syntect's default syntaxes and themes; none where it
/// fails.
pub uninterp spec fn highlighted_html(source: Seq<char>, token: Seq<char>, theme: Seq<char>) -> Option<
    Seq<char>,
>;

/// `SyntaxSet::load_defaults_newlines`: syntect's bundled syntaxes. Its
/// documentation's examples find the Rust syntax in them by the extension
/// `rs` (which `find_syntax_by_token` tries first); no other token is stated.
#[verifier::external_body]
fn load_default_syntaxes() -> (s: SyntaxSet)
    ensures
        syntax_tokens(s).contains("rs"@),
{
    SyntaxSet::load_defaults_newlines()
}

/// `ThemeSet::load_defaults`: syntect's bundled themes; its documentation
/// lists the seven names stated here.
#[verifier::external_body]
fn load_default_themes() -> (t: ThemeSet)
    ensures
        theme_names(t).contains("base16-ocean.dark"@),
        theme_names(t).contains("base16-eighties.dark"@),
        theme_names(t).contains("base16-mocha.dark"@),
        theme_names(t).contains("base16-ocean.light"@),
        theme_names(t).contains("InspiredGitHub"@),
        theme_names(t).contains("Solarized (dark)"@),
        theme_names(t).contains("Solarized (light)"@),
{
    ThemeSet::load_defaults()
}

/// `SyntaxSet::find_syntax_by_token`, asked only whether it finds a syntax.
#[verifier::external_body]
fn find_syntax(syntaxes: &SyntaxSet, token: &str) -> (found: bool)
    ensures
        found == syntax_tokens(*syntaxes).contains(token@),
{
    syntaxes.find_syntax_by_token(token).is_some()
}

/// Whether the `themes` map of a theme set holds `name` (`BTreeMap::get`).
#[verifier::external_body]
fn find_theme(themes: &ThemeSet, name: &str) -> (found: bool)
    ensures
        found == theme_names(*themes).contains(name@),
{
    themes.themes.get(name).is_some()
}

/// Syntect's default syntaxes and themes, loaded once. The fields are private
/// and only [`Highlighter::load_defaults`] fills them, so every highlighter holds the
/// default sets that [`highlighted_html`] speaks of.
pub struct Highlighter {
    syntaxes: SyntaxSet,
    themes: ThemeSet,
}

impl Highlighter {
    #[verifier::type_invariant]
    spec fn has_default_theme(self) -> bool {
        theme_names(self.themes).contains(DEFAULT_THEME@)
    }

    /// The languages that code blocks can be highlighted in.
    pub closed spec fn languages(self) -> Set<Seq<char>> {
        syntax_tokens(self.syntaxes)
    }

    /// The themes that can be chosen.
    pub closed spec fn themes(self) -> Set<Seq<char>> {
        theme_names(self.themes)
    }

    /// Loads syntect's default syntaxes and themes.
    pub fn load_defaults() -> (h: Highlighter)
        ensures
            h.themes().contains(DEFAULT_THEME@),
            h.themes().contains("InspiredGitHub"@),
            h.languages().contains("rs"@),
    {
        proof {
            reveal_strlit("base16-ocean.dark");
        }
        Highlighter { syntaxes: load_default_syntaxes(), themes: load_default_themes() }
    }

    /// Whether `token` names a language that code can be highlighted in.
    pub fn knows_language(&self, token: &str) -> (b: bool)
        ensures
            b == self.languages().contains(token@),
    {
        find_syntax(&self.syntaxes, token)
    }

    /// Whether a theme of that name exists.
    pub fn has_theme(&self, name: &str) -> (b: bool)
        ensures
            b == self.themes().contains(name@),
    {
        find_theme(&self.themes, name)
    }

    /// The theme to highlight with: the requested style when such a theme
    /// exists, else [`DEFAULT_THEME`].
    pub fn theme_for(&self, style: &str) -> (theme: String)
        ensures
            theme@ == (if self.themes().contains(style@) {
                style@
            } else {
                DEFAULT_THEME@
            }),
            self.themes().contains(theme@),
    {
        proof {
            use_type_invariant(self);
        }
        if self.has_theme(style) {
            String::from_str(style)
        } else {
            String::from_str(DEFAULT_THEME)
        }
    }

    /// `syntect::html::highlighted_html_for_string` on `source`, with the
    /// syntax that `token` finds and the theme named `theme`; an error becomes
    /// `None`. The value of the result is not stated, only named.
    #[verifier::external_body]
    pub(crate) fn highlight(&self, source: &str, token: &str, theme: &str) -> (html: Option<String>)
        requires
            self.languages().contains(token@),
            self.themes().contains(theme@),
        ensures
            match html {
                Some(h) => highlighted_html(source@, token@, theme@) == Some(h@),
                None => highlighted_html(source@, token@, theme@) is None,
            },
    {
        let syntax = self.syntaxes.find_syntax_by_token(token).unwrap();
        let theme = &self.themes.themes[theme];
        syntect::html::highlighted_html_for_string(source, &self.syntaxes, syntax, theme).ok()
    }
}

} // verus!
