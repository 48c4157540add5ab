//! Syntax highlighting for fenced code blocks, on top of `syntect`.
//!
//! The language tag of a fence is normalised (trimmed, common aliases mapped
//! to the extension `syntect` indexes by) and looked up; a per-fence
//! [`CodeHighlighter`] then turns lines into styled spans, keeping the parse
//! state across the lines of one block. Everything degrades gracefully: an
//! unknown language yields `None` and the caller renders plain text.

use vstd::prelude::*;

use syntect::easy::HighlightLines;
use syntect::highlighting::{Theme, ThemeSet};
use syntect::parsing::{SyntaxReference, SyntaxSet};

use crate::text::{
    chars_eq_str, chars_of, eq_ignore_case, lemma_plain_token, lemma_trim_idempotent, lower_chars, name_le,
    lower_seq, string_from_chars, trim, trim_chars,
};

verus! {

#[verifier::external_type_specification]
#[verifier::external_body]
pub struct ExSyntaxSet(SyntaxSet);

#[verifier::external_type_specification]
#[verifier::external_body]
pub struct ExSyntaxReference(SyntaxReference);

#[verifier::external_type_specification]
#[verifier::external_body]
pub struct ExTheme(Theme);

#[verifier::external_type_specification]
#[verifier::external_body]
pub struct ExThemeSet(ThemeSet);

#[verifier::external_type_specification]
#[verifier::external_body]
pub struct ExHighlightLines<'a>(HighlightLines<'a>);

#[verifier::external_type_specification]
#[verifier::external_body]
pub struct ExSyntectError(syntect::Error);

/// The syntaxes of a set, in order: each one's name and file extensions.
pub uninterp spec fn syntax_catalog(set: SyntaxSet) -> Seq<(Seq<char>, Seq<Seq<char>>)>;

/// The themes of a theme set, by name.
pub uninterp spec fn theme_map(set: ThemeSet) -> Map<Seq<char>, Theme>;

/// `set` is syntect's bundled default theme set.
pub uninterp spec fn bundled_themes(set: ThemeSet) -> bool;

/// `set` is syntect's bundled default syntax set, for lines without their
/// trailing newline.
pub uninterp spec fn bundled_syntaxes(set: SyntaxSet) -> bool;

/// `syntax` is one of the syntaxes of syntect's bundled default set.
pub uninterp spec fn bundled_syntax(syntax: SyntaxReference) -> bool;

/// `state` is the fresh highlighting state `HighlightLines::new` builds for
/// `syntax` and `theme`.
pub uninterp spec fn fresh_state(state: HighlightLines, syntax: SyntaxReference, theme: Theme) -> bool;

/// Whether `HighlightLines::highlight_line` succeeds on `line` from the
/// running state `state` with the syntax set `set`.
pub uninterp spec fn line_parses(state: HighlightLines, set: SyntaxSet, line: Seq<char>) -> bool;

/// The tokens (style and text) `HighlightLines::highlight_line` yields for
/// `line` from the running state `state` with the syntax set `set`.
pub uninterp spec fn line_tokens(state: HighlightLines, set: SyntaxSet, line: Seq<char>) -> Seq<
    (TokenStyle, Seq<char>),
>;

/// `after` is the running state `HighlightLines::highlight_line` leaves
/// after `line`, started from `before` with the syntax set `set`.
pub uninterp spec fn parses_into(
    before: HighlightLines,
    set: SyntaxSet,
    line: Seq<char>,
    after: HighlightLines,
) -> bool;

/// The syntax `SyntaxSet::find_syntax_by_token` returns for `token`.
pub uninterp spec fn syntax_by_token(set: SyntaxSet, token: Seq<char>) -> Option<SyntaxReference>;

/// The syntax `SyntaxSet::find_syntax_by_extension` returns for `ext`.
pub uninterp spec fn syntax_by_extension(set: SyntaxSet, ext: Seq<char>) -> Option<SyntaxReference>;

/// The syntax `SyntaxSet::find_syntax_by_name` returns for `name`.
pub uninterp spec fn syntax_by_name(set: SyntaxSet, name: Seq<char>) -> Option<SyntaxReference>;

} // verus!

verus! {

/// Foreground colour and font flags of a highlighted token (the theme's
/// background is dropped so code blocks sit flush with the transcript).
#[derive(Debug, Clone, Copy, PartialEq, Eq)]
pub struct SpanStyle {
    pub red: u8,
    pub green: u8,
    pub blue: u8,
    pub bold: bool,
    pub italic: bool,
    pub underlined: bool,
}

/// A token's style exactly as the highlighter produced it: foreground and
/// background colours (red, green, blue, alpha) and the font-style bits
/// (bold 1, underline 2, italic 4).
#[derive(Debug, Clone, Copy, PartialEq, Eq)]
pub struct TokenStyle {
    pub fg_r: u8,
    pub fg_g: u8,
    pub fg_b: u8,
    pub fg_a: u8,
    pub bg_r: u8,
    pub bg_g: u8,
    pub bg_b: u8,
    pub bg_a: u8,
    pub font_bits: u8,
}

/// The span style for a token style: the foreground colour, and the bold,
/// underline and italic bits as flags; background and alpha are dropped.
pub open spec fn converted(s: TokenStyle) -> SpanStyle {
    SpanStyle {
        red: s.fg_r,
        green: s.fg_g,
        blue: s.fg_b,
        bold: s.font_bits & 1 != 0,
        italic: s.font_bits & 4 != 0,
        underlined: s.font_bits & 2 != 0,
    }
}

/// Convert a token's style to a span style: foreground colour and the
/// bold/italic/underline flags carry over; the background is dropped so
/// code blocks sit flush with the transcript.
pub fn convert_style(s: TokenStyle) -> (r: SpanStyle)
    ensures
        r == converted(s),
{
    SpanStyle {
        red: s.fg_r,
        green: s.fg_g,
        blue: s.fg_b,
        bold: s.font_bits & 1 != 0,
        italic: s.font_bits & 4 != 0,
        underlined: s.font_bits & 2 != 0,
    }
}

/// A run of text with one style.
#[derive(Debug, Clone, PartialEq, Eq)]
pub struct StyledSpan {
    pub content: String,
    pub style: SpanStyle,
}

/// The texts of highlighted tokens, concatenated in order.
pub open spec fn token_text(tokens: Seq<(TokenStyle, String)>) -> Seq<char>
    decreases tokens.len(),
{
    if tokens.len() == 0 {
        Seq::empty()
    } else {
        token_text(tokens.drop_last()) + tokens.last().1@
    }
}

/// The contents of spans, concatenated in order.
pub open spec fn span_text(spans: Seq<StyledSpan>) -> Seq<char>
    decreases spans.len(),
{
    if spans.len() == 0 {
        Seq::empty()
    } else {
        span_text(spans.drop_last()) + spans.last().content@
    }
}

/// Some syntax of the catalog lists `ext` among its file extensions,
/// ignoring ASCII case.
pub open spec fn has_extension(cat: Seq<(Seq<char>, Seq<Seq<char>>)>, ext: Seq<char>) -> bool {
    exists|i: int, j: int|
        0 <= i < cat.len() && 0 <= j < cat[i].1.len() && eq_ignore_case(#[trigger] cat[i].1[j], ext)
}

/// Some syntax of the catalog is named `name`, ignoring ASCII case.
pub open spec fn has_name_ignore_case(cat: Seq<(Seq<char>, Seq<Seq<char>>)>, name: Seq<char>) -> bool {
    exists|i: int| 0 <= i < cat.len() && eq_ignore_case(#[trigger] cat[i].0, name)
}

/// Some syntax of the catalog is named exactly `name`.
pub open spec fn has_name(cat: Seq<(Seq<char>, Seq<Seq<char>>)>, name: Seq<char>) -> bool {
    exists|i: int| 0 <= i < cat.len() && #[trigger] cat[i].0 == name
}

/// `SyntaxSet::find_syntax_by_token`. Claimed of it: it returns the syntax
/// named by [`syntax_by_token`], and one is found exactly when some syntax
/// lists `token` as a file extension or is named `token`, both ignoring
/// ASCII case.
#[verifier::external_body]
fn find_by_token<'a>(set: &'a SyntaxSet, token: &str) -> (r: Option<&'a SyntaxReference>)
    ensures
        r is Some <==> syntax_by_token(*set, token@) is Some,
        r matches Some(s) ==> syntax_by_token(*set, token@) == Some(*s),
        bundled_syntaxes(*set) ==> (r matches Some(s) ==> bundled_syntax(*s)),
        r is Some <==> has_extension(syntax_catalog(*set), token@) || has_name_ignore_case(
            syntax_catalog(*set),
            token@,
        ),
{
    set.find_syntax_by_token(token)
}

/// `SyntaxSet::find_syntax_by_extension`. Claimed of it: it returns the
/// syntax named by [`syntax_by_extension`], and one is found exactly when
/// some syntax lists `ext` as a file extension, ignoring ASCII case.
#[verifier::external_body]
fn find_by_extension<'a>(set: &'a SyntaxSet, ext: &str) -> (r: Option<&'a SyntaxReference>)
    ensures
        r is Some <==> syntax_by_extension(*set, ext@) is Some,
        r matches Some(s) ==> syntax_by_extension(*set, ext@) == Some(*s),
        bundled_syntaxes(*set) ==> (r matches Some(s) ==> bundled_syntax(*s)),
        r is Some <==> has_extension(syntax_catalog(*set), ext@),
{
    set.find_syntax_by_extension(ext)
}

/// `SyntaxSet::find_syntax_by_name`. Claimed of it: it returns the syntax
/// named by [`syntax_by_name`], and one is found exactly when some syntax
/// is named exactly `name`.
#[verifier::external_body]
fn find_by_name<'a>(set: &'a SyntaxSet, name: &str) -> (r: Option<&'a SyntaxReference>)
    ensures
        r is Some <==> syntax_by_name(*set, name@) is Some,
        r matches Some(s) ==> syntax_by_name(*set, name@) == Some(*s),
        bundled_syntaxes(*set) ==> (r matches Some(s) ==> bundled_syntax(*s)),
        r is Some <==> has_name(syntax_catalog(*set), name@),
{
    set.find_syntax_by_name(name)
}

/// `HighlightLines::new`: a highlighter for one syntax and theme, starting
/// from a fresh parse state. Claimed of it: the result is the fresh state
/// for that syntax and theme. It is only called with a syntax of syntect's
/// bundled set, whose start contexts exist (a hand-built syntax may lack
/// them and make it panic).
#[verifier::external_body]
fn new_highlight_lines<'a>(syntax: &SyntaxReference, theme: &'a Theme) -> (r: HighlightLines<'a>)
    requires
        bundled_syntax(*syntax),
    ensures
        fresh_state(r, *syntax, *theme),
{
    HighlightLines::new(syntax, theme)
}

/// `SyntaxSet::load_defaults_nonewlines`. Claimed of it: the result is
/// syntect's bundled default syntax set.
#[verifier::external_body]
fn load_default_syntaxes() -> (r: SyntaxSet)
    ensures
        bundled_syntaxes(r),
{
    SyntaxSet::load_defaults_nonewlines()
}

/// The bundled syntax definitions, for lines fed without their trailing
/// newline.
pub fn default_syntaxes() -> (r: SyntaxSet)
    ensures
        bundled_syntaxes(r),
{
    load_default_syntaxes()
}

/// `ThemeSet::load_defaults`. Claimed of it: the result is syntect's
/// bundled theme set, and it holds the seven themes its documentation lists
/// by name. Their contents are not stated.
#[verifier::external_body]
fn load_default_themes() -> (r: ThemeSet)
    ensures
        bundled_themes(r),
        theme_map(r).contains_key("base16-ocean.dark"@),
        theme_map(r).contains_key("base16-eighties.dark"@),
        theme_map(r).contains_key("base16-mocha.dark"@),
        theme_map(r).contains_key("base16-ocean.light"@),
        theme_map(r).contains_key("InspiredGitHub"@),
        theme_map(r).contains_key("Solarized (dark)"@),
        theme_map(r).contains_key("Solarized (light)"@),
{
    ThemeSet::load_defaults()
}

/// `BTreeMap::remove` on the themes of a set. Claimed of it: it hands back
/// the set's theme of that name when there is one, `None` otherwise, and
/// the name is gone afterwards.
#[verifier::external_body]
fn remove_theme(set: &mut ThemeSet, name: &str) -> (r: Option<Theme>)
    ensures
        theme_map(*old(set)).contains_key(name@) ==> r == Some(theme_map(*old(set))[name@]),
        !theme_map(*old(set)).contains_key(name@) ==> r is None,
        theme_map(*final(set)) == theme_map(*old(set)).remove(name@),
{
    set.themes.remove(name)
}

/// The first theme of a set by name order (`BTreeMap::values().next()`,
/// cloned). Claimed of it: there is one exactly when the set has any theme,
/// and it is the set's theme under the least name.
#[verifier::external_body]
fn first_theme(set: &ThemeSet) -> (r: Option<Theme>)
    ensures
        r is Some <==> exists|n: Seq<char>| theme_map(*set).contains_key(n),
        r matches Some(t) ==> exists|n: Seq<char>|
            #![trigger theme_map(*set)[n]]
            theme_map(*set).contains_key(n) && theme_map(*set)[n] == t && forall|m: Seq<char>|
                theme_map(*set).contains_key(m) ==> name_le(n, m),
{
    set.themes.values().next().cloned()
}

/// A dark theme that reads well on a dark terminal: `base16-ocean.dark`
/// from `syntect`'s bundled themes. Only its foreground colours are ever
/// used.
pub fn default_theme() -> (r: Option<Theme>)
    ensures
        r is Some,
        exists|s: ThemeSet|
            bundled_themes(s) && r == Some(theme_map(s)["base16-ocean.dark"@]),
{
    let set = load_default_themes();
    let ghost loaded = set;
    let r = prefer_theme(set);
    assert(bundled_themes(loaded) && r == Some(theme_map(loaded)["base16-ocean.dark"@]));
    r
}

/// The theme a set offers for dark terminals: its `base16-ocean.dark` when
/// it has one, or else its theme under the least name; `None` only for an
/// empty set.
pub fn prefer_theme(set: ThemeSet) -> (r: Option<Theme>)
    ensures
        theme_map(set).contains_key("base16-ocean.dark"@) ==> r == Some(
            theme_map(set)["base16-ocean.dark"@],
        ),
        !theme_map(set).contains_key("base16-ocean.dark"@) ==> (r is Some <==> exists|n: Seq<char>|
            theme_map(set).contains_key(n)),
        !theme_map(set).contains_key("base16-ocean.dark"@) ==> (r matches Some(t) ==> exists|
            n: Seq<char>,
        |
            #![trigger theme_map(set)[n]]
            theme_map(set).contains_key(n) && theme_map(set)[n] == t && forall|m: Seq<char>|
                theme_map(set).contains_key(m) ==> name_le(n, m)),
{
    let mut rest = set;
    match remove_theme(&mut rest, "base16-ocean.dark") {
        Some(t) => Some(t),
        None => {
            assert(theme_map(rest) =~= theme_map(set));
            first_theme(&rest)
        },
    }
}

/// The alias table for fence tags, applied to the lowercased tag.
pub open spec fn alias(l: Seq<char>) -> Option<Seq<char>> {
    if l == "rust"@ {
        Some("rs"@)
    } else if l == "python"@ {
        Some("py"@)
    } else if l == "javascript"@ || l == "node"@ || l == "mjs"@ || l == "cjs"@ {
        Some("js"@)
    } else if l == "typescript"@ {
        Some("ts"@)
    } else if l == "bash"@ || l == "shell"@ || l == "zsh"@ || l == "console"@ {
        Some("sh"@)
    } else if l == "yml"@ {
        Some("yaml"@)
    } else if l == "golang"@ {
        Some("go"@)
    } else if l == "c++"@ || l == "cxx"@ || l == "cc"@ {
        Some("cpp"@)
    } else if l == "c#"@ || l == "csharp"@ {
        Some("cs"@)
    } else if l == "rb"@ || l == "ruby"@ {
        Some("rb"@)
    } else if l == "markdown"@ {
        Some("md"@)
    } else if l == "plaintext"@ || l == "text"@ || l == "txt"@ {
        Some("txt"@)
    } else {
        None
    }
}

/// The token a fence tag is looked up by: the alias of the trimmed,
/// lowercased tag, or else the trimmed tag itself (case kept).
pub open spec fn normalized(lang: Seq<char>) -> Seq<char> {
    match alias(lower_seq(trim(lang))) {
        Some(a) => a,
        None => trim(lang),
    }
}

/// Whether a fence tag names a syntax of the catalog: its normalised token
/// is non-empty and names a syntax by extension or by name.
pub open spec fn language_known(cat: Seq<(Seq<char>, Seq<Seq<char>>)>, lang: Seq<char>) -> bool {
    let token = normalized(lang);
    &&& token.len() > 0
    &&& has_extension(cat, token) || has_name_ignore_case(cat, token) || has_name(cat, token)
}

/// Map the language tag of a code fence to a token `syntect` recognises:
/// common aliases (`rust`, `python`, `bash`, ...) become the file extension
/// `syntect` indexes by; anything else passes through trimmed.
pub fn normalize_lang(lang: &str) -> (r: String)
    ensures
        r@ == normalized(lang@),
{
    let t = trim_chars(&chars_of(lang));
    let l = lower_chars(&t);
    if chars_eq_str(&l, "rust") {
        "rs".to_owned()
    } else if chars_eq_str(&l, "python") {
        "py".to_owned()
    } else if chars_eq_str(&l, "javascript") || chars_eq_str(&l, "node") || chars_eq_str(&l, "mjs")
        || chars_eq_str(&l, "cjs") {
        "js".to_owned()
    } else if chars_eq_str(&l, "typescript") {
        "ts".to_owned()
    } else if chars_eq_str(&l, "bash") || chars_eq_str(&l, "shell") || chars_eq_str(&l, "zsh")
        || chars_eq_str(&l, "console") {
        "sh".to_owned()
    } else if chars_eq_str(&l, "yml") {
        "yaml".to_owned()
    } else if chars_eq_str(&l, "golang") {
        "go".to_owned()
    } else if chars_eq_str(&l, "c++") || chars_eq_str(&l, "cxx") || chars_eq_str(&l, "cc") {
        "cpp".to_owned()
    } else if chars_eq_str(&l, "c#") || chars_eq_str(&l, "csharp") {
        "cs".to_owned()
    } else if chars_eq_str(&l, "rb") || chars_eq_str(&l, "ruby") {
        "rb".to_owned()
    } else if chars_eq_str(&l, "markdown") {
        "md".to_owned()
    } else if chars_eq_str(&l, "plaintext") || chars_eq_str(&l, "text") || chars_eq_str(&l, "txt") {
        "txt".to_owned()
    } else {
        string_from_chars(&t, 0, t.len())
    }
}

/// The syntax for a fence tag: none for a blank tag; otherwise the
/// by-token lookup of its normalised token, or failing that the
/// by-extension lookup, or failing that the by-name lookup.
pub open spec fn syntax_for_tag(set: SyntaxSet, lang: Seq<char>) -> Option<SyntaxReference> {
    let token = normalized(lang);
    if token.len() == 0 {
        None
    } else {
        match syntax_by_token(set, token) {
            Some(s) => Some(s),
            None => match syntax_by_extension(set, token) {
                Some(s) => Some(s),
                None => syntax_by_name(set, token),
            },
        }
    }
}

/// Look up the syntax for a fence tag: by token, then by extension, then by
/// exact name; `None` for an empty tag or an unknown language.
pub fn find_syntax<'a>(set: &'a SyntaxSet, lang: &str) -> (r: Option<&'a SyntaxReference>)
    ensures
        r is Some <==> syntax_for_tag(*set, lang@) is Some,
        r matches Some(s) ==> syntax_for_tag(*set, lang@) == Some(*s),
        bundled_syntaxes(*set) ==> (r matches Some(s) ==> bundled_syntax(*s)),
        r is Some <==> language_known(syntax_catalog(*set), lang@),
{
    let token = normalize_lang(lang);
    if token.as_str().is_empty() {
        return None;
    }
    match find_by_token(set, token.as_str()) {
        Some(s) => Some(s),
        None => match find_by_extension(set, token.as_str()) {
            Some(s) => Some(s),
            None => find_by_name(set, token.as_str()),
        },
    }
}

/// A per-fence highlighter: holds the running parse state so consecutive
/// lines of one block highlight in context.
pub struct CodeHighlighter<'a> {
    inner: HighlightLines<'a>,
    syntaxes: &'a SyntaxSet,
    syntax: Ghost<SyntaxReference>,
}

impl<'a> CodeHighlighter<'a> {
    /// The syntax set this highlighter parses with.
    pub closed spec fn syntax_set(&self) -> SyntaxSet {
        *self.syntaxes
    }

    /// The syntax this highlighter was built for.
    pub closed spec fn syntax(&self) -> SyntaxReference {
        self.syntax@
    }

    /// The running parse and highlight state.
    pub closed spec fn state(&self) -> HighlightLines<'a> {
        self.inner
    }

    /// Build a highlighter for the fence tag `lang` over `syntaxes` (the
    /// bundled set, see [`default_syntaxes`]) and `theme`, or `None` when the
    /// language isn't recognised (the caller falls back to plain
    /// rendering). It starts from the fresh state for the syntax found.
    pub fn for_language(syntaxes: &'a SyntaxSet, theme: &'a Theme, lang: &str) -> (r: Option<Self>)
        requires
            bundled_syntaxes(*syntaxes),
        ensures
            r matches Some(h) ==> fresh_state(h.state(), h.syntax(), *theme),
            r matches Some(h) ==> bundled_syntax(h.syntax()),
            r is Some <==> syntax_for_tag(*syntaxes, lang@) is Some,
            r matches Some(h) ==> syntax_for_tag(*syntaxes, lang@) == Some(h.syntax()),
            r is Some <==> language_known(syntax_catalog(*syntaxes), lang@),
            r matches Some(h) ==> h.syntax_set() == *syntaxes,
    {
        let syntax = find_syntax(syntaxes, lang)?;
        Some(CodeHighlighter {
            inner: new_highlight_lines(syntax, theme),
            syntaxes,
            syntax: Ghost(*syntax),
        })
    }

    /// Highlight one line of code into styled spans: one span per token of
    /// the line, with the token's text and converted style, the contents in
    /// order making up exactly the line. `None` if the underlying parser
    /// fails, so the caller can fall back to plain text. The running state
    /// carries over to the next line of the block.
    pub fn highlight(&mut self, line: &str) -> (r: Option<Vec<StyledSpan>>)
        requires
            bundled_syntaxes(old(self).syntax_set()),
            bundled_syntax(old(self).syntax()),
        ensures
            r is Some <==> line_parses(old(self).state(), old(self).syntax_set(), line@),
            r matches Some(spans) ==> spans@.len() == line_tokens(
                old(self).state(),
                old(self).syntax_set(),
                line@,
            ).len() && forall|i: int|
                0 <= i < spans@.len() ==> (#[trigger] spans@[i]).content@ == line_tokens(
                    old(self).state(),
                    old(self).syntax_set(),
                    line@,
                )[i].1 && spans@[i].style == converted(
                    line_tokens(old(self).state(), old(self).syntax_set(), line@)[i].0,
                ),
            parses_into(old(self).state(), old(self).syntax_set(), line@, final(self).state()),
            r matches Some(spans) ==> span_text(spans@) == line@,
            r matches Some(spans) ==> forall|i: int|
                0 <= i < spans@.len() ==> (#[trigger] spans@[i]).style.red == line_tokens(
                    old(self).state(),
                    old(self).syntax_set(),
                    line@,
                )[i].0.fg_r && spans@[i].style.green == line_tokens(
                    old(self).state(),
                    old(self).syntax_set(),
                    line@,
                )[i].0.fg_g && spans@[i].style.blue == line_tokens(
                    old(self).state(),
                    old(self).syntax_set(),
                    line@,
                )[i].0.fg_b,
            final(self).syntax_set() == old(self).syntax_set(),
            final(self).syntax() == old(self).syntax(),
    {
        let tokens = highlight_tokens(self, line);
        let r = spans_of(tokens);
        r
    }
}

/// The tokens of a sequence of (style, text) pairs, texts as characters.
pub open spec fn tokens_view(v: Seq<(TokenStyle, String)>) -> Seq<(TokenStyle, Seq<char>)> {
    v.map_values(|t: (TokenStyle, String)| (t.0, t.1@))
}

/// `HighlightLines::highlight_line` on a highlighter's running state, with
/// the syntax set it was built from; each token's style is handed back field
/// for field. Claimed of it: it succeeds exactly when [`line_parses`] says
/// so, yields the tokens [`line_tokens`] names, whose texts in order make up
/// the line (syntect documents this of the token iterator it collects),
/// leaves the state [`parses_into`] names, and keeps the highlighter's
/// syntax set and syntax. It is only called over syntect's bundled set with
/// one of its syntaxes (a hand-built set may hold patterns that make it
/// panic).
#[verifier::external_body]
fn highlight_tokens<'a>(h: &mut CodeHighlighter<'a>, line: &str) -> (r: Result<
    Vec<(TokenStyle, String)>,
    syntect::Error,
>)
    requires
        bundled_syntaxes(old(h).syntax_set()),
        bundled_syntax(old(h).syntax()),
    ensures
        r is Ok <==> line_parses(old(h).state(), old(h).syntax_set(), line@),
        r matches Ok(v) ==> tokens_view(v@) == line_tokens(
            old(h).state(),
            old(h).syntax_set(),
            line@,
        ),
        parses_into(old(h).state(), old(h).syntax_set(), line@, final(h).state()),
        r matches Ok(v) ==> token_text(v@) == line@,
        final(h).syntax_set() == old(h).syntax_set(),
        final(h).syntax() == old(h).syntax(),
{
    h.inner.highlight_line(line, h.syntaxes).map(|v| v.into_iter().map(|(s, t)| {
        let (f, b) = (s.foreground, s.background);
        let style = TokenStyle { fg_r: f.r, fg_g: f.g, fg_b: f.b, fg_a: f.a, bg_r: b.r, bg_g: b.g,
            bg_b: b.b, bg_a: b.a, font_bits: s.font_style.bits() };
        (style, t.to_string())
    }).collect())
}

/// The spans for what the tokenizer returned: `None` when it failed,
/// otherwise one span per token, with the token's text and converted style,
/// in order.
pub fn spans_of(tokens: Result<Vec<(TokenStyle, String)>, syntect::Error>) -> (r: Option<
    Vec<StyledSpan>,
>)
    ensures
        match tokens {
            Err(_) => r is None,
            Ok(v) => r matches Some(spans) && spans@.len() == v@.len() && (forall|i: int|
                0 <= i < v@.len() ==> (#[trigger] spans@[i]).content@ == v@[i].1@ && spans@[i].style
                    == converted(v@[i].0)) && span_text(spans@) == token_text(v@),
        },
        tokens matches Ok(v) ==> r matches Some(spans) && forall|i: int|
            0 <= i < v@.len() ==> (#[trigger] spans@[i]).style.red == v@[i].0.fg_r
                && spans@[i].style.green == v@[i].0.fg_g && spans@[i].style.blue == v@[i].0.fg_b,
{
    let tokens = match tokens {
        Ok(v) => v,
        Err(_) => return None,
    };
    let mut spans: Vec<StyledSpan> = Vec::new();
    let mut i: usize = 0;
    while i < tokens.len()
        invariant
            i <= tokens@.len(),
            spans@.len() == i,
            forall|j: int|
                0 <= j < i ==> (#[trigger] spans@[j]).content@ == tokens@[j].1@ && spans@[j].style
                    == converted(tokens@[j].0),
            span_text(spans@) == token_text(tokens@.take(i as int)),
        decreases tokens@.len() - i,
    {
        let span = StyledSpan { content: tokens[i].1.clone(), style: convert_style(tokens[i].0) };
        let ghost prev = spans@;
        spans.push(span);
        assert(spans@.drop_last() == prev);
        assert(tokens@.take(i + 1).drop_last() =~= tokens@.take(i as int));
        i = i + 1;
    }
    assert(tokens@.take(tokens@.len() as int) =~= tokens@);
    Some(spans)
}

} // verus!

verus! {

/// A blank fence tag (empty or all white space) never names a syntax, so
/// no highlighter is built for it.
pub proof fn law_blank_tag_finds_nothing(cat: Seq<(Seq<char>, Seq<Seq<char>>)>, lang: Seq<char>)
    requires
        trim(lang).len() == 0,
    ensures
        !language_known(cat, lang),
{
    reveal_strlit("rust");
    reveal_strlit("python");
    reveal_strlit("javascript");
    reveal_strlit("node");
    reveal_strlit("mjs");
    reveal_strlit("cjs");
    reveal_strlit("typescript");
    reveal_strlit("bash");
    reveal_strlit("shell");
    reveal_strlit("zsh");
    reveal_strlit("console");
    reveal_strlit("yml");
    reveal_strlit("golang");
    reveal_strlit("c++");
    reveal_strlit("cxx");
    reveal_strlit("cc");
    reveal_strlit("c#");
    reveal_strlit("csharp");
    reveal_strlit("rb");
    reveal_strlit("ruby");
    reveal_strlit("markdown");
    reveal_strlit("plaintext");
    reveal_strlit("text");
    reveal_strlit("txt");
    assert(lower_seq(trim(lang)).len() == 0);
    assert(alias(lower_seq(trim(lang))) is None);
}

} // verus!

verus! {

proof fn lemma_alias_outputs(l: Seq<char>)
    ensures
        alias(l) matches Some(a) ==> {
            &&& a.len() > 0
            &&& trim(a) == a
            &&& lower_seq(a) == a
            &&& (alias(a) is None || alias(a) == Some(a))
        },
        l.len() == 0 ==> alias(l) is None,
{
    reveal_strlit("rust");
    reveal_strlit("python");
    reveal_strlit("javascript");
    reveal_strlit("node");
    reveal_strlit("mjs");
    reveal_strlit("cjs");
    reveal_strlit("typescript");
    reveal_strlit("bash");
    reveal_strlit("shell");
    reveal_strlit("zsh");
    reveal_strlit("console");
    reveal_strlit("yml");
    reveal_strlit("golang");
    reveal_strlit("c++");
    reveal_strlit("cxx");
    reveal_strlit("cc");
    reveal_strlit("c#");
    reveal_strlit("csharp");
    reveal_strlit("rb");
    reveal_strlit("ruby");
    reveal_strlit("markdown");
    reveal_strlit("plaintext");
    reveal_strlit("text");
    reveal_strlit("txt");
    reveal_strlit("rs");
    reveal_strlit("py");
    reveal_strlit("js");
    reveal_strlit("ts");
    reveal_strlit("sh");
    reveal_strlit("yaml");
    reveal_strlit("go");
    reveal_strlit("cpp");
    reveal_strlit("cs");
    reveal_strlit("md");
    if let Some(a) = alias(l) {
        lemma_plain_token(a);
    }
}

/// Normalising a tag twice gives what normalising it once gives.
pub proof fn law_normalize_idempotent(lang: Seq<char>)
    ensures
        normalized(normalized(lang)) == normalized(lang),
{
    let t = trim(lang);
    lemma_trim_idempotent(lang);
    lemma_alias_outputs(lower_seq(t));
    if let Some(a) = alias(lower_seq(t)) {
        lemma_alias_outputs(a);
    }
}

/// The normalised token has no surrounding white space, and it is empty
/// exactly when the tag is blank.
pub proof fn law_normalized_is_trimmed(lang: Seq<char>)
    ensures
        trim(normalized(lang)) == normalized(lang),
        normalized(lang).len() == 0 <==> trim(lang).len() == 0,
{
    let t = trim(lang);
    lemma_trim_idempotent(lang);
    lemma_alias_outputs(lower_seq(t));
    assert(lower_seq(t).len() == t.len());
}

/// Two tags with the same normal form find the same syntax.
pub proof fn law_same_normal_form_same_syntax(set: SyntaxSet, a: Seq<char>, b: Seq<char>)
    requires
        normalized(a) == normalized(b),
    ensures
        syntax_for_tag(set, a) == syntax_for_tag(set, b),
{
}

} // verus!

verus! {

/// The fence-tag aliases: after trimming and ignoring case, `rust` is looked
/// up as `rs`, `python` as `py`, `javascript`, `node`, `mjs` and `cjs` as
/// `js`, `typescript` as `ts`, `bash`, `shell`, `zsh` and `console` as `sh`,
/// `yml` as `yaml`, `golang` as `go`, `c++`, `cxx` and `cc` as `cpp`, `c#`
/// and `csharp` as `cs`, `rb` and `ruby` as `rb`, `markdown` as `md`, and
/// `plaintext`, `text` and `txt` as `txt`. Any other tag is looked up as it
/// stands, trimmed, with its case kept.
pub proof fn law_alias_table(lang: Seq<char>)
    ensures
        lower_seq(trim(lang)) == "rust"@ ==> normalized(lang) == "rs"@,
        lower_seq(trim(lang)) == "python"@ ==> normalized(lang) == "py"@,
        lower_seq(trim(lang)) == "javascript"@ ==> normalized(lang) == "js"@,
        lower_seq(trim(lang)) == "node"@ ==> normalized(lang) == "js"@,
        lower_seq(trim(lang)) == "mjs"@ ==> normalized(lang) == "js"@,
        lower_seq(trim(lang)) == "cjs"@ ==> normalized(lang) == "js"@,
        lower_seq(trim(lang)) == "typescript"@ ==> normalized(lang) == "ts"@,
        lower_seq(trim(lang)) == "bash"@ ==> normalized(lang) == "sh"@,
        lower_seq(trim(lang)) == "shell"@ ==> normalized(lang) == "sh"@,
        lower_seq(trim(lang)) == "zsh"@ ==> normalized(lang) == "sh"@,
        lower_seq(trim(lang)) == "console"@ ==> normalized(lang) == "sh"@,
        lower_seq(trim(lang)) == "yml"@ ==> normalized(lang) == "yaml"@,
        lower_seq(trim(lang)) == "golang"@ ==> normalized(lang) == "go"@,
        lower_seq(trim(lang)) == "c++"@ ==> normalized(lang) == "cpp"@,
        lower_seq(trim(lang)) == "cxx"@ ==> normalized(lang) == "cpp"@,
        lower_seq(trim(lang)) == "cc"@ ==> normalized(lang) == "cpp"@,
        lower_seq(trim(lang)) == "c#"@ ==> normalized(lang) == "cs"@,
        lower_seq(trim(lang)) == "csharp"@ ==> normalized(lang) == "cs"@,
        lower_seq(trim(lang)) == "rb"@ ==> normalized(lang) == "rb"@,
        lower_seq(trim(lang)) == "ruby"@ ==> normalized(lang) == "rb"@,
        lower_seq(trim(lang)) == "markdown"@ ==> normalized(lang) == "md"@,
        lower_seq(trim(lang)) == "plaintext"@ ==> normalized(lang) == "txt"@,
        lower_seq(trim(lang)) == "text"@ ==> normalized(lang) == "txt"@,
        lower_seq(trim(lang)) == "txt"@ ==> normalized(lang) == "txt"@,
        ({
            let l = lower_seq(trim(lang));
            l != "rust"@ && l != "python"@ && l != "javascript"@ && l != "node"@ && l != "mjs"@ && l != "cjs"@
                && l != "typescript"@ && l != "bash"@ && l != "shell"@ && l != "zsh"@ && l != "console"@ && l != "yml"@
                && l != "golang"@ && l != "c++"@ && l != "cxx"@ && l != "cc"@ && l != "c#"@ && l != "csharp"@
                && l != "rb"@ && l != "ruby"@ && l != "markdown"@ && l != "plaintext"@ && l != "text"@ && l != "txt"@
                ==> normalized(lang) == trim(lang)
        }),
{
    reveal_strlit("rust");
    assert("rust"@.len() == 4);
    reveal_strlit("rs");
    assert("rs"@.len() == 2);
    reveal_strlit("python");
    assert("python"@.len() == 6);
    reveal_strlit("py");
    assert("py"@.len() == 2);
    reveal_strlit("javascript");
    assert("javascript"@.len() == 10);
    reveal_strlit("js");
    assert("js"@.len() == 2);
    reveal_strlit("node");
    assert("node"@.len() == 4);
    reveal_strlit("mjs");
    assert("mjs"@.len() == 3);
    reveal_strlit("cjs");
    assert("cjs"@.len() == 3);
    reveal_strlit("typescript");
    assert("typescript"@.len() == 10);
    reveal_strlit("ts");
    assert("ts"@.len() == 2);
    reveal_strlit("bash");
    assert("bash"@.len() == 4);
    reveal_strlit("sh");
    assert("sh"@.len() == 2);
    reveal_strlit("shell");
    assert("shell"@.len() == 5);
    reveal_strlit("zsh");
    assert("zsh"@.len() == 3);
    reveal_strlit("console");
    assert("console"@.len() == 7);
    reveal_strlit("yml");
    assert("yml"@.len() == 3);
    reveal_strlit("yaml");
    assert("yaml"@.len() == 4);
    reveal_strlit("golang");
    assert("golang"@.len() == 6);
    reveal_strlit("go");
    assert("go"@.len() == 2);
    reveal_strlit("c++");
    assert("c++"@.len() == 3);
    reveal_strlit("cpp");
    assert("cpp"@.len() == 3);
    reveal_strlit("cxx");
    assert("cxx"@.len() == 3);
    reveal_strlit("cc");
    assert("cc"@.len() == 2);
    reveal_strlit("c#");
    assert("c#"@.len() == 2);
    reveal_strlit("cs");
    assert("cs"@.len() == 2);
    reveal_strlit("csharp");
    assert("csharp"@.len() == 6);
    reveal_strlit("rb");
    assert("rb"@.len() == 2);
    reveal_strlit("ruby");
    assert("ruby"@.len() == 4);
    reveal_strlit("markdown");
    assert("markdown"@.len() == 8);
    reveal_strlit("md");
    assert("md"@.len() == 2);
    reveal_strlit("plaintext");
    assert("plaintext"@.len() == 9);
    reveal_strlit("txt");
    assert("txt"@.len() == 3);
    reveal_strlit("text");
    assert("text"@.len() == 4);
    assert(alias("rust"@) == Some("rs"@));
    assert(alias("python"@) == Some("py"@));
    assert(alias("javascript"@) == Some("js"@));
    assert(alias("node"@) == Some("js"@)) by {
        assert("node"@[0] != "rust"@[0]);
    }
    assert(alias("mjs"@) == Some("js"@));
    assert(alias("cjs"@) == Some("js"@)) by {
        assert("cjs"@[0] != "mjs"@[0]);
    }
    assert(alias("typescript"@) == Some("ts"@)) by {
        assert("typescript"@[0] != "javascript"@[0]);
    }
    assert(alias("bash"@) == Some("sh"@)) by {
        assert("bash"@[0] != "rust"@[0]);
        assert("bash"@[0] != "node"@[0]);
    }
    assert(alias("shell"@) == Some("sh"@));
    assert(alias("zsh"@) == Some("sh"@)) by {
        assert("zsh"@[0] != "mjs"@[0]);
        assert("zsh"@[0] != "cjs"@[0]);
    }
    assert(alias("console"@) == Some("sh"@));
    assert(alias("yml"@) == Some("yaml"@)) by {
        assert("yml"@[0] != "mjs"@[0]);
        assert("yml"@[0] != "cjs"@[0]);
        assert("yml"@[0] != "zsh"@[0]);
    }
    assert(alias("golang"@) == Some("go"@)) by {
        assert("golang"@[0] != "python"@[0]);
    }
    assert(alias("c++"@) == Some("cpp"@)) by {
        assert("c++"@[0] != "mjs"@[0]);
        assert("c++"@[1] != "cjs"@[1]);
        assert("c++"@[0] != "zsh"@[0]);
        assert("c++"@[0] != "yml"@[0]);
    }
    assert(alias("cxx"@) == Some("cpp"@)) by {
        assert("cxx"@[0] != "mjs"@[0]);
        assert("cxx"@[1] != "cjs"@[1]);
        assert("cxx"@[0] != "zsh"@[0]);
        assert("cxx"@[0] != "yml"@[0]);
        assert("cxx"@[1] != "c++"@[1]);
    }
    assert(alias("cc"@) == Some("cpp"@));
    assert(alias("c#"@) == Some("cs"@)) by {
        assert("c#"@[1] != "cc"@[1]);
    }
    assert(alias("csharp"@) == Some("cs"@)) by {
        assert("csharp"@[0] != "python"@[0]);
        assert("csharp"@[0] != "golang"@[0]);
    }
    assert(alias("rb"@) == Some("rb"@)) by {
        assert("rb"@[0] != "cc"@[0]);
        assert("rb"@[0] != "c#"@[0]);
    }
    assert(alias("ruby"@) == Some("rb"@)) by {
        assert("ruby"@[2] != "rust"@[2]);
        assert("ruby"@[0] != "node"@[0]);
        assert("ruby"@[0] != "bash"@[0]);
    }
    assert(alias("markdown"@) == Some("md"@));
    assert(alias("plaintext"@) == Some("txt"@));
    assert(alias("text"@) == Some("txt"@)) by {
        assert("text"@[0] != "rust"@[0]);
        assert("text"@[0] != "node"@[0]);
        assert("text"@[0] != "bash"@[0]);
        assert("text"@[0] != "ruby"@[0]);
    }
    assert(alias("txt"@) == Some("txt"@)) by {
        assert("txt"@[0] != "mjs"@[0]);
        assert("txt"@[0] != "cjs"@[0]);
        assert("txt"@[0] != "zsh"@[0]);
        assert("txt"@[0] != "yml"@[0]);
        assert("txt"@[0] != "c++"@[0]);
        assert("txt"@[0] != "cxx"@[0]);
    }
}

} // verus!

verus! {

/// A span keeps its token's foreground colour channel for channel, and
/// takes bold from bit 0 of the font style, underline from bit 1 and
/// italic from bit 2; nothing else of the token style matters.
pub proof fn law_convert_keeps_foreground(s: TokenStyle)
    ensures
        converted(s).red == s.fg_r,
        converted(s).green == s.fg_g,
        converted(s).blue == s.fg_b,
        converted(s).bold <==> s.font_bits % 2 == 1,
        converted(s).underlined <==> (s.font_bits / 2) % 2 == 1,
        converted(s).italic <==> (s.font_bits / 4) % 2 == 1,
{
    let b: u8 = s.font_bits;
    assert((b & 1 != 0) <==> b % 2 == 1) by (bit_vector);
    assert((b & 2 != 0) <==> (b / 2) % 2 == 1) by (bit_vector);
    assert((b & 4 != 0) <==> (b / 4) % 2 == 1) by (bit_vector);
}

/// Two token styles with the same foreground colour and font style give
/// the same span style, whatever their backgrounds and alpha.
pub proof fn law_background_ignored(s: TokenStyle, t: TokenStyle)
    requires
        s.fg_r == t.fg_r,
        s.fg_g == t.fg_g,
        s.fg_b == t.fg_b,
        s.font_bits == t.font_bits,
    ensures
        converted(s) == converted(t),
{
}

} // verus!
