use codeoid::highlight::{
    convert_style, default_syntaxes, default_theme, normalize_lang, prefer_theme, spans_of, CodeHighlighter, SpanStyle, TokenStyle,
};
use syntect::highlighting::{Theme, ThemeSet};
use syntect::parsing::SyntaxSet;

fn assets() -> (SyntaxSet, Theme) {
    (default_syntaxes(), default_theme().unwrap())
}

#[test]
fn known_language_builds_highlighter() {
    let (set, theme) = assets();
    assert!(CodeHighlighter::for_language(&set, &theme, "rust").is_some());
    assert!(CodeHighlighter::for_language(&set, &theme, "rs").is_some());
    assert!(CodeHighlighter::for_language(&set, &theme, "python").is_some());
    assert!(CodeHighlighter::for_language(&set, &theme, "json").is_some());
}

#[test]
fn unknown_language_yields_none() {
    let (set, theme) = assets();
    assert!(CodeHighlighter::for_language(&set, &theme, "definitely-not-a-language").is_none());
    assert!(CodeHighlighter::for_language(&set, &theme, "").is_none());
}

#[test]
fn highlight_splits_into_multiple_styled_spans() {
    let (set, theme) = assets();
    let mut h = CodeHighlighter::for_language(&set, &theme, "rust").unwrap();
    let spans = h.highlight("fn main() {}").unwrap();
    assert!(spans.len() > 1, "expected multiple spans, got {}", spans.len());
    let joined: String = spans.iter().map(|s| s.content.as_str()).collect();
    assert_eq!(joined, "fn main() {}");
}

#[test]
fn highlight_preserves_content_across_lines() {
    let (set, theme) = assets();
    let mut h = CodeHighlighter::for_language(&set, &theme, "rust").unwrap();
    let l1: String = h
        .highlight("let x = \"unterminated")
        .unwrap()
        .iter()
        .map(|s| s.content.as_str())
        .collect();
    let l2: String = h
        .highlight("still string\";")
        .unwrap()
        .iter()
        .map(|s| s.content.to_string())
        .collect();
    assert_eq!(l1, "let x = \"unterminated");
    assert_eq!(l2, "still string\";");
}

#[test]
fn empty_line_highlights_to_empty() {
    let (set, theme) = assets();
    let mut h = CodeHighlighter::for_language(&set, &theme, "rust").unwrap();
    let joined: String = h
        .highlight("")
        .unwrap()
        .iter()
        .map(|s| s.content.as_str())
        .collect();
    assert_eq!(joined, "");
}

#[test]
fn aliases_are_normalised() {
    assert_eq!(normalize_lang("rust"), "rs");
    assert_eq!(normalize_lang("  Python \t"), "py");
    assert_eq!(normalize_lang("NODE"), "js");
    assert_eq!(normalize_lang("c++"), "cpp");
    assert_eq!(normalize_lang("C#"), "cs");
    assert_eq!(normalize_lang("yml"), "yaml");
    assert_eq!(normalize_lang("text"), "txt");
    assert_eq!(normalize_lang("zsh"), "sh");
}

#[test]
fn unknown_tags_pass_through_trimmed() {
    assert_eq!(normalize_lang("  JSON  "), "JSON");
    assert_eq!(normalize_lang("toml"), "toml");
    assert_eq!(normalize_lang("\u{3000}go\u{a0}"), "go");
    assert_eq!(normalize_lang("   "), "");
}

#[test]
fn whitespace_tag_finds_nothing() {
    let (set, theme) = assets();
    assert!(CodeHighlighter::for_language(&set, &theme, " \t ").is_none());
}

#[test]
fn aliased_and_cased_tags_find_a_syntax() {
    let (set, theme) = assets();
    assert!(CodeHighlighter::for_language(&set, &theme, " Rust ").is_some());
    assert!(CodeHighlighter::for_language(&set, &theme, "bash").is_some());
    assert!(CodeHighlighter::for_language(&set, &theme, "Python").is_some());
}

#[test]
fn default_theme_is_available() {
    assert!(default_theme().is_some());
}

#[test]
fn highlighted_spans_carry_colours() {
    let (set, theme) = assets();
    let mut h = CodeHighlighter::for_language(&set, &theme, "rust").unwrap();
    let spans = h.highlight("fn main() {}").unwrap();
    let first = &spans[0];
    let other = spans.iter().find(|s| s.style != first.style);
    assert!(other.is_some(), "keywords and identifiers differ in style");
}

#[test]
fn tokens_become_spans_in_order() {
    let kw = TokenStyle { fg_r: 200, fg_g: 0, fg_b: 0, fg_a: 255, bg_r: 1, bg_g: 2, bg_b: 3, bg_a: 255, font_bits: 1 };
    let id = TokenStyle { fg_r: 9, fg_g: 9, fg_b: 9, fg_a: 128, bg_r: 0, bg_g: 0, bg_b: 0, bg_a: 0, font_bits: 6 };
    let spans = spans_of(Ok(vec![(kw, "fn".to_string()), (id, " x".to_string())])).unwrap();
    assert_eq!(spans.len(), 2);
    assert_eq!(spans[0].content, "fn");
    assert_eq!(spans[0].style, convert_style(kw));
    assert_eq!(spans[1].content, " x");
    assert_eq!(spans[1].style, convert_style(id));
    assert!(spans_of(Ok(Vec::new())).unwrap().is_empty());
}

#[test]
fn style_conversion_keeps_foreground_and_flags() {
    let s = TokenStyle { fg_r: 10, fg_g: 20, fg_b: 30, fg_a: 40, bg_r: 50, bg_g: 60, bg_b: 70, bg_a: 80, font_bits: 1 };
    assert_eq!(
        convert_style(s),
        SpanStyle { red: 10, green: 20, blue: 30, bold: true, italic: false, underlined: false }
    );
    let u = TokenStyle { font_bits: 2, ..s };
    assert_eq!(convert_style(u), SpanStyle { red: 10, green: 20, blue: 30, bold: false, italic: false, underlined: true });
    let i = TokenStyle { font_bits: 4, ..s };
    assert_eq!(convert_style(i), SpanStyle { red: 10, green: 20, blue: 30, bold: false, italic: true, underlined: false });
    let none = TokenStyle { font_bits: 0, ..s };
    assert_eq!(convert_style(none), SpanStyle { red: 10, green: 20, blue: 30, bold: false, italic: false, underlined: false });
}

#[test]
fn tokenizer_failure_gives_no_spans() {
    assert!(spans_of(Err(syntect::Error::Fmt(std::fmt::Error))).is_none());
}

#[test]
fn preferred_theme_wins() {
    let defaults = ThemeSet::load_defaults();
    let expected = defaults.themes["base16-ocean.dark"].clone();
    assert_eq!(prefer_theme(defaults), Some(expected));
    let mut others = ThemeSet::load_defaults();
    others.themes.remove("base16-ocean.dark");
    let first = others.themes.values().next().cloned();
    assert!(first.is_some());
    assert_eq!(prefer_theme(others), first);
    assert!(prefer_theme(ThemeSet::default()).is_none());
}

#[test]
fn fallback_is_the_least_name() {
    let mut set = ThemeSet::default();
    let mut b = Theme::default();
    b.name = Some("b".to_string());
    let mut a = Theme::default();
    a.name = Some("a".to_string());
    set.themes.insert("zeta".to_string(), b);
    set.themes.insert("Alpha".to_string(), a.clone());
    assert_eq!(prefer_theme(set), Some(a));
}

#[test]
fn default_theme_is_base16_ocean_dark() {
    let expected = ThemeSet::load_defaults().themes["base16-ocean.dark"].clone();
    assert_eq!(default_theme(), Some(expected));
}

#[test]
fn normalisation_is_idempotent_and_trimmed() {
    for tag in ["rust", " Rust ", "JSON", "  c++", "text", "rb", "", "\tgo\n", "Markdown"] {
        let once = normalize_lang(tag);
        assert_eq!(normalize_lang(&once), once);
        assert_eq!(once.trim(), once);
        assert_eq!(once.is_empty(), tag.trim().is_empty());
    }
}

#[test]
fn equal_normal_forms_find_the_same_syntax() {
    let (set, theme) = assets();
    let a = CodeHighlighter::for_language(&set, &theme, "rust").is_some();
    let b = CodeHighlighter::for_language(&set, &theme, " Rust ").is_some();
    let c = CodeHighlighter::for_language(&set, &theme, "rs").is_some();
    assert!(a && b && c);
}

#[test]
fn parse_state_carries_across_lines() {
    let (set, theme) = assets();
    let mut carried = CodeHighlighter::for_language(&set, &theme, "rust").unwrap();
    carried.highlight("let x = \"open");
    let inside = carried.highlight("still inside\";").unwrap();
    let mut fresh = CodeHighlighter::for_language(&set, &theme, "rust").unwrap();
    let outside = fresh.highlight("still inside\";").unwrap();
    let styles_inside: Vec<SpanStyle> = inside.iter().map(|s| s.style).collect();
    let styles_outside: Vec<SpanStyle> = outside.iter().map(|s| s.style).collect();
    assert_ne!(styles_inside, styles_outside);
}

#[test]
fn syntaxes_are_the_bundled_set() {
    let set = default_syntaxes();
    assert!(set.find_syntax_by_extension("rs").is_some());
    assert_eq!(set.syntaxes().len(), SyntaxSet::load_defaults_nonewlines().syntaxes().len());
}
