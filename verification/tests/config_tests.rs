use hyprlauncher::config::{
    get_default_css, Config, CSS_AFTER_SELECTION, CSS_BEFORE_SELECTION,
};
use hyprlauncher::text::{chars_to_string, ends_with, split_string, str_eq, str_to_chars};

#[test]
fn default_config_values() {
    let c = Config::default();
    assert_eq!(c.width, 600);
    assert_eq!(c.height, 600);
    assert_eq!(c.font_size, 14);
    assert_eq!(c.theme.background_color, "#0f0f0f");
    assert_eq!(c.theme.text_color, "#eceff4");
    assert_eq!(c.theme.selection_color, "#1f1f1f");
}

#[test]
fn default_css_splices_selection_color() {
    let mut c = Config::default();
    c.theme.selection_color = "#123456".to_string();
    let css = get_default_css(&c);
    let expected = format!("{}{}{}", CSS_BEFORE_SELECTION, "#123456", CSS_AFTER_SELECTION);
    assert_eq!(css, expected);
    assert!(css.contains("background-color: #123456;"));
}

#[test]
fn char_round_trip() {
    let chars = str_to_chars("héllo wörld");
    assert_eq!(chars.len(), 11);
    assert_eq!(chars_to_string(&chars), "héllo wörld");
}

#[test]
fn string_equality_is_by_characters() {
    assert!(str_eq("abc", "abc"));
    assert!(!str_eq("abc", "abd"));
    assert!(!str_eq("abc", "ab"));
    assert!(str_eq("", ""));
}

#[test]
fn suffix_test() {
    assert!(ends_with("firefox.desktop", ".desktop"));
    assert!(!ends_with("desk", ".desktop"));
    assert!(ends_with("anything", ""));
}

#[test]
fn split_on_newlines() {
    assert_eq!(split_string("a\nb\n", '\n'), vec!["a", "b", ""]);
    assert_eq!(split_string("one", '\n'), vec!["one"]);
}
