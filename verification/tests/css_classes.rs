use dioxus_components::css::{
    class_name_to_ident, collect_classes, css_path_base, push_classes_from_selector,
    strip_css_comments, style_constants, CssPathBase,
};

#[test]
fn strip_comments_removes_block_comment() {
    assert_eq!(
        strip_css_comments("/* .fake { */\n.real { }"),
        "\n.real { }"
    );
}

#[test]
fn strip_comments_preserves_plain_css() {
    let css = ".dx-button { color: red; }";
    assert_eq!(strip_css_comments(css), css);
}

#[test]
fn strip_comments_inline_comment() {
    assert_eq!(
        strip_css_comments(".dx-button /* comment */ .child { }"),
        ".dx-button  .child { }"
    );
}

#[test]
fn collect_classes_basic() {
    let css = ".dx-button { color: red; }";
    assert_eq!(collect_classes(css), vec!["dx-button"]);
}

#[test]
fn collect_classes_multiple() {
    let css = ".dx-button { } .dx-input { }";
    assert_eq!(collect_classes(css), vec!["dx-button", "dx-input"]);
}

#[test]
fn collect_classes_deduplicates() {
    let css = ".dx-button { } .dx-button:hover { }";
    assert_eq!(collect_classes(css), vec!["dx-button"]);
}

#[test]
fn collect_classes_comment_with_brace_and_dot() {
    let css = "/* .fake-class { */\n.dx-button { }";
    let classes = collect_classes(css);
    assert!(!classes.contains(&"fake-class".to_string()));
    assert!(classes.contains(&"dx-button".to_string()));
}

#[test]
fn collect_classes_at_charset_does_not_swallow_next_selector() {
    let css = "@charset \"UTF-8\";\n.dx-button { }";
    assert_eq!(collect_classes(css), vec!["dx-button"]);
}

#[test]
fn collect_classes_at_import_does_not_swallow_next_selector() {
    let css = "@import url(\"base.css\");\n.dx-card { }";
    assert_eq!(collect_classes(css), vec!["dx-card"]);
}

#[test]
fn collect_classes_content_string_not_extracted() {
    let css = ".dx-icon::before { content: \".not-a-class\"; }";
    let classes = collect_classes(css);
    assert!(!classes.contains(&"not-a-class".to_string()));
}

#[test]
fn collect_classes_attribute_selector_string_not_extracted() {
    let css = "div[data-v=\"v1.2\"] .dx-button { }";
    let classes = collect_classes(css);
    assert!(!classes.contains(&"2".to_string()));
    assert!(classes.contains(&"dx-button".to_string()));
}

#[test]
fn collect_classes_at_media_nested() {
    let css = "@media (min-width: 768px) {\n  .dx-responsive { }\n}";
    assert!(collect_classes(css).contains(&"dx-responsive".to_string()));
}

#[test]
fn collect_classes_at_media_content_not_extracted() {
    let css = "@media print { .dx-print { content: \".fake\"; } }";
    let classes = collect_classes(css);
    assert!(!classes.contains(&"fake".to_string()));
    assert!(classes.contains(&"dx-print".to_string()));
}

#[test]
fn collect_classes_compound_selector() {
    let css = ".dx-button.dx-button--primary { }";
    let classes = collect_classes(css);
    assert!(classes.contains(&"dx-button".to_string()));
    assert!(classes.contains(&"dx-button--primary".to_string()));
}

#[test]
fn strip_comments_unterminated_comment_drops_rest() {
    assert_eq!(strip_css_comments(".a { } /* open"), ".a { } ");
}

#[test]
fn collected_classes_are_distinct() {
    let css = ".a .b { } .b.a { } .c { }";
    assert_eq!(collect_classes(css), vec!["a", "b", "c"]);
}

#[test]
fn push_classes_skips_at_rules_and_keeps_existing() {
    let mut classes = vec!["dx-button".to_string()];
    push_classes_from_selector("@media print", &mut classes);
    assert_eq!(classes, vec!["dx-button"]);
    push_classes_from_selector(".dx-button .dx-card:hover", &mut classes);
    assert_eq!(classes, vec!["dx-button", "dx-card"]);
}

#[test]
fn class_name_to_ident_replaces_dashes() {
    assert_eq!(class_name_to_ident("dx-button--primary"), "dx_button__primary");
}

#[test]
fn class_name_to_ident_is_an_identifier_for_a_leading_digit() {
    let ident = class_name_to_ident("2col");
    assert!(ident.chars().next().map_or(false, |c| c == '_' || c.is_ascii_alphabetic()));
}

#[test]
fn style_constants_pair_idents_with_classes() {
    let constants = style_constants(".dx-card { } .dx-card-title { }");
    assert_eq!(
        constants,
        vec![
            ("dx_card".to_string(), "dx-card".to_string()),
            ("dx_card_title".to_string(), "dx-card-title".to_string()),
        ]
    );
}

#[test]
fn css_path_base_distinguishes_relative_paths() {
    assert!(matches!(css_path_base("./style.css"), CssPathBase::SourceFile));
    match css_path_base("/assets/style.css") {
        CssPathBase::CrateRoot(rest) => assert_eq!(rest, "assets/style.css"),
        CssPathBase::SourceFile => panic!("expected a crate-root path"),
    }
}

#[test]
fn comment_marker_inside_a_string_opens_no_comment() {
    let css = ".a::before { content: \"/*\"; } .b { }";
    assert_eq!(strip_css_comments(css), css);
    assert_eq!(collect_classes(css), vec!["a", "b"]);
    assert_eq!(strip_css_comments("a { content: '*/' } /* x */b"), "a { content: '*/' } b");
}
