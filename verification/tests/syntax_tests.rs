use wgit::git_model::GitModel;
use wgit::models::{ColorSpan, LineStyle, SpanColor};
use wgit::syntax::{byte_to_col, language_for_path, sort_spans_by_start, syntax_color, SyntaxLang};

#[test]
fn colours_token_kinds() {
    assert_eq!(syntax_color(SyntaxLang::Rust, "line_comment"), Some(SpanColor::Comment));
    assert_eq!(syntax_color(SyntaxLang::Rust, "string_literal"), Some(SpanColor::Str));
    assert_eq!(syntax_color(SyntaxLang::Rust, "integer_literal"), Some(SpanColor::Number));
    assert_eq!(syntax_color(SyntaxLang::Rust, "fn"), Some(SpanColor::Keyword));
    assert_eq!(syntax_color(SyntaxLang::Rust, "Self"), Some(SpanColor::Keyword));
    assert_eq!(syntax_color(SyntaxLang::Rust, "primitive_type"), Some(SpanColor::Type));
    assert_eq!(syntax_color(SyntaxLang::Rust, "true"), Some(SpanColor::Number));
    assert_eq!(syntax_color(SyntaxLang::Rust, "identifier"), None);
    assert_eq!(syntax_color(SyntaxLang::Toml, "bare_key"), Some(SpanColor::Type));
    assert_eq!(syntax_color(SyntaxLang::Toml, "string"), Some(SpanColor::Str));
    assert_eq!(syntax_color(SyntaxLang::Toml, "boolean"), Some(SpanColor::Number));
    assert_eq!(syntax_color(SyntaxLang::Toml, "table"), None);
}

#[test]
fn picks_language_by_extension() {
    assert_eq!(language_for_path("src/Main.RS"), Some(SyntaxLang::Rust));
    assert_eq!(language_for_path("Cargo.toml"), Some(SyntaxLang::Toml));
    assert_eq!(language_for_path("README.md"), None);
    assert_eq!(language_for_path("rs"), None);
}

#[test]
fn converts_byte_offsets_to_columns() {
    assert_eq!(byte_to_col("abc", 2), 2);
    assert_eq!(byte_to_col("abc", 10), 3);
    assert_eq!(byte_to_col("h\u{e9}llo", 2), 1);
    assert_eq!(byte_to_col("h\u{e9}llo", 3), 2);
    assert_eq!(byte_to_col("", 0), 0);
}

#[test]
fn sorts_spans_stably_by_column() {
    let mut v = vec![
        ColorSpan { start_col: 5, end_col: 6, color: SpanColor::Str },
        ColorSpan { start_col: 1, end_col: 2, color: SpanColor::Comment },
        ColorSpan { start_col: 5, end_col: 7, color: SpanColor::Number },
    ];
    sort_spans_by_start(&mut v);
    assert_eq!(v[0].start_col, 1);
    assert_eq!(v[1].color, SpanColor::Str);
    assert_eq!(v[2].color, SpanColor::Number);
}

#[test]
fn highlights_rust_diff_lines() {
    let mut m = GitModel::new(String::from("/repo"));
    m.apply_status(" M src/main.rs\n");
    m.apply_diff(Some(("@@ -1,1 +1,1 @@\n-const X: u8 = 1;\n+fn y() {}\n", "")));
    let (_files, _meta, diff) = m.build_split_documents().expect("rust grammar loads");
    assert_eq!(diff.line_text(0), " src/main.rs");
    assert_eq!(diff.line_text(1), "# Unstaged");
    assert_eq!(diff.line_text(3), "-const X: u8 = 1;");
    assert_eq!(diff.line_style(3), LineStyle::DiffRemove);
    let removed = diff.line_spans(3);
    assert!(removed.contains(&ColorSpan { start_col: 1, end_col: 6, color: SpanColor::Keyword }));
    assert!(removed.contains(&ColorSpan { start_col: 10, end_col: 12, color: SpanColor::Type }));
    assert!(removed.contains(&ColorSpan { start_col: 15, end_col: 16, color: SpanColor::Number }));
    let added = diff.line_spans(4);
    assert!(added.contains(&ColorSpan { start_col: 1, end_col: 3, color: SpanColor::Keyword }));
    assert!(added.windows(2).all(|w| w[0].start_col <= w[1].start_col));
    assert!(diff.line_spans(2).is_empty());
}

#[test]
fn leaves_other_languages_plain() {
    let mut m = GitModel::new(String::from("/repo"));
    m.apply_status(" M notes.txt\n");
    m.apply_diff(Some(("@@ -1 +1 @@\n-let x = 1;\n", "")));
    let (_files, _meta, diff) = m.build_split_documents().expect("no grammar needed");
    for i in 0..diff.line_count() {
        assert!(diff.line_spans(i).is_empty());
    }
}
