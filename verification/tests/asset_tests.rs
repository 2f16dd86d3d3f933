use wgit::cli::{parse_theme_args, repo_arg, theme_source, ThemeSource};
use wgit::icon::{extract_path_d, parse_path_ops, subpath_plan, tokenize_path, PathOp, PathToken};
use wgit::render::{Atlas, GlyphKey};
use wgit::theme::BundledTheme;

fn args(a: &[&str]) -> Vec<String> {
    a.iter().map(|s| s.to_string()).collect()
}

#[test]
fn packs_glyphs_on_shelves() {
    let mut a = Atlas::new(10, 10);
    assert_eq!(a.alloc_rect(4, 3), Some((0, 0)));
    assert_eq!(a.alloc_rect(4, 2), Some((4, 0)));
    assert_eq!(a.alloc_rect(4, 1), Some((0, 3)));
    assert_eq!(a.alloc_rect(11, 1), None);
    assert_eq!(a.alloc_rect(1, 8), None);
    assert_eq!(a.alloc_rect(6, 7), Some((4, 3)));
    assert_eq!((a.width(), a.height()), (10, 10));
    let k = GlyphKey { glyph_id: 7, px_q: 36 };
    assert_eq!(k, GlyphKey { glyph_id: 7, px_q: 36 });
}

#[test]
fn full_atlas_refuses_everything() {
    let mut a = Atlas::new(4, 4);
    assert_eq!(a.alloc_rect(4, 4), Some((0, 0)));
    assert_eq!(a.alloc_rect(1, 1), None);
    assert_eq!(a.alloc_rect(1, 1), None);
}

#[test]
fn extracts_svg_path_data() {
    assert_eq!(
        extract_path_d("<svg viewBox=\"0 0 24 24\"><path d=\"M0 0L1 1Z\"/></svg>"),
        Some("M0 0L1 1Z")
    );
    assert_eq!(extract_path_d("<svg></svg>"), None);
    assert_eq!(extract_path_d("<path d=\"M0 0"), None);
}

#[test]
fn path_data_comes_from_the_d_attribute_only() {
    assert_eq!(extract_path_d(r#"<path id="p1" d="M0 0"/>"#), Some("M0 0"));
    assert_eq!(extract_path_d(r#"<path d="M0 0L1 1"/>"#), Some("M0 0L1 1"));
    assert_eq!(extract_path_d(r#"d="M2 2" x"#), Some("M2 2"));
    assert_eq!(extract_path_d(r#"<path id="only"/>"#), None);
    assert_eq!(extract_path_d("<svg/>"), None);
}

#[test]
fn tokenizes_path_data() {
    let d = "M0,0 L-1.5e2 .5z";
    let t = tokenize_path(d);
    assert_eq!(
        t,
        vec![
            PathToken::Cmd('M'),
            PathToken::Num(1, 2),
            PathToken::Num(3, 4),
            PathToken::Cmd('L'),
            PathToken::Num(6, 12),
            PathToken::Num(13, 15),
            PathToken::Cmd('z'),
        ]
    );
    assert_eq!(tokenize_path("1e+"), vec![]);
    assert_eq!(tokenize_path("-x5"), vec![PathToken::Num(2, 3)]);
}

#[test]
fn reads_path_commands() {
    let (toks, ops) = parse_path_ops("M1 2 3 4h5v6c1 2 3 4 5 6Z");
    assert_eq!(toks.len(), 17);
    assert_eq!(
        ops,
        Some(vec![
            PathOp::MoveTo { rel: false, x: 1, y: 2 },
            PathOp::LineTo { rel: false, x: 3, y: 4 },
            PathOp::Horizontal { rel: true, x: 6 },
            PathOp::Vertical { rel: true, y: 8 },
            PathOp::Cubic { rel: true, x1: 10, y1: 11, x2: 12, y2: 13, x: 14, y: 15 },
            PathOp::Close,
        ])
    );
    let (_t, stops) = parse_path_ops("M1 2 L3 Q1 2");
    assert_eq!(stops, Some(vec![PathOp::MoveTo { rel: false, x: 1, y: 2 }]));
    let (_t, hangs) = parse_path_ops("M0 0Z 5");
    assert_eq!(hangs, None);
    let (_t, bare) = parse_path_ops("5 5");
    assert_eq!(bare, Some(vec![]));
}

#[test]
fn reads_theme_options() {
    assert_eq!(
        parse_theme_args(&args(&["--theme", "dracula", "repo", "--theme-file"])),
        (Some(String::from("dracula")), None)
    );
    assert_eq!(
        parse_theme_args(&args(&["--theme-file", "t.yaml", "--theme", "a", "--theme", "b"])),
        (Some(String::from("b")), Some(String::from("t.yaml")))
    );
}

#[test]
fn finds_the_repository_argument() {
    assert_eq!(repo_arg(&args(&["--theme", "x", "/repo"])), Some(String::from("/repo")));
    assert_eq!(repo_arg(&args(&["--repo", "/r", "/other"])), Some(String::from("/r")));
    assert_eq!(repo_arg(&args(&["--repo"])), None);
    assert_eq!(repo_arg(&args(&["--theme"])), None);
    assert_eq!(repo_arg(&args(&[])), None);
}

#[test]
fn chooses_the_theme_source() {
    assert!(matches!(
        theme_source(None, Some(String::from("Gruvbox")), None),
        ThemeSource::Bundled(BundledTheme::GruvboxDark)
    ));
    assert!(matches!(
        theme_source(Some(String::from("f.yaml")), Some(String::from("dracula")), None),
        ThemeSource::File(p) if p == "f.yaml"
    ));
    assert!(matches!(
        theme_source(None, None, Some(String::from("my.yaml"))),
        ThemeSource::PathOrUnknown(p) if p == "my.yaml"
    ));
    assert!(matches!(theme_source(None, None, None), ThemeSource::Default));
}

#[test]
fn subpaths_split_at_moves_and_closes() {
    let (_, ops) = parse_path_ops("M0 0L1 0L1 1ZL2 2M5 5 6 6zM7 7");
    let ops = ops.unwrap();
    assert_eq!(subpath_plan(&ops), vec![vec![0, 1, 2], vec![4], vec![5, 6], vec![8]]);
}

#[test]
fn subpath_in_progress_is_kept_at_an_early_stop() {
    let (_, ops) = parse_path_ops("M1 1L2 2L3 Q1 2 3 4");
    let ops = ops.unwrap();
    assert_eq!(ops.len(), 2);
    assert_eq!(subpath_plan(&ops), vec![vec![0, 1]]);
    assert_eq!(subpath_plan(&Vec::new()), Vec::<Vec<usize>>::new());
    assert_eq!(subpath_plan(&vec![PathOp::Close, PathOp::Close]), Vec::<Vec<usize>>::new());
}
