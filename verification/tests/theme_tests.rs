use wgit::theme::{
    badge_char_for_status, badge_color_key_for_status, bundled, bundled_names, bundled_source,
    hex_color_panics, parse_hex, parse_theme_yaml, theme_yaml_panics, BundledTheme, Rgb,
    DRACULA_YAML, MIDNIGHT_YAML,
};

#[test]
fn picks_badge_letters() {
    assert_eq!(badge_char_for_status("??"), '?');
    assert_eq!(badge_char_for_status("M "), 'M');
    assert_eq!(badge_char_for_status(" D"), 'D');
    assert_eq!(badge_char_for_status("?M"), 'M');
    assert_eq!(badge_char_for_status(""), ' ');
    assert_eq!(badge_color_key_for_status("??"), '?');
    assert_eq!(badge_color_key_for_status("RM"), 'R');
}

#[test]
fn resolves_bundled_theme_names() {
    assert_eq!(bundled("Gruvbox-Dark"), Some(BundledTheme::GruvboxDark));
    assert_eq!(bundled("DARK"), Some(BundledTheme::Midnight));
    assert_eq!(bundled("vercel dark"), Some(BundledTheme::VercelDark));
    assert_eq!(bundled("Dracula"), Some(BundledTheme::Dracula));
    assert_eq!(bundled("solarized"), None);
    for name in bundled_names() {
        assert!(bundled(name).is_some(), "{name} should resolve");
    }
    assert_eq!(bundled_names(), vec!["Midnight", "Gruvbox Dark", "Vercel", "Dracula"]);
}

#[test]
fn parses_hex_colours() {
    assert_eq!(parse_hex("#ff8000"), Ok(Rgb { r: 255, g: 128, b: 0 }));
    assert_eq!(parse_hex("  #abc "), Ok(Rgb { r: 0xaa, g: 0xbb, b: 0xcc }));
    assert_eq!(parse_hex("0x00FF10"), Ok(Rgb { r: 0, g: 255, b: 16 }));
    assert_eq!(parse_hex("102030"), Ok(Rgb { r: 16, g: 32, b: 48 }));
}

#[test]
fn reports_bad_hex_colours() {
    assert_eq!(parse_hex("zz"), Err(String::from("invalid hex color \"zz\"")));
    assert_eq!(
        parse_hex("#gg0000"),
        Err(String::from("invalid hex color \"#gg0000\": invalid digit found in string"))
    );
    assert_eq!(parse_hex("#+1+2+3"), Ok(Rgb { r: 1, g: 2, b: 3 }));
    assert_eq!(
        parse_hex("#-10000"),
        Err(String::from("invalid hex color \"#-10000\": invalid digit found in string"))
    );
    assert_eq!(
        parse_hex("#1ff000"),
        Ok(Rgb { r: 0x1f, g: 0xf0, b: 0 })
    );
    assert!(!hex_color_panics("#123456"));
    assert!(hex_color_panics("#a\u{e9}aaa"));
    assert!(hex_color_panics("#\u{e9}a"));
}

#[test]
fn reads_a_bundled_theme() {
    assert!(!theme_yaml_panics(MIDNIGHT_YAML));
    let t = parse_theme_yaml(MIDNIGHT_YAML).expect("bundled theme parses");
    assert_eq!(t.name, "Midnight");
    assert_eq!(t.accent, Rgb { r: 0x7d, g: 0xae, b: 0xa3 });
    assert_eq!(t.background, Rgb { r: 0x1c, g: 0x1f, b: 0x24 });
    assert!(!t.details_darker);
    assert_eq!(t.normal.red, Rgb { r: 0xcc, g: 0x66, b: 0x66 });
    assert_eq!(t.bright.magenta, Rgb { r: 0xd3, g: 0x86, b: 0x9b });
    let d = parse_theme_yaml(DRACULA_YAML).expect("dracula parses");
    assert!(d.details_darker);
    assert_eq!(d.bright.white, Rgb { r: 0xf8, g: 0xf8, b: 0xf2 });
    assert_eq!(bundled_source(BundledTheme::Dracula), DRACULA_YAML);
}

#[test]
fn reports_theme_file_errors() {
    let bad = "name: X\nthis line has no colon\n";
    assert_eq!(
        parse_theme_yaml(bad).err(),
        Some(String::from("line 2: expected 'key: value'"))
    );
    let bad_colour = "# comment\n\naccent: '#12345z'\n";
    assert_eq!(
        parse_theme_yaml(bad_colour).err(),
        Some(String::from(
            "line 3: invalid hex color \"#12345z\": invalid digit found in string"
        ))
    );
}

#[test]
fn reads_nested_sections_and_ignores_unknown_keys() {
    let text = "details: DARKER\nterminal_colors:\n  normal:\n    red: \"#010203\"\n    pink: '#ffffff'\n  bright:\n    red: 040506\nother: 1\n";
    let t = parse_theme_yaml(text).expect("parses");
    assert!(t.details_darker);
    assert_eq!(t.normal.red, Rgb { r: 1, g: 2, b: 3 });
    assert_eq!(t.bright.red, Rgb { r: 4, g: 5, b: 6 });
    assert_eq!(t.name, "");
    assert_eq!(t.accent, Rgb { r: 0, g: 0, b: 0 });
}

#[test]
fn detects_panicking_theme_files() {
    assert!(theme_yaml_panics("accent: '#\u{e9}a'\n"));
    assert!(!theme_yaml_panics("accent: '#eee'\n"));
}

#[test]
fn every_bundled_theme_parses() {
    let names = bundled_names();
    for (i, t) in [
        BundledTheme::Midnight,
        BundledTheme::GruvboxDark,
        BundledTheme::VercelDark,
        BundledTheme::Dracula,
    ]
    .into_iter()
    .enumerate()
    {
        let src = bundled_source(t);
        assert!(!theme_yaml_panics(src));
        let theme = parse_theme_yaml(src).expect("bundled theme parses");
        assert_eq!(theme.name, names[i]);
        assert_eq!(bundled(names[i]), Some(t));
    }
}
