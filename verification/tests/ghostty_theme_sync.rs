use std::collections::BTreeMap;

use codex_tui::ghostty::{
    normalize_hex, parse_ghostty_config, parse_hex, parse_palette_entry, read_ghostty_snapshot,
    select_theme_name, split_theme_spec, to_hex_channel, unquote, GhosttySnapshot,
};
use codex_tui::tmtheme::{build_tmtheme, escape_xml, mix, palette_color, scoped_setting};

const GHOSTTY_OUTPUT: &str = r##"
theme = "light:GitHub Light,dark:Catppuccin Mocha"
background = #1e1e2e
foreground = cdd6f4
selection-background = #45475a
selection-foreground = #f5e0dc
palette = 1=#f38ba8
palette = 2=#a6e3a1
palette = 3=#f9e2af
palette = 4=#89b4fa
palette = 5=#cba6f7
palette = 6=#94e2d5
"##;

fn relative_luminance(r: u8, g: u8, b: u8) -> f64 {
    let convert = |channel: u8| {
        let value = f64::from(channel) / 255.0;
        if value <= 0.03928 {
            value / 12.92
        } else {
            ((value + 0.055) / 1.055).powf(2.4)
        }
    };
    0.2126 * convert(r) + 0.7152 * convert(g) + 0.0722 * convert(b)
}

fn is_light_rgb(r: u8, g: u8, b: u8) -> bool {
    relative_luminance(r, g, b) >= 0.45
}

fn blend(a: u8, b: u8, ratio_percent: u8) -> u8 {
    let ratio_a = (f64::from(ratio_percent) / 100.0).clamp(0.0, 1.0);
    let ratio_b = 1.0 - ratio_a;
    (f64::from(a) * ratio_a + f64::from(b) * ratio_b).round().clamp(0.0, 255.0) as u8
}

fn snapshot() -> GhosttySnapshot {
    read_ghostty_snapshot(GHOSTTY_OUTPUT, &is_light_rgb)
        .expect("valid ghostty output")
        .expect("complete color snapshot")
}

#[test]
fn parses_ghostty_config_snapshot() {
    assert_eq!(
        snapshot(),
        GhosttySnapshot {
            theme_spec: Some("light:GitHub Light,dark:Catppuccin Mocha".to_string()),
            active_theme_name: Some("Catppuccin Mocha".to_string()),
            background: "#1e1e2e".to_string(),
            foreground: "#cdd6f4".to_string(),
            selection_background: Some("#45475a".to_string()),
            selection_foreground: Some("#f5e0dc".to_string()),
            palette: BTreeMap::from([
                (1, "#f38ba8".to_string()),
                (2, "#a6e3a1".to_string()),
                (3, "#f9e2af".to_string()),
                (4, "#89b4fa".to_string()),
                (5, "#cba6f7".to_string()),
                (6, "#94e2d5".to_string()),
            ]),
            is_light: false,
        }
    );
}

#[test]
fn generated_tmtheme_is_parseable_by_syntect() {
    let contents = build_tmtheme("ghostty-sync", &snapshot(), &blend).expect("theme xml");
    let mut reader = std::io::Cursor::new(contents.into_bytes());
    let theme = syntect::highlighting::ThemeSet::load_from_reader(&mut reader)
        .expect("syntect parses generated theme");

    assert_eq!(theme.name.as_deref(), Some("ghostty-sync (Catppuccin Mocha)"));
}

#[test]
fn snapshot_needs_background_and_foreground() {
    assert_eq!(read_ghostty_snapshot("background = #000000\n", &is_light_rgb), Ok(None));
    assert_eq!(read_ghostty_snapshot("foreground = #000000\n", &is_light_rgb), Ok(None));
    let light = read_ghostty_snapshot(
        "background = \"FFFFFF\"\nforeground = #000000\ntheme = light:Day,dark:Night\n",
        &is_light_rgb,
    )
    .unwrap()
    .unwrap();
    assert!(light.is_light);
    assert_eq!(light.background, "#ffffff");
    assert_eq!(light.active_theme_name, Some("Day".to_string()));
}

#[test]
fn config_lines_keep_last_valid_value_and_skip_comments() {
    let parsed = parse_ghostty_config(
        "# background = #111111\nbackground = #222222\nbackground = nope\nforeground=#ABCDEF\r\npalette = 300=#010203\npalette = x=#010203\npalette = 7=bad\nunknown = 1\nno equals here\n",
    );
    assert_eq!(parsed.background, Some("#222222".to_string()));
    assert_eq!(parsed.foreground, Some("#abcdef".to_string()));
    assert_eq!(parsed.palette, BTreeMap::from([(300, "#010203".to_string())]));
    assert_eq!(parsed.theme_spec, None);
}

#[test]
fn hex_colors_are_normalized() {
    assert_eq!(normalize_hex(" \"#A1B2C3\" "), Some("#a1b2c3".to_string()));
    assert_eq!(normalize_hex("a1b2c3"), Some("#a1b2c3".to_string()));
    assert_eq!(normalize_hex("#a1b2c"), None);
    assert_eq!(normalize_hex("#g1b2c3"), None);
    assert_eq!(normalize_hex("#a1b2c3d"), None);
    assert_eq!(parse_hex("#ff8000"), Ok((255, 128, 0)));
    assert_eq!(parse_hex("nope"), Err("Invalid hex color: nope".to_string()));
    assert_eq!(to_hex_channel(0), "00");
    assert_eq!(to_hex_channel(171), "ab");
}

#[test]
fn palette_entries_and_quotes() {
    assert_eq!(parse_palette_entry(" 12 = #ABCDEF"), Some((12, "#abcdef".to_string())));
    assert_eq!(parse_palette_entry("+5=000000"), Some((5, "#000000".to_string())));
    assert_eq!(parse_palette_entry("65536=#000000"), None);
    assert_eq!(parse_palette_entry("-1=#000000"), None);
    assert_eq!(parse_palette_entry("1"), None);
    assert_eq!(unquote("\"quoted\""), "quoted");
    assert_eq!(unquote("\""), "\"");
    assert_eq!(unquote("\"open"), "\"open");
}

#[test]
fn theme_spec_selection() {
    assert_eq!(
        split_theme_spec(" a , ,b:c,"),
        vec!["a".to_string(), "b:c".to_string()]
    );
    assert_eq!(select_theme_name(Some("Solo"), true), Some("Solo".to_string()));
    assert_eq!(select_theme_name(Some("LIGHT: Sun , Dark:Moon"), true), Some("Sun".to_string()));
    assert_eq!(select_theme_name(Some("light:Sun,dark:Moon"), false), Some("Moon".to_string()));
    assert_eq!(select_theme_name(Some("light:Sun"), false), Some("Sun".to_string()));
    assert_eq!(select_theme_name(Some("other:Thing"), false), Some("other:Thing".to_string()));
    assert_eq!(select_theme_name(Some(" , "), false), None);
    assert_eq!(select_theme_name(None, false), None);
}

#[test]
fn colors_mix_channel_by_channel() {
    assert_eq!(mix("#ffffff", "#000000", 30, &blend), Ok("#4d4d4d".to_string()));
    assert_eq!(mix("#zzzzzz", "#000000", 30, &blend), Err("Invalid hex color: #zzzzzz".to_string()));
    assert_eq!(mix("#000000", "bad", 30, &blend), Err("Invalid hex color: bad".to_string()));
}

#[test]
fn xml_is_escaped() {
    assert_eq!(escape_xml("a&b<c>\"d'"), "a&amp;b&lt;c&gt;&quot;d&apos;");
    assert_eq!(
        scoped_setting("s<", Some("#fff"), None, Some("bold")),
        "<dict><key>scope</key><string>s&lt;</string><key>settings</key><dict><key>foreground</key><string>#fff</string><key>fontStyle</key><string>bold</string></dict></dict>"
    );
}

#[test]
fn theme_uses_fallback_colors_and_reports_invalid_ones() {
    let mut snap = snapshot();
    snap.palette.clear();
    assert_eq!(palette_color(&snap, 2, "#7bd88f"), "#7bd88f");
    snap.selection_background = None;
    let contents = build_tmtheme("t", &snap, &blend).unwrap();
    assert!(contents.contains("<key>name</key><string>t (Catppuccin Mocha)</string>"));
    assert!(contents.contains("#7bd88f"));
    assert!(contents.ends_with("</array>\n</dict>\n</plist>\n"));
    snap.foreground = "oops".to_string();
    assert_eq!(build_tmtheme("t", &snap, &blend), Err("Invalid hex color: oops".to_string()));
}
