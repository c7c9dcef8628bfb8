//! Generating a TextMate (`.tmTheme`) syntax theme from a Ghostty color snapshot.
//!
//! Blending two colors is done channel by channel by a `blend` function,
//! given the two channels and the first color's weight in percent.

use vstd::prelude::*;
use crate::ghostty::{
    hex2, hex_color, invalid_hex_message, parse_hex, rgb_of, to_hex_channel, GhosttySnapshot,
    SnapshotModel,
};
use crate::text::{push_str, string_push};

verus! {

broadcast use vstd::string::group_string_axioms, vstd::laws_cmp::group_laws_cmp,
    vstd::std_specs::btree::group_btree_axioms;

pub const TMTHEME_HEAD: &'static str = "<?xml version=\"1.0\" encoding=\"UTF-8\"?>\n<!DOCTYPE plist PUBLIC \"-//Apple//DTD PLIST 1.0//EN\" \"http://www.apple.com/DTDs/PropertyList-1.0.dtd\">\n<plist version=\"1.0\">\n<dict>\n<key>name</key><string>";
pub const TMTHEME_AFTER_NAME: &'static str = "</string>\n<key>settings</key>\n<array>\n";
pub const TMTHEME_TAIL: &'static str = "</array>\n</dict>\n</plist>\n";
pub const STRING_CLOSE: &'static str = "</string>";
pub const DEFAULT_OPEN: &'static str = "<dict><key>settings</key><dict>\n<key>foreground</key><string>";
pub const DEFAULT_BACKGROUND: &'static str = "</string>\n<key>background</key><string>";
pub const DEFAULT_CARET: &'static str = "</string>\n<key>caret</key><string>";
pub const DEFAULT_SELECTION: &'static str = "</string>\n<key>selection</key><string>";
pub const DEFAULT_SELECTION_FOREGROUND: &'static str = "</string>\n<key>selectionForeground</key><string>";
pub const DEFAULT_LINE_HIGHLIGHT: &'static str = "</string>\n<key>lineHighlight</key><string>";
pub const DEFAULT_CLOSE: &'static str = "</string>\n</dict></dict>";
pub const SCOPE_OPEN: &'static str = "<dict><key>scope</key><string>";
pub const SCOPE_SETTINGS: &'static str = "</string><key>settings</key><dict>";
pub const SCOPE_CLOSE: &'static str = "</dict></dict>";
pub const KEY_FOREGROUND: &'static str = "<key>foreground</key><string>";
pub const KEY_BACKGROUND: &'static str = "<key>background</key><string>";
pub const KEY_FONT_STYLE: &'static str = "<key>fontStyle</key><string>";

// ---------------------------------------------------------------------
// XML escaping
// ---------------------------------------------------------------------

pub open spec fn escape_char(c: char) -> Seq<char> {
    if c == '&' {
        seq!['&', 'a', 'm', 'p', ';']
    } else if c == '<' {
        seq!['&', 'l', 't', ';']
    } else if c == '>' {
        seq!['&', 'g', 't', ';']
    } else if c == '"' {
        seq!['&', 'q', 'u', 'o', 't', ';']
    } else if c == '\'' {
        seq!['&', 'a', 'p', 'o', 's', ';']
    } else {
        seq![c]
    }
}

/// Each of `& < > " '` replaced by its entity.
pub open spec fn escaped(s: Seq<char>) -> Seq<char>
    decreases s.len(),
{
    if s.len() == 0 {
        seq![]
    } else {
        escaped(s.drop_last()) + escape_char(s.last())
    }
}

pub open spec fn is_markup_char(c: char) -> bool {
    c == '<' || c == '>' || c == '"' || c == '\''
}

proof fn lemma_escaped_has_no_markup(s: Seq<char>)
    ensures
        forall|i: int| 0 <= i < escaped(s).len() ==> !is_markup_char(#[trigger] escaped(s)[i]),
    decreases s.len(),
{
    if s.len() > 0 {
        lemma_escaped_has_no_markup(s.drop_last());
        let p = escaped(s.drop_last());
        let e = escape_char(s.last());
        assert forall|i: int| 0 <= i < escaped(s).len() implies !is_markup_char(
            #[trigger] escaped(s)[i],
        ) by {
            if i < p.len() {
                assert(escaped(s)[i] == p[i]);
            } else {
                assert(escaped(s)[i] == e[i - p.len()]);
            }
        }
    }
}

/// Text without `& < > " '` is left as it is.
pub proof fn lemma_escaped_plain_text(s: Seq<char>)
    requires
        forall|i: int| 0 <= i < s.len() ==> !is_markup_char(#[trigger] s[i]) && s[i] != '&',
    ensures
        escaped(s) == s,
    decreases s.len(),
{
    if s.len() > 0 {
        let p = s.drop_last();
        assert forall|i: int| 0 <= i < p.len() implies !is_markup_char(#[trigger] p[i]) && p[i] != '&' by {
            assert(p[i] == s[i]);
        }
        lemma_escaped_plain_text(p);
        assert(!is_markup_char(s[s.len() - 1]) && s[s.len() - 1] != '&');
        assert(escape_char(s.last()) == seq![s.last()]);
        assert(p + seq![s.last()] =~= s);
    }
}

fn push_escaped_char(s: &mut String, c: char)
    ensures
        final(s)@ == old(s)@ + escape_char(c),
{
    let ghost s0 = s@;
    if c == '&' {
        string_push(s, '&');
        string_push(s, 'a');
        string_push(s, 'm');
        string_push(s, 'p');
        string_push(s, ';');
    } else if c == '<' {
        string_push(s, '&');
        string_push(s, 'l');
        string_push(s, 't');
        string_push(s, ';');
    } else if c == '>' {
        string_push(s, '&');
        string_push(s, 'g');
        string_push(s, 't');
        string_push(s, ';');
    } else if c == '"' {
        string_push(s, '&');
        string_push(s, 'q');
        string_push(s, 'u');
        string_push(s, 'o');
        string_push(s, 't');
        string_push(s, ';');
    } else if c == '\'' {
        string_push(s, '&');
        string_push(s, 'a');
        string_push(s, 'p');
        string_push(s, 'o');
        string_push(s, 's');
        string_push(s, ';');
    } else {
        string_push(s, c);
    }
    assert(s@ =~= s0 + escape_char(c));
}

fn push_escaped(s: &mut String, value: &str)
    ensures
        final(s)@ == old(s)@ + escaped(value@),
{
    let ghost s0 = s@;
    let v = crate::text::chars_of(value);
    let mut i: usize = 0;
    while i < v.len()
        invariant
            i <= v.len(),
            v@ == value@,
            s@ == s0 + escaped(v@.take(i as int)),
        decreases v.len() - i,
    {
        assert(v@.take(i + 1).drop_last() =~= v@.take(i as int));
        assert(v@.take(i + 1).last() == v@[i as int]);
        push_escaped_char(s, v[i]);
        i += 1;
    }
    assert(v@.take(v.len() as int) =~= v@);
}

/// `value` with `& < > " '` replaced by their XML entities; no `<`, `>`, `"`
/// or `'` is left.
pub fn escape_xml(value: &str) -> (r: String)
    ensures
        r@ == escaped(value@),
        forall|i: int| 0 <= i < r@.len() ==> !is_markup_char(#[trigger] r@[i]),
{
    let mut s = String::new();
    push_escaped(&mut s, value);
    assert(Seq::<char>::empty() + escaped(value@) =~= escaped(value@));
    proof {
        lemma_escaped_has_no_markup(value@);
    }
    s
}

// ---------------------------------------------------------------------
// Settings
// ---------------------------------------------------------------------

pub open spec fn default_setting_text(
    foreground: Seq<char>,
    background: Seq<char>,
    selection_background: Seq<char>,
    selection_foreground: Seq<char>,
    border: Seq<char>,
) -> Seq<char> {
    DEFAULT_OPEN@ + escaped(foreground) + DEFAULT_BACKGROUND@ + escaped(background)
        + DEFAULT_CARET@ + escaped(foreground) + DEFAULT_SELECTION@ + escaped(
        selection_background,
    ) + DEFAULT_SELECTION_FOREGROUND@ + escaped(selection_foreground) + DEFAULT_LINE_HIGHLIGHT@
        + escaped(border) + DEFAULT_CLOSE@
}

/// The global settings of the theme.
pub fn default_setting(
    foreground: &str,
    background: &str,
    selection_background: &str,
    selection_foreground: &str,
    border: &str,
) -> (r: String)
    ensures
        r@ == default_setting_text(
            foreground@,
            background@,
            selection_background@,
            selection_foreground@,
            border@,
        ),
{
    let mut s = String::new();
    push_str(&mut s, DEFAULT_OPEN);
    push_escaped(&mut s, foreground);
    push_str(&mut s, DEFAULT_BACKGROUND);
    push_escaped(&mut s, background);
    push_str(&mut s, DEFAULT_CARET);
    push_escaped(&mut s, foreground);
    push_str(&mut s, DEFAULT_SELECTION);
    push_escaped(&mut s, selection_background);
    push_str(&mut s, DEFAULT_SELECTION_FOREGROUND);
    push_escaped(&mut s, selection_foreground);
    push_str(&mut s, DEFAULT_LINE_HIGHLIGHT);
    push_escaped(&mut s, border);
    push_str(&mut s, DEFAULT_CLOSE);
    assert(s@ =~= default_setting_text(
        foreground@,
        background@,
        selection_background@,
        selection_foreground@,
        border@,
    ));
    s
}

pub open spec fn optional_entry(key_open: Seq<char>, value: Option<Seq<char>>) -> Seq<char> {
    match value {
        Some(v) => key_open + escaped(v) + STRING_CLOSE@,
        None => seq![],
    }
}

pub open spec fn scoped_setting_text(
    scope: Seq<char>,
    foreground: Option<Seq<char>>,
    background: Option<Seq<char>>,
    font_style: Option<Seq<char>>,
) -> Seq<char> {
    SCOPE_OPEN@ + escaped(scope) + SCOPE_SETTINGS@ + optional_entry(KEY_FOREGROUND@, foreground)
        + optional_entry(KEY_BACKGROUND@, background) + optional_entry(
        KEY_FONT_STYLE@,
        font_style,
    ) + SCOPE_CLOSE@
}

pub open spec fn opt_view(o: Option<&str>) -> Option<Seq<char>> {
    match o {
        Some(s) => Some(s@),
        None => None,
    }
}

fn push_optional_entry(s: &mut String, key_open: &str, value: Option<&str>)
    ensures
        final(s)@ == old(s)@ + optional_entry(key_open@, opt_view(value)),
{
    let ghost s0 = s@;
    if let Some(v) = value {
        push_str(s, key_open);
        push_escaped(s, v);
        push_str(s, STRING_CLOSE);
        assert(s@ =~= s0 + optional_entry(key_open@, opt_view(value)));
    } else {
        assert(s@ =~= s0 + optional_entry(key_open@, opt_view(value)));
    }
}

/// The settings for one scope.
pub fn scoped_setting(
    scope: &str,
    foreground: Option<&str>,
    background: Option<&str>,
    font_style: Option<&str>,
) -> (r: String)
    ensures
        r@ == scoped_setting_text(
            scope@,
            opt_view(foreground),
            opt_view(background),
            opt_view(font_style),
        ),
{
    let mut s = String::new();
    push_str(&mut s, SCOPE_OPEN);
    push_escaped(&mut s, scope);
    push_str(&mut s, SCOPE_SETTINGS);
    push_optional_entry(&mut s, KEY_FOREGROUND, foreground);
    push_optional_entry(&mut s, KEY_BACKGROUND, background);
    push_optional_entry(&mut s, KEY_FONT_STYLE, font_style);
    push_str(&mut s, SCOPE_CLOSE);
    assert(s@ =~= scoped_setting_text(
        scope@,
        opt_view(foreground),
        opt_view(background),
        opt_view(font_style),
    ));
    s
}

} // verus!

verus! {

// ---------------------------------------------------------------------
// Colors
// ---------------------------------------------------------------------

/// The palette entry `index`, or `fallback` where the palette has none.
pub open spec fn palette_or(snap: SnapshotModel, index: u16, fallback: Seq<char>) -> Seq<char> {
    if snap.palette.dom().contains(index) {
        snap.palette[index]
    } else {
        fallback
    }
}

pub fn palette_color(snapshot: &GhosttySnapshot, index: u16, fallback: &str) -> (r: String)
    ensures
        r@ == palette_or(snapshot@, index, fallback@),
{
    match snapshot.palette.get(&index) {
        Some(c) => c.clone(),
        None => crate::text::copy_str(fallback),
    }
}

pub open spec fn red_of(s: SnapshotModel) -> Seq<char> {
    palette_or(s, 1, if s.is_light { "#c63b52"@ } else { "#ff6b6b"@ })
}

pub open spec fn green_of(s: SnapshotModel) -> Seq<char> {
    palette_or(s, 2, if s.is_light { "#4d7a36"@ } else { "#7bd88f"@ })
}

pub open spec fn yellow_of(s: SnapshotModel) -> Seq<char> {
    palette_or(s, 3, if s.is_light { "#8a6a35"@ } else { "#ffd866"@ })
}

pub open spec fn blue_of(s: SnapshotModel) -> Seq<char> {
    palette_or(s, 4, if s.is_light { "#286ad9"@ } else { "#72b7ff"@ })
}

pub open spec fn magenta_of(s: SnapshotModel) -> Seq<char> {
    palette_or(s, 5, if s.is_light { "#8845d8"@ } else { "#c792ea"@ })
}

pub open spec fn cyan_of(s: SnapshotModel) -> Seq<char> {
    palette_or(s, 6, if s.is_light { "#00708c"@ } else { "#78dce8"@ })
}

// ---------------------------------------------------------------------
// The theme document
// ---------------------------------------------------------------------

/// Each setting on a line of its own.
pub open spec fn setting_lines(items: Seq<Seq<char>>) -> Seq<char>
    decreases items.len(),
{
    if items.len() == 0 {
        seq![]
    } else {
        setting_lines(items.drop_last()) + items.last() + seq!['\n']
    }
}

pub open spec fn theme_settings(
    s: SnapshotModel,
    dim: Seq<char>,
    border: Seq<char>,
    insert_bg: Seq<char>,
    delete_bg: Seq<char>,
    selection_bg: Seq<char>,
) -> Seq<Seq<char>> {
    let fg = s.foreground;
    let selection_fg = match s.selection_foreground {
        Some(x) => x,
        None => fg,
    };
    seq![
        default_setting_text(fg, s.background, selection_bg, selection_fg, border),
        scoped_setting_text("comment"@, Some(dim), None, Some("italic"@)),
        scoped_setting_text("keyword, storage"@, Some(magenta_of(s)), None, None),
        scoped_setting_text("entity.name.function, support.function"@, Some(blue_of(s)), None, None),
        scoped_setting_text("string"@, Some(green_of(s)), None, None),
        scoped_setting_text("constant.numeric, constant.language"@, Some(yellow_of(s)), None, None),
        scoped_setting_text("entity.name.type, support.type"@, Some(cyan_of(s)), None, None),
        scoped_setting_text("variable, keyword.operator"@, Some(fg), None, None),
        scoped_setting_text("markup.heading"@, Some(blue_of(s)), None, Some("bold"@)),
        scoped_setting_text(
            "markup.raw, markup.raw.inline, markup.fenced_code"@,
            Some(green_of(s)),
            None,
            None,
        ),
        scoped_setting_text("markup.inserted, diff.inserted"@, Some(green_of(s)), Some(insert_bg), None),
        scoped_setting_text("markup.deleted, diff.deleted"@, Some(red_of(s)), Some(delete_bg), None),
    ]
}

/// The name shown for the theme: the generated theme's name, then the active
/// Ghostty theme (or the spec, or `custom`) in parentheses.
pub open spec fn display_name(theme_name: Seq<char>, s: SnapshotModel) -> Seq<char> {
    let active = match s.active_theme_name {
        Some(a) => a,
        None => match s.theme_spec {
            Some(t) => t,
            None => "custom"@,
        },
    };
    theme_name + " ("@ + active + ")"@
}

pub open spec fn tmtheme_text(
    theme_name: Seq<char>,
    s: SnapshotModel,
    dim: Seq<char>,
    border: Seq<char>,
    insert_bg: Seq<char>,
    delete_bg: Seq<char>,
    selection_bg: Seq<char>,
) -> Seq<char> {
    TMTHEME_HEAD@ + escaped(display_name(theme_name, s)) + TMTHEME_AFTER_NAME@ + setting_lines(
        theme_settings(s, dim, border, insert_bg, delete_bg, selection_bg),
    ) + TMTHEME_TAIL@
}

/// The theme document, given the blended colors it uses.
pub fn render_tmtheme(
    theme_name: &str,
    snapshot: &GhosttySnapshot,
    dim: &str,
    border: &str,
    insert_bg: &str,
    delete_bg: &str,
    selection_bg: &str,
) -> (r: String)
    ensures
        r@ == tmtheme_text(
            theme_name@,
            snapshot@,
            dim@,
            border@,
            insert_bg@,
            delete_bg@,
            selection_bg@,
        ),
{
    let l = snapshot.is_light;
    let fg = snapshot.foreground.as_str();
    let bg = snapshot.background.as_str();
    let red = palette_color(snapshot, 1, if l { "#c63b52" } else { "#ff6b6b" });
    let green = palette_color(snapshot, 2, if l { "#4d7a36" } else { "#7bd88f" });
    let yellow = palette_color(snapshot, 3, if l { "#8a6a35" } else { "#ffd866" });
    let blue = palette_color(snapshot, 4, if l { "#286ad9" } else { "#72b7ff" });
    let magenta = palette_color(snapshot, 5, if l { "#8845d8" } else { "#c792ea" });
    let cyan = palette_color(snapshot, 6, if l { "#00708c" } else { "#78dce8" });
    let selection_fg = match &snapshot.selection_foreground {
        Some(x) => x.as_str(),
        None => fg,
    };
    let settings: Vec<String> = vec![
        default_setting(fg, bg, selection_bg, selection_fg, border),
        scoped_setting("comment", Some(dim), None, Some("italic")),
        scoped_setting("keyword, storage", Some(magenta.as_str()), None, None),
        scoped_setting("entity.name.function, support.function", Some(blue.as_str()), None, None),
        scoped_setting("string", Some(green.as_str()), None, None),
        scoped_setting("constant.numeric, constant.language", Some(yellow.as_str()), None, None),
        scoped_setting("entity.name.type, support.type", Some(cyan.as_str()), None, None),
        scoped_setting("variable, keyword.operator", Some(fg), None, None),
        scoped_setting("markup.heading", Some(blue.as_str()), None, Some("bold")),
        scoped_setting(
            "markup.raw, markup.raw.inline, markup.fenced_code",
            Some(green.as_str()),
            None,
            None,
        ),
        scoped_setting("markup.inserted, diff.inserted", Some(green.as_str()), Some(insert_bg), None),
        scoped_setting("markup.deleted, diff.deleted", Some(red.as_str()), Some(delete_bg), None),
    ];
    let ghost items = theme_settings(snapshot@, dim@, border@, insert_bg@, delete_bg@, selection_bg@);
    assert(settings@.len() == 12);
    assert forall|k: int| 0 <= k < 12 implies (#[trigger] settings@[k])@ == items[k] by {}
    let mut name = String::new();
    push_str(&mut name, theme_name);
    push_str(&mut name, " (");
    match &snapshot.active_theme_name {
        Some(a) => push_str(&mut name, a.as_str()),
        None => match &snapshot.theme_spec {
            Some(t) => push_str(&mut name, t.as_str()),
            None => push_str(&mut name, "custom"),
        },
    }
    push_str(&mut name, ")");
    assert(name@ =~= display_name(theme_name@, snapshot@));
    let mut s = String::new();
    push_str(&mut s, TMTHEME_HEAD);
    push_escaped(&mut s, name.as_str());
    push_str(&mut s, TMTHEME_AFTER_NAME);
    let ghost prefix = s@;
    let mut i: usize = 0;
    while i < settings.len()
        invariant
            i <= settings.len() == 12,
            items.len() == 12,
            forall|k: int| 0 <= k < 12 ==> (#[trigger] settings@[k])@ == items[k],
            s@ == prefix + setting_lines(items.take(i as int)),
        decreases settings.len() - i,
    {
        assert(items.take(i + 1).drop_last() =~= items.take(i as int));
        assert(items.take(i + 1).last() == items[i as int]);
        push_str(&mut s, settings[i].as_str());
        string_push(&mut s, '\n');
        assert(s@ =~= prefix + setting_lines(items.take(i + 1)));
        i += 1;
    }
    assert(items.take(12) =~= items);
    push_str(&mut s, TMTHEME_TAIL);
    assert(s@ =~= tmtheme_text(
        theme_name@,
        snapshot@,
        dim@,
        border@,
        insert_bg@,
        delete_bg@,
        selection_bg@,
    ));
    s
}

// ---------------------------------------------------------------------
// Blending
// ---------------------------------------------------------------------

/// `out` is the color whose channels `blend` gave for the channels of `a`
/// and `b`, with `a` weighted `percent`.
pub open spec fn blended<F: Fn(u8, u8, u8) -> u8>(
    blend: F,
    a: (u8, u8, u8),
    b: (u8, u8, u8),
    percent: u8,
    out: Seq<char>,
) -> bool {
    exists|x: u8, y: u8, z: u8|
        #![trigger blend.ensures((a.0, b.0, percent), x), blend.ensures((a.1, b.1, percent), y), blend.ensures((a.2, b.2, percent), z)]
        blend.ensures((a.0, b.0, percent), x) && blend.ensures((a.1, b.1, percent), y)
            && blend.ensures((a.2, b.2, percent), z) && out == seq!['#'] + hex2(x) + hex2(y)
            + hex2(z)
}

/// A blend of two colors, channel by channel.
pub fn mix<F: Fn(u8, u8, u8) -> u8>(color_a: &str, color_b: &str, ratio_percent: u8, blend: &F) -> (r:
    Result<String, String>)
    requires
        forall|x: u8, y: u8, p: u8| blend.requires((x, y, p)),
    ensures
        match (hex_color(color_a@), hex_color(color_b@)) {
            (None, _) => r matches Err(e) && e@ == invalid_hex_message(color_a@),
            (Some(_), None) => r matches Err(e) && e@ == invalid_hex_message(color_b@),
            (Some(ha), Some(hb)) => r matches Ok(s) && blended(
                *blend,
                rgb_of(ha),
                rgb_of(hb),
                ratio_percent,
                s@,
            ),
        },
{
    let (ar, ag, ab) = match parse_hex(color_a) {
        Ok(c) => c,
        Err(e) => return Err(e),
    };
    let (br, bg, bb) = match parse_hex(color_b) {
        Ok(c) => c,
        Err(e) => return Err(e),
    };
    let x = blend(ar, br, ratio_percent);
    let y = blend(ag, bg, ratio_percent);
    let z = blend(ab, bb, ratio_percent);
    let mut s = String::new();
    string_push(&mut s, '#');
    let hx = to_hex_channel(x);
    let hy = to_hex_channel(y);
    let hz = to_hex_channel(z);
    push_str(&mut s, hx.as_str());
    push_str(&mut s, hy.as_str());
    push_str(&mut s, hz.as_str());
    assert(s@ =~= seq!['#'] + hex2(x) + hex2(y) + hex2(z));
    Ok(s)
}

pub open spec fn rgb(c: Seq<char>) -> (u8, u8, u8) {
    rgb_of(hex_color(c)->0)
}

/// The first color that a theme cannot be generated from, as its error message.
pub open spec fn tmtheme_error(s: SnapshotModel) -> Option<Seq<char>> {
    if hex_color(s.foreground) is None {
        Some(invalid_hex_message(s.foreground))
    } else if hex_color(s.background) is None {
        Some(invalid_hex_message(s.background))
    } else if hex_color(green_of(s)) is None {
        Some(invalid_hex_message(green_of(s)))
    } else if hex_color(red_of(s)) is None {
        Some(invalid_hex_message(red_of(s)))
    } else if s.selection_background is None && hex_color(blue_of(s)) is None {
        Some(invalid_hex_message(blue_of(s)))
    } else {
        None
    }
}

/// The blended colors of the theme: dim text and borders from the foreground,
/// diff backgrounds from green and red, and the selection (unless Ghostty names
/// one) from blue, each towards the background.
pub open spec fn tints_ok<F: Fn(u8, u8, u8) -> u8>(
    blend: F,
    s: SnapshotModel,
    dim: Seq<char>,
    border: Seq<char>,
    insert_bg: Seq<char>,
    delete_bg: Seq<char>,
    selection_bg: Seq<char>,
) -> bool {
    let l = s.is_light;
    &&& blended(blend, rgb(s.foreground), rgb(s.background), if l { 30u8 } else { 34u8 }, dim)
    &&& blended(blend, rgb(s.foreground), rgb(s.background), if l { 18u8 } else { 22u8 }, border)
    &&& blended(blend, rgb(green_of(s)), rgb(s.background), if l { 6u8 } else { 10u8 }, insert_bg)
    &&& blended(blend, rgb(red_of(s)), rgb(s.background), if l { 6u8 } else { 10u8 }, delete_bg)
    &&& match s.selection_background {
        Some(x) => selection_bg == x,
        None => blended(
            blend,
            rgb(blue_of(s)),
            rgb(s.background),
            if l { 22u8 } else { 28u8 },
            selection_bg,
        ),
    }
}

/// A syntax theme named after `theme_name`, generated from the snapshot.
pub fn build_tmtheme<F: Fn(u8, u8, u8) -> u8>(
    theme_name: &str,
    snapshot: &GhosttySnapshot,
    blend: &F,
) -> (r: Result<String, String>)
    requires
        forall|x: u8, y: u8, p: u8| blend.requires((x, y, p)),
    ensures
        match tmtheme_error(snapshot@) {
            Some(e) => r matches Err(x) && x@ == e,
            None => r matches Ok(text) && exists|
                dim: Seq<char>,
                border: Seq<char>,
                insert_bg: Seq<char>,
                delete_bg: Seq<char>,
                selection_bg: Seq<char>,
            |
                #![trigger tmtheme_text(theme_name@, snapshot@, dim, border, insert_bg, delete_bg, selection_bg)]
                tints_ok(*blend, snapshot@, dim, border, insert_bg, delete_bg, selection_bg)
                    && text@ == tmtheme_text(
                    theme_name@,
                    snapshot@,
                    dim,
                    border,
                    insert_bg,
                    delete_bg,
                    selection_bg,
                ),
        },
{
    let l = snapshot.is_light;
    let fg = snapshot.foreground.as_str();
    let bg = snapshot.background.as_str();
    let red = palette_color(snapshot, 1, if l { "#c63b52" } else { "#ff6b6b" });
    let green = palette_color(snapshot, 2, if l { "#4d7a36" } else { "#7bd88f" });
    let blue = palette_color(snapshot, 4, if l { "#286ad9" } else { "#72b7ff" });
    let dim = match mix(fg, bg, if l { 30 } else { 34 }, blend) {
        Ok(c) => c,
        Err(e) => return Err(e),
    };
    let border = match mix(fg, bg, if l { 18 } else { 22 }, blend) {
        Ok(c) => c,
        Err(e) => return Err(e),
    };
    let insert_bg = match mix(green.as_str(), bg, if l { 6 } else { 10 }, blend) {
        Ok(c) => c,
        Err(e) => return Err(e),
    };
    let delete_bg = match mix(red.as_str(), bg, if l { 6 } else { 10 }, blend) {
        Ok(c) => c,
        Err(e) => return Err(e),
    };
    let selection_bg = match &snapshot.selection_background {
        Some(s) => s.clone(),
        None => match mix(blue.as_str(), bg, if l { 22 } else { 28 }, blend) {
            Ok(c) => c,
            Err(e) => return Err(e),
        },
    };
    let text = render_tmtheme(
        theme_name,
        snapshot,
        dim.as_str(),
        border.as_str(),
        insert_bg.as_str(),
        delete_bg.as_str(),
        selection_bg.as_str(),
    );
    assert(tints_ok(
        *blend,
        snapshot@,
        dim@,
        border@,
        insert_bg@,
        delete_bg@,
        selection_bg@,
    ));
    Ok(text)
}

} // verus!

verus! {

/// The global settings: foreground, background, caret in the foreground color,
/// selection, selection foreground and line highlight, in that order.
pub proof fn lemma_default_setting_layout(
    foreground: Seq<char>,
    background: Seq<char>,
    selection_background: Seq<char>,
    selection_foreground: Seq<char>,
    border: Seq<char>,
)
    ensures
        default_setting_text(
            foreground,
            background,
            selection_background,
            selection_foreground,
            border,
        ) == "<dict><key>settings</key><dict>\n<key>foreground</key><string>"@ + escaped(
            foreground,
        ) + "</string>\n<key>background</key><string>"@ + escaped(background)
            + "</string>\n<key>caret</key><string>"@ + escaped(foreground)
            + "</string>\n<key>selection</key><string>"@ + escaped(selection_background)
            + "</string>\n<key>selectionForeground</key><string>"@ + escaped(
            selection_foreground,
        ) + "</string>\n<key>lineHighlight</key><string>"@ + escaped(border)
            + "</string>\n</dict></dict>"@,
{
}

/// A scope's settings: the scope, then its foreground, background and font
/// style where given, in that order.
pub proof fn lemma_scoped_setting_layout(
    scope: Seq<char>,
    foreground: Option<Seq<char>>,
    background: Option<Seq<char>>,
    font_style: Option<Seq<char>>,
)
    ensures
        scoped_setting_text(scope, foreground, background, font_style)
            == "<dict><key>scope</key><string>"@ + escaped(scope)
            + "</string><key>settings</key><dict>"@ + (match foreground {
            Some(f) => "<key>foreground</key><string>"@ + escaped(f) + "</string>"@,
            None => Seq::<char>::empty(),
        }) + (match background {
            Some(b) => "<key>background</key><string>"@ + escaped(b) + "</string>"@,
            None => Seq::<char>::empty(),
        }) + (match font_style {
            Some(x) => "<key>fontStyle</key><string>"@ + escaped(x) + "</string>"@,
            None => Seq::<char>::empty(),
        }) + "</dict></dict>"@,
{
}

/// The theme document: its name, then the global settings drawn from the
/// snapshot's foreground and background (selection foreground falling back to
/// the foreground), then the scopes colored from the palette, each on its own line.
#[verifier::spinoff_prover]
#[verifier::rlimit(40)]
pub proof fn lemma_tmtheme_document(
    theme_name: Seq<char>,
    s: SnapshotModel,
    dim: Seq<char>,
    border: Seq<char>,
    insert_bg: Seq<char>,
    delete_bg: Seq<char>,
    selection_bg: Seq<char>,
)
    ensures
        ({
            let l = s.is_light;
            let pal = |i: u16, light: Seq<char>, dark: Seq<char>|
                if s.palette.dom().contains(i) {
                    s.palette[i]
                } else if l {
                    light
                } else {
                    dark
                };
            let red = pal(1, "#c63b52"@, "#ff6b6b"@);
            let green = pal(2, "#4d7a36"@, "#7bd88f"@);
            let yellow = pal(3, "#8a6a35"@, "#ffd866"@);
            let blue = pal(4, "#286ad9"@, "#72b7ff"@);
            let magenta = pal(5, "#8845d8"@, "#c792ea"@);
            let cyan = pal(6, "#00708c"@, "#78dce8"@);
            let selection_fg = if s.selection_foreground is Some {
                s.selection_foreground->0
            } else {
                s.foreground
            };
            let active = if s.active_theme_name is Some {
                s.active_theme_name->0
            } else if s.theme_spec is Some {
                s.theme_spec->0
            } else {
                "custom"@
            };
            tmtheme_text(theme_name, s, dim, border, insert_bg, delete_bg, selection_bg)
                == "<?xml version=\"1.0\" encoding=\"UTF-8\"?>\n<!DOCTYPE plist PUBLIC \"-//Apple//DTD PLIST 1.0//EN\" \"http://www.apple.com/DTDs/PropertyList-1.0.dtd\">\n<plist version=\"1.0\">\n<dict>\n<key>name</key><string>"@
                + escaped(theme_name + " ("@ + active + ")"@)
                + "</string>\n<key>settings</key>\n<array>\n"@
                + setting_lines(seq![
                    default_setting_text(s.foreground, s.background, selection_bg, selection_fg, border),
                    scoped_setting_text("comment"@, Some(dim), None, Some("italic"@)),
                    scoped_setting_text("keyword, storage"@, Some(magenta), None, None),
                    scoped_setting_text("entity.name.function, support.function"@, Some(blue), None, None),
                    scoped_setting_text("string"@, Some(green), None, None),
                    scoped_setting_text("constant.numeric, constant.language"@, Some(yellow), None, None),
                    scoped_setting_text("entity.name.type, support.type"@, Some(cyan), None, None),
                    scoped_setting_text("variable, keyword.operator"@, Some(s.foreground), None, None),
                    scoped_setting_text("markup.heading"@, Some(blue), None, Some("bold"@)),
                    scoped_setting_text("markup.raw, markup.raw.inline, markup.fenced_code"@, Some(green), None, None),
                    scoped_setting_text("markup.inserted, diff.inserted"@, Some(green), Some(insert_bg), None),
                    scoped_setting_text("markup.deleted, diff.deleted"@, Some(red), Some(delete_bg), None),
                ])
                + "</array>\n</dict>\n</plist>\n"@
        }),
{
}

/// Settings are written one per line, each followed by a line feed, in order.
pub proof fn lemma_setting_lines_layout(items: Seq<Seq<char>>, item: Seq<char>)
    ensures
        setting_lines(Seq::<Seq<char>>::empty()) == Seq::<char>::empty(),
        setting_lines(items.push(item)) == setting_lines(items) + item + seq!['\n'],
{
    assert(items.push(item).drop_last() =~= items);
}

} // verus!
