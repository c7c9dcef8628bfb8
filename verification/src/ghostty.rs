//! Reading Ghostty's resolved configuration (`ghostty +show-config`) into a
//! color snapshot: the theme spec, background, foreground, selection colors
//! and palette, and which of a light/dark theme pair is active.

use std::collections::BTreeMap;
use vstd::prelude::*;
use crate::contribution::{opt_string_view, strings_view};
use crate::normalize::opt_str_view;
use crate::text::{
    first_index, is_ws, lemma_first_index, split_fold, line_split, strip_cr, lemma_trim_idempotent, chars_of, find_char, is_ascii_digit, is_ascii_hexdigit, is_digit, is_hex_digit,
    is_upper, lemma_lower_char_hex, line_ranges, lines, lower, lowercase_string,
    push_str, range_eq, split, split_once, split_ranges, string_of, string_push, trim,
    trim_range, trim_end, trim_start,
};
use vstd::string::StrSliceExecFns;

verus! {

broadcast use vstd::string::group_string_axioms, vstd::laws_cmp::group_laws_cmp,
    vstd::std_specs::btree::group_btree_axioms;

/// The settings read from Ghostty's configuration, each as last given.
#[derive(Debug, PartialEq, Eq)]
pub struct ParsedGhosttyConfig {
    pub theme_spec: Option<String>,
    pub background: Option<String>,
    pub foreground: Option<String>,
    pub selection_background: Option<String>,
    pub selection_foreground: Option<String>,
    pub palette: BTreeMap<u16, String>,
}

/// The colors a syntax theme is generated from.
#[derive(Clone, Debug, PartialEq, Eq)]
pub struct GhosttySnapshot {
    pub theme_spec: Option<String>,
    pub active_theme_name: Option<String>,
    pub background: String,
    pub foreground: String,
    pub selection_background: Option<String>,
    pub selection_foreground: Option<String>,
    pub palette: BTreeMap<u16, String>,
    pub is_light: bool,
}

pub struct ParsedModel {
    pub theme_spec: Option<Seq<char>>,
    pub background: Option<Seq<char>>,
    pub foreground: Option<Seq<char>>,
    pub selection_background: Option<Seq<char>>,
    pub selection_foreground: Option<Seq<char>>,
    pub palette: Map<u16, Seq<char>>,
}

pub struct SnapshotModel {
    pub theme_spec: Option<Seq<char>>,
    pub active_theme_name: Option<Seq<char>>,
    pub background: Seq<char>,
    pub foreground: Seq<char>,
    pub selection_background: Option<Seq<char>>,
    pub selection_foreground: Option<Seq<char>>,
    pub palette: Map<u16, Seq<char>>,
    pub is_light: bool,
}

pub open spec fn palette_view(m: BTreeMap<u16, String>) -> Map<u16, Seq<char>> {
    m@.map_values(|s: String| s@)
}

impl View for ParsedGhosttyConfig {
    type V = ParsedModel;

    open spec fn view(&self) -> ParsedModel {
        ParsedModel {
            theme_spec: opt_string_view(self.theme_spec),
            background: opt_string_view(self.background),
            foreground: opt_string_view(self.foreground),
            selection_background: opt_string_view(self.selection_background),
            selection_foreground: opt_string_view(self.selection_foreground),
            palette: palette_view(self.palette),
        }
    }
}

impl View for GhosttySnapshot {
    type V = SnapshotModel;

    open spec fn view(&self) -> SnapshotModel {
        SnapshotModel {
            theme_spec: opt_string_view(self.theme_spec),
            active_theme_name: opt_string_view(self.active_theme_name),
            background: self.background@,
            foreground: self.foreground@,
            selection_background: opt_string_view(self.selection_background),
            selection_foreground: opt_string_view(self.selection_foreground),
            palette: palette_view(self.palette),
            is_light: self.is_light,
        }
    }
}

// ---------------------------------------------------------------------
// Values
// ---------------------------------------------------------------------

/// One pair of surrounding double quotes removed, where there is one.
pub open spec fn unquoted(s: Seq<char>) -> Seq<char> {
    if s.len() >= 2 && s[0] == '"' && s.last() == '"' {
        s.subrange(1, s.len() - 1)
    } else {
        s
    }
}

pub open spec fn all_hex(s: Seq<char>) -> bool {
    forall|i: int| 0 <= i < s.len() ==> is_hex_digit(#[trigger] s[i])
}

/// A color as `#rrggbb` in lower case, from `#RRGGBB` or `RRGGBB`,
/// after trimming and unquoting.
pub open spec fn hex_color(value: Seq<char>) -> Option<Seq<char>> {
    let u = unquoted(trim(value));
    if u.len() == 7 && u[0] == '#' && all_hex(u.drop_first()) {
        Some(lower(u))
    } else if u.len() == 6 && all_hex(u) {
        Some(seq!['#'] + lower(u))
    } else {
        None
    }
}

/// The decimal value of a run of ASCII digits.
pub open spec fn digits_value(s: Seq<char>) -> int
    decreases s.len(),
{
    if s.len() == 0 {
        0
    } else {
        digits_value(s.drop_last()) * 10 + (s.last() as int - '0' as int)
    }
}

pub open spec fn all_digits(s: Seq<char>) -> bool {
    forall|i: int| 0 <= i < s.len() ==> is_digit(#[trigger] s[i])
}

/// `u16::from_str`: an optional `+`, then at least one ASCII digit, at most 65535.
pub open spec fn parse_u16(s: Seq<char>) -> Option<u16> {
    let d = if s.len() > 0 && s[0] == '+' {
        s.drop_first()
    } else {
        s
    };
    if d.len() == 0 || !all_digits(d) || digits_value(d) > 65535 {
        None
    } else {
        Some(digits_value(d) as u16)
    }
}

/// `INDEX=COLOR`.
pub open spec fn palette_entry(value: Seq<char>) -> Option<(u16, Seq<char>)> {
    match split_once(value, '=') {
        None => None,
        Some((index, color)) => match parse_u16(trim(index)) {
            None => None,
            Some(n) => match hex_color(trim(color)) {
                None => None,
                Some(h) => Some((n, h)),
            },
        },
    }
}

// ---------------------------------------------------------------------
// The configuration, line by line
// ---------------------------------------------------------------------

pub open spec fn or_keep(old: Option<Seq<char>>, new: Option<Seq<char>>) -> Option<Seq<char>> {
    if new is Some {
        new
    } else {
        old
    }
}

/// One line of `+show-config` output: blank lines, comments and lines without
/// `=` change nothing, and so do keys other than the ones read here.
pub open spec fn config_step(st: ParsedModel, raw_line: Seq<char>) -> ParsedModel {
    let line = trim(raw_line);
    if line.len() == 0 || line[0] == '#' {
        st
    } else {
        match split_once(line, '=') {
            None => st,
            Some((k, v)) => {
                let key = trim(k);
                let value = trim(v);
                if key == "theme"@ {
                    ParsedModel { theme_spec: Some(unquoted(value)), ..st }
                } else if key == "background"@ {
                    ParsedModel { background: or_keep(st.background, hex_color(value)), ..st }
                } else if key == "foreground"@ {
                    ParsedModel { foreground: or_keep(st.foreground, hex_color(value)), ..st }
                } else if key == "selection-background"@ {
                    ParsedModel {
                        selection_background: or_keep(st.selection_background, hex_color(value)),
                        ..st
                    }
                } else if key == "selection-foreground"@ {
                    ParsedModel {
                        selection_foreground: or_keep(st.selection_foreground, hex_color(value)),
                        ..st
                    }
                } else if key == "palette"@ {
                    match palette_entry(value) {
                        Some((i, c)) => ParsedModel { palette: st.palette.insert(i, c), ..st },
                        None => st,
                    }
                } else {
                    st
                }
            },
        }
    }
}

pub open spec fn empty_config() -> ParsedModel {
    ParsedModel {
        theme_spec: None,
        background: None,
        foreground: None,
        selection_background: None,
        selection_foreground: None,
        palette: Map::empty(),
    }
}

pub open spec fn config_upto(ls: Seq<Seq<char>>, n: nat) -> ParsedModel
    decreases n,
{
    if n == 0 {
        empty_config()
    } else {
        config_step(config_upto(ls, (n - 1) as nat), ls[n - 1])
    }
}

/// The whole output, line by line.
pub open spec fn ghostty_config(output: Seq<char>) -> ParsedModel {
    config_upto(lines(output), lines(output).len())
}

// ---------------------------------------------------------------------
// Theme selection
// ---------------------------------------------------------------------

pub open spec fn theme_parts_of(pieces: Seq<Seq<char>>) -> Seq<Seq<char>>
    decreases pieces.len(),
{
    if pieces.len() == 0 {
        seq![]
    } else {
        let p = theme_parts_of(pieces.drop_last());
        let t = trim(pieces.last());
        if t.len() > 0 {
            p.push(t)
        } else {
            p
        }
    }
}

/// The comma-separated parts of a theme spec, trimmed, empty ones left out.
pub open spec fn theme_parts(spec: Seq<char>) -> Seq<Seq<char>> {
    theme_parts_of(split(spec, ','))
}

/// The themes named so far: a single theme, a light one and a dark one.
pub open spec fn theme_step(
    st: (Option<Seq<char>>, Option<Seq<char>>, Option<Seq<char>>),
    part: Seq<char>,
) -> (Option<Seq<char>>, Option<Seq<char>>, Option<Seq<char>>) {
    match split_once(part, ':') {
        None => (Some(part), st.1, st.2),
        Some((mode, name)) => {
            let m = lower(trim(mode));
            if m == "light"@ {
                (st.0, Some(trim(name)), st.2)
            } else if m == "dark"@ {
                (st.0, st.1, Some(trim(name)))
            } else {
                (Some(part), st.1, st.2)
            }
        },
    }
}

pub open spec fn themes_upto(parts: Seq<Seq<char>>, n: nat) -> (
    Option<Seq<char>>,
    Option<Seq<char>>,
    Option<Seq<char>>,
)
    decreases n,
{
    if n == 0 {
        (None, None, None)
    } else {
        theme_step(themes_upto(parts, (n - 1) as nat), parts[n - 1])
    }
}

/// The active theme: with a light or a dark theme named, the one that matches
/// the background (else the other); otherwise the last plain theme named.
pub open spec fn selected_theme(spec: Option<Seq<char>>, is_light: bool) -> Option<Seq<char>> {
    match spec {
        None => None,
        Some(s) => {
            let parts = theme_parts(s);
            let (single, light, dark) = themes_upto(parts, parts.len());
            if light is Some || dark is Some {
                if is_light {
                    or_keep(dark, light)
                } else {
                    or_keep(light, dark)
                }
            } else {
                single
            }
        },
    }
}

} // verus!

verus! {

/// The bounds of `unquoted(v[lo..hi])` within `v`.
fn unquote_range(v: &Vec<char>, lo: usize, hi: usize) -> (r: (usize, usize))
    requires
        lo <= hi <= v.len(),
    ensures
        lo <= r.0 <= r.1 <= hi,
        v@.subrange(r.0 as int, r.1 as int) == unquoted(v@.subrange(lo as int, hi as int)),
{
    if hi - lo >= 2 && v[lo] == '"' && v[hi - 1] == '"' {
        assert(v@.subrange(lo + 1, hi - 1) =~= v@.subrange(lo as int, hi as int).subrange(
            1,
            (hi - lo - 1) as int,
        ));
        (lo + 1, hi - 1)
    } else {
        (lo, hi)
    }
}

/// `value` without one pair of surrounding double quotes.
pub fn unquote(value: &str) -> (r: &str)
    ensures
        r@ == unquoted(value@),
{
    let n = value.unicode_len();
    if n >= 2 && value.get_char(0) == '"' && value.get_char(n - 1) == '"' {
        value.substring_char(1, n - 1)
    } else {
        value
    }
}

fn all_hex_range(v: &Vec<char>, lo: usize, hi: usize) -> (r: bool)
    requires
        lo <= hi <= v.len(),
    ensures
        r == all_hex(v@.subrange(lo as int, hi as int)),
{
    let mut i = lo;
    while i < hi
        invariant
            lo <= i <= hi <= v.len(),
            forall|k: int| lo <= k < i ==> is_hex_digit(#[trigger] v@[k]),
        decreases hi - i,
    {
        if !is_ascii_hexdigit(v[i]) {
            assert(!is_hex_digit(v@.subrange(lo as int, hi as int)[i - lo]));
            return false;
        }
        i += 1;
    }
    assert forall|k: int| 0 <= k < hi - lo implies is_hex_digit(
        #[trigger] v@.subrange(lo as int, hi as int)[k],
    ) by {
        assert(v@.subrange(lo as int, hi as int)[k] == v@[lo + k]);
    }
    true
}

/// `hex_color(v[lo..hi])`.
fn hex_of_range(v: &Vec<char>, lo: usize, hi: usize) -> (r: Option<String>)
    requires
        lo <= hi <= v.len(),
    ensures
        opt_string_view(r) == hex_color(v@.subrange(lo as int, hi as int)),
{
    let (a0, b0) = trim_range(v, lo, hi);
    let (a, b) = unquote_range(v, a0, b0);
    let ghost u = v@.subrange(a as int, b as int);
    if b - a == 7 && v[a] == '#' && all_hex_range(v, a + 1, b) {
        assert(u.drop_first() =~= v@.subrange(a + 1, b as int));
        Some(lowercase_string(v, a, b))
    } else {
        if b - a == 7 && v[a] == '#' {
            assert(u.drop_first() =~= v@.subrange(a + 1, b as int));
        }
        if b - a == 6 && all_hex_range(v, a, b) {
            let mut s = String::new();
            string_push(&mut s, '#');
            let l = lowercase_string(v, a, b);
            push_str(&mut s, l.as_str());
            assert(s@ =~= seq!['#'] + lower(u));
            Some(s)
        } else {
            None
        }
    }
}

/// `value` as a lower-case `#rrggbb` color, if it is one.
pub fn normalize_hex(value: &str) -> (r: Option<String>)
    ensures
        opt_string_view(r) == hex_color(value@),
{
    let v = chars_of(value);
    assert(v@.subrange(0, v@.len() as int) =~= v@);
    hex_of_range(&v, 0, v.len())
}

/// `parse_u16(v[lo..hi])`.
fn parse_u16_range(v: &Vec<char>, lo: usize, hi: usize) -> (r: Option<u16>)
    requires
        lo <= hi <= v.len(),
    ensures
        r == parse_u16(v@.subrange(lo as int, hi as int)),
{
    let ghost s = v@.subrange(lo as int, hi as int);
    let start = if hi > lo && v[lo] == '+' {
        lo + 1
    } else {
        lo
    };
    let ghost d = v@.subrange(start as int, hi as int);
    assert(hi > lo ==> s[0] == v@[lo as int]);
    assert(d =~= (if s.len() > 0 && s[0] == '+' {
        s.drop_first()
    } else {
        s
    }));
    if start == hi {
        return None;
    }
    let mut val: u32 = 0;
    let mut i = start;
    while i < hi
        invariant
            lo <= start <= i <= hi <= v.len(),
            d == v@.subrange(start as int, hi as int),
            s == v@.subrange(lo as int, hi as int),
            d == (if s.len() > 0 && s[0] == '+' {
                s.drop_first()
            } else {
                s
            }),
            val == (if digits_value(v@.subrange(start as int, i as int)) > 65535 {
                65536
            } else {
                digits_value(v@.subrange(start as int, i as int))
            }),
            forall|k: int| start <= k < i ==> is_digit(#[trigger] v@[k]),
        decreases hi - i,
    {
        let c = v[i];
        if !is_ascii_digit(c) {
            assert(!is_digit(d[i - start]));
            assert(!all_digits(d));
            return None;
        }
        let ghost prev = digits_value(v@.subrange(start as int, i as int));
        assert(v@.subrange(start as int, i + 1).drop_last() =~= v@.subrange(
            start as int,
            i as int,
        ));
        assert(digits_value(v@.subrange(start as int, i + 1)) == prev * 10 + (c as int
            - '0' as int));
        let digit: u32 = (c as u32) - ('0' as u32);
        let next = val * 10 + digit;
        val = if next > 65535 {
            65536
        } else {
            next
        };
        i += 1;
    }
    assert(v@.subrange(start as int, hi as int) == d);
    assert forall|k: int| 0 <= k < d.len() implies is_digit(#[trigger] d[k]) by {
        assert(d[k] == v@[start + k]);
    }
    if val > 65535 {
        None
    } else {
        Some(val as u16)
    }
}

/// `palette_entry(v[lo..hi])`.
fn palette_entry_of_range(v: &Vec<char>, lo: usize, hi: usize) -> (r: Option<(u16, String)>)
    requires
        lo <= hi <= v.len(),
    ensures
        match (r, palette_entry(v@.subrange(lo as int, hi as int))) {
            (Some((n, c)), Some((m, h))) => n == m && c@ == h,
            (None, None) => true,
            _ => false,
        },
{
    let ghost s = v@.subrange(lo as int, hi as int);
    let eq = match find_char(v, lo, hi, '=') {
        Some(e) => e,
        None => return None,
    };
    assert(s.take(eq - lo) =~= v@.subrange(lo as int, eq as int));
    assert(s.skip(eq - lo + 1) =~= v@.subrange(eq + 1, hi as int));
    assert(split_once(s, '=') == Some(
        (v@.subrange(lo as int, eq as int), v@.subrange(eq + 1, hi as int)),
    ));
    let (i0, i1) = trim_range(v, lo, eq);
    let n = match parse_u16_range(v, i0, i1) {
        Some(n) => n,
        None => return None,
    };
    let (c0, c1) = trim_range(v, eq + 1, hi);
    let h = match hex_of_range(v, c0, c1) {
        Some(h) => h,
        None => return None,
    };
    Some((n, h))
}

/// `INDEX=COLOR` from a `palette` line.
pub fn parse_palette_entry(value: &str) -> (r: Option<(u16, String)>)
    ensures
        match (r, palette_entry(value@)) {
            (Some((n, c)), Some((m, h))) => n == m && c@ == h,
            (None, None) => true,
            _ => false,
        },
{
    let v = chars_of(value);
    assert(v@.subrange(0, v@.len() as int) =~= v@);
    palette_entry_of_range(&v, 0, v.len())
}

/// Applies the line `v[lo..hi]` to `config`.
fn apply_config_line(config: &mut ParsedGhosttyConfig, v: &Vec<char>, lo: usize, hi: usize)
    requires
        lo <= hi <= v.len(),
    ensures
        final(config)@ == config_step(old(config)@, v@.subrange(lo as int, hi as int)),
{
    let (a, b) = trim_range(v, lo, hi);
    let ghost t = v@.subrange(a as int, b as int);
    if a == b || v[a] == '#' {
        return;
    }
    let eq = match find_char(v, a, b, '=') {
        Some(e) => e,
        None => return,
    };
    assert(t.take(eq - a) =~= v@.subrange(a as int, eq as int));
    assert(t.skip(eq - a + 1) =~= v@.subrange(eq + 1, b as int));
    assert(split_once(t, '=') == Some(
        (v@.subrange(a as int, eq as int), v@.subrange(eq + 1, b as int)),
    ));
    let (k0, k1) = trim_range(v, a, eq);
    let (w0, w1) = trim_range(v, eq + 1, b);
    if range_eq(v, k0, k1, "theme") {
        let (u0, u1) = unquote_range(v, w0, w1);
        config.theme_spec = Some(string_of(v, u0, u1));
    } else if range_eq(v, k0, k1, "background") {
        if let Some(h) = hex_of_range(v, w0, w1) {
            config.background = Some(h);
        }
    } else if range_eq(v, k0, k1, "foreground") {
        if let Some(h) = hex_of_range(v, w0, w1) {
            config.foreground = Some(h);
        }
    } else if range_eq(v, k0, k1, "selection-background") {
        if let Some(h) = hex_of_range(v, w0, w1) {
            config.selection_background = Some(h);
        }
    } else if range_eq(v, k0, k1, "selection-foreground") {
        if let Some(h) = hex_of_range(v, w0, w1) {
            config.selection_foreground = Some(h);
        }
    } else if range_eq(v, k0, k1, "palette") {
        if let Some((index, color)) = palette_entry_of_range(v, w0, w1) {
            let ghost old_palette = config.palette@;
            config.palette.insert(index, color);
            assert(palette_view(config.palette) =~= palette_view_of(old_palette).insert(
                index,
                color@,
            ));
        }
    }
}

pub open spec fn palette_view_of(m: Map<u16, String>) -> Map<u16, Seq<char>> {
    m.map_values(|s: String| s@)
}

/// Ghostty's `+show-config` output, read line by line.
pub fn parse_ghostty_config(output: &str) -> (r: ParsedGhosttyConfig)
    ensures
        r@ == ghostty_config(output@),
{
    let v = chars_of(output);
    let ranges = line_ranges(&v);
    let ghost ls = lines(v@);
    let mut config = ParsedGhosttyConfig {
        theme_spec: None,
        background: None,
        foreground: None,
        selection_background: None,
        selection_foreground: None,
        palette: BTreeMap::new(),
    };
    assert(config@.palette =~= Map::<u16, Seq<char>>::empty());
    let mut i: usize = 0;
    while i < ranges.len()
        invariant
            i <= ranges.len(),
            ranges.len() == ls.len(),
            ls == lines(v@),
            v@ == output@,
            forall|k: int|
                #![trigger ranges[k]]
                0 <= k < ranges.len() ==> {
                    &&& ranges[k].0 <= ranges[k].1 <= v.len()
                    &&& v@.subrange(ranges[k].0 as int, ranges[k].1 as int) == ls[k]
                },
            config@ == config_upto(ls, i as nat),
        decreases ranges.len() - i,
    {
        let (lo, hi) = ranges[i];
        assert(v@.subrange(lo as int, hi as int) == ls[i as int]);
        apply_config_line(&mut config, &v, lo, hi);
        i += 1;
    }
    config
}

} // verus!

verus! {

/// The comma-separated parts of a theme spec, trimmed, empty ones left out.
pub fn split_theme_spec(value: &str) -> (r: Vec<String>)
    ensures
        strings_view(r@) == theme_parts(value@),
{
    let v = chars_of(value);
    let ranges = split_ranges(&v, ',');
    let ghost pieces = split(v@, ',');
    let mut out: Vec<String> = Vec::new();
    let mut i: usize = 0;
    while i < ranges.len()
        invariant
            i <= ranges.len(),
            ranges.len() == pieces.len(),
            pieces == split(v@, ','),
            forall|k: int|
                #![trigger ranges[k]]
                0 <= k < ranges.len() ==> {
                    &&& ranges[k].0 <= ranges[k].1 <= v.len()
                    &&& v@.subrange(ranges[k].0 as int, ranges[k].1 as int) == pieces[k]
                },
            strings_view(out@) == theme_parts_of(pieces.take(i as int)),
        decreases ranges.len() - i,
    {
        let (lo, hi) = ranges[i];
        assert(v@.subrange(lo as int, hi as int) == pieces[i as int]);
        assert(pieces.take(i + 1).drop_last() =~= pieces.take(i as int));
        assert(pieces.take(i + 1).last() == pieces[i as int]);
        let (a, b) = trim_range(&v, lo, hi);
        if a < b {
            let ghost old_out = out@;
            let part = string_of(&v, a, b);
            out.push(part);
            assert(strings_view(out@) =~= strings_view(old_out).push(part@));
        }
        i += 1;
    }
    assert(pieces.take(ranges.len() as int) =~= pieces);
    out
}

/// The name of the active Ghostty theme, as `selected_theme` says.
pub fn select_theme_name(theme_spec: Option<&str>, is_light: bool) -> (r: Option<String>)
    ensures
        opt_string_view(r) == selected_theme(opt_str_view(theme_spec), is_light),
{
    let spec_str = match theme_spec {
        Some(s) => s,
        None => return None,
    };
    let parts = split_theme_spec(spec_str);
    let ghost ps = theme_parts(spec_str@);
    let mut single: Option<String> = None;
    let mut light: Option<String> = None;
    let mut dark: Option<String> = None;
    let mut i: usize = 0;
    while i < parts.len()
        invariant
            i <= parts.len(),
            ps == strings_view(parts@),
            (opt_string_view(single), opt_string_view(light), opt_string_view(dark))
                == themes_upto(ps, i as nat),
        decreases parts.len() - i,
    {
        let pv = chars_of(parts[i].as_str());
        assert(pv@ == ps[i as int]);
        assert(pv@.subrange(0, pv@.len() as int) =~= pv@);
        match find_char(&pv, 0, pv.len(), ':') {
            None => {
                single = Some(parts[i].clone());
            },
            Some(colon) => {
                assert(pv@.take(colon as int) =~= pv@.subrange(0, colon as int));
                assert(pv@.skip(colon + 1) =~= pv@.subrange(colon + 1, pv@.len() as int));
                assert(split_once(pv@, ':') == Some(
                    (pv@.subrange(0, colon as int), pv@.subrange(colon + 1, pv@.len() as int)),
                ));
                let (m0, m1) = trim_range(&pv, 0, colon);
                let mode = lowercase_string(&pv, m0, m1);
                let mv = chars_of(mode.as_str());
                assert(mv@.subrange(0, mv@.len() as int) =~= mv@);
                let (n0, n1) = trim_range(&pv, colon + 1, pv.len());
                if range_eq(&mv, 0, mv.len(), "light") {
                    light = Some(string_of(&pv, n0, n1));
                } else if range_eq(&mv, 0, mv.len(), "dark") {
                    dark = Some(string_of(&pv, n0, n1));
                } else {
                    single = Some(parts[i].clone());
                }
            },
        }
        i += 1;
    }
    if light.is_some() || dark.is_some() {
        if is_light {
            if light.is_some() {
                light
            } else {
                dark
            }
        } else {
            if dark.is_some() {
                dark
            } else {
                light
            }
        }
    } else {
        single
    }
}

// ---------------------------------------------------------------------
// Hex colors as channels
// ---------------------------------------------------------------------

pub open spec fn hex_val(c: char) -> int {
    if is_digit(c) {
        c as int - '0' as int
    } else if 'a' <= c <= 'f' {
        c as int - 'a' as int + 10
    } else {
        c as int - 'A' as int + 10
    }
}

/// The channels of a normalized `#rrggbb` color.
pub open spec fn rgb_of(h: Seq<char>) -> (u8, u8, u8) {
    (
        (hex_val(h[1]) * 16 + hex_val(h[2])) as u8,
        (hex_val(h[3]) * 16 + hex_val(h[4])) as u8,
        (hex_val(h[5]) * 16 + hex_val(h[6])) as u8,
    )
}

pub open spec fn invalid_hex_message(hex: Seq<char>) -> Seq<char> {
    "Invalid hex color: "@ + hex
}

/// A normalized color is `#` and six lower-case hex digits.
pub proof fn lemma_hex_color_shape(value: Seq<char>)
    ensures
        hex_color(value) matches Some(h) ==> {
            &&& h.len() == 7
            &&& h[0] == '#'
            &&& forall|i: int| 1 <= i < 7 ==> is_hex_digit(#[trigger] h[i]) && !is_upper(h[i])
        },
{
    let u = unquoted(trim(value));
    if u.len() == 7 && u[0] == '#' && all_hex(u.drop_first()) {
        let h = lower(u);
        assert forall|i: int| 1 <= i < 7 implies is_hex_digit(#[trigger] h[i]) && !is_upper(
            h[i],
        ) by {
            assert(is_hex_digit(u.drop_first()[i - 1]));
            lemma_lower_char_hex(u[i]);
        }
    } else if u.len() == 6 && all_hex(u) {
        let h = seq!['#'] + lower(u);
        assert forall|i: int| 1 <= i < 7 implies is_hex_digit(#[trigger] h[i]) && !is_upper(
            h[i],
        ) by {
            assert(is_hex_digit(u[i - 1]));
            lemma_lower_char_hex(u[i - 1]);
        }
    }
}

/// Normalizing a normalized color gives it back.
pub proof fn lemma_hex_color_idempotent(value: Seq<char>)
    ensures
        hex_color(value) matches Some(h) ==> hex_color(h) == Some(h),
{
    lemma_hex_color_shape(value);
    if let Some(h) = hex_color(value) {
        assert(trim_start(h) == h);
        assert(trim_end(h) == h);
        assert(trim(h) == h);
        assert(unquoted(h) == h);
        assert(all_hex(h.drop_first()));
        assert forall|i: int| 0 <= i < 7 implies lower(h)[i] == h[i] by {
            if i > 0 {
                assert(!is_upper(h[i]));
            }
        }
        assert(lower(h) =~= h);
    }
}

fn hex_digit_value(c: char) -> (r: u8)
    requires
        is_hex_digit(c),
    ensures
        r == hex_val(c),
        r < 16,
{
    if '0' <= c && c <= '9' {
        ((c as u32) - ('0' as u32)) as u8
    } else if 'a' <= c && c <= 'f' {
        ((c as u32) - ('a' as u32) + 10) as u8
    } else {
        ((c as u32) - ('A' as u32) + 10) as u8
    }
}

/// The red, green and blue channels of a color.
pub fn parse_hex(hex: &str) -> (r: Result<(u8, u8, u8), String>)
    ensures
        match hex_color(hex@) {
            Some(h) => r == Ok::<(u8, u8, u8), String>(rgb_of(h)),
            None => r matches Err(e) && e@ == invalid_hex_message(hex@),
        },
{
    let normalized = match normalize_hex(hex) {
        Some(n) => n,
        None => {
            let mut e = String::new();
            push_str(&mut e, "Invalid hex color: ");
            push_str(&mut e, hex);
            assert(e@ =~= invalid_hex_message(hex@));
            return Err(e);
        },
    };
    proof {
        lemma_hex_color_shape(hex@);
    }
    let nv = chars_of(normalized.as_str());
    assert(nv@.len() == 7);
    assert(is_hex_digit(nv@[1]) && is_hex_digit(nv@[2]) && is_hex_digit(nv@[3]));
    assert(is_hex_digit(nv@[4]) && is_hex_digit(nv@[5]) && is_hex_digit(nv@[6]));
    let r = hex_digit_value(nv[1]) * 16 + hex_digit_value(nv[2]);
    let g = hex_digit_value(nv[3]) * 16 + hex_digit_value(nv[4]);
    let b = hex_digit_value(nv[5]) * 16 + hex_digit_value(nv[6]);
    Ok((r, g, b))
}

pub open spec fn hex_digit_char(d: int) -> char {
    if d < 10 {
        ('0' as int + d) as char
    } else {
        ('a' as int + d - 10) as char
    }
}

/// Two lower-case hex digits.
pub open spec fn hex2(x: u8) -> Seq<char> {
    seq![hex_digit_char(x as int / 16), hex_digit_char(x as int % 16)]
}

fn hex_digit(d: u8) -> (c: char)
    requires
        d < 16,
    ensures
        c == hex_digit_char(d as int),
{
    if d < 10 {
        (48u8 + d) as char
    } else {
        (87u8 + d) as char
    }
}

/// A channel as two lower-case hex digits.
pub fn to_hex_channel(value: u8) -> (r: String)
    ensures
        r@ == hex2(value),
{
    let mut s = String::new();
    string_push(&mut s, hex_digit(value / 16));
    string_push(&mut s, hex_digit(value % 16));
    assert(s@ =~= hex2(value));
    s
}

} // verus!

verus! {

pub open spec fn is_normalized(c: Seq<char>) -> bool {
    hex_color(c) == Some(c)
}

pub open spec fn opt_normalized(c: Option<Seq<char>>) -> bool {
    c matches Some(x) ==> is_normalized(x)
}

/// Every color held is a normalized `#rrggbb`.
pub open spec fn colors_normalized(p: ParsedModel) -> bool {
    &&& opt_normalized(p.background)
    &&& opt_normalized(p.foreground)
    &&& opt_normalized(p.selection_background)
    &&& opt_normalized(p.selection_foreground)
    &&& forall|k: u16| p.palette.dom().contains(k) ==> is_normalized(#[trigger] p.palette[k])
}

proof fn lemma_config_upto_normalized(ls: Seq<Seq<char>>, n: nat)
    requires
        n <= ls.len(),
    ensures
        colors_normalized(config_upto(ls, n)),
    decreases n,
{
    if n > 0 {
        lemma_config_upto_normalized(ls, (n - 1) as nat);
        let st = config_upto(ls, (n - 1) as nat);
        let line = trim(ls[n - 1]);
        if line.len() > 0 && line[0] != '#' {
            if let Some((k, v)) = split_once(line, '=') {
                let value = trim(v);
                lemma_hex_color_idempotent(value);
                if let Some((i, c)) = palette_entry(value) {
                    let (index, color) = split_once(value, '=')->0;
                    lemma_hex_color_idempotent(trim(color));
                    let p2 = st.palette.insert(i, c);
                    assert forall|key: u16| p2.dom().contains(key) implies is_normalized(
                        #[trigger] p2[key],
                    ) by {
                        if key != i {
                            assert(st.palette.dom().contains(key));
                        }
                    }
                }
            }
        }
    }
}

/// Every color that the configuration yields, palette entries included, is a
/// normalized lower-case `#rrggbb`.
pub proof fn lemma_ghostty_config_colors_normalized(output: Seq<char>)
    ensures
        colors_normalized(ghostty_config(output)),
{
    lemma_config_upto_normalized(lines(output), lines(output).len());
}

/// The snapshot of a configuration with both base colors, given whether the
/// background is light.
pub open spec fn snapshot_of(p: ParsedModel, is_light: bool) -> SnapshotModel {
    SnapshotModel {
        theme_spec: p.theme_spec,
        active_theme_name: selected_theme(p.theme_spec, is_light),
        background: p.background->0,
        foreground: p.foreground->0,
        selection_background: p.selection_background,
        selection_foreground: p.selection_foreground,
        palette: p.palette,
        is_light,
    }
}

/// The color snapshot of Ghostty's output, or none where it lacks a background
/// or a foreground color. Whether the background is light is left to
/// `is_light_rgb`, which is given its red, green and blue channels.
pub fn read_ghostty_snapshot<F: Fn(u8, u8, u8) -> bool>(output: &str, is_light_rgb: &F) -> (r:
    Result<Option<GhosttySnapshot>, String>)
    requires
        forall|x: u8, y: u8, z: u8| is_light_rgb.requires((x, y, z)),
    ensures
        ({
            let p = ghostty_config(output@);
            match r {
                Ok(None) => p.background is None || p.foreground is None,
                Ok(Some(s)) => {
                    &&& p.background is Some
                    &&& p.foreground is Some
                    &&& is_light_rgb.ensures(rgb_of(p.background->0), s.is_light)
                    &&& s@ == snapshot_of(p, s.is_light)
                },
                Err(_) => false,
            }
        }),
{
    let parsed = parse_ghostty_config(output);
    proof {
        lemma_ghostty_config_colors_normalized(output@);
    }
    let ParsedGhosttyConfig {
        theme_spec,
        background,
        foreground,
        selection_background,
        selection_foreground,
        palette,
    } = parsed;
    let background = match background {
        Some(b) => b,
        None => return Ok(None),
    };
    let foreground = match foreground {
        Some(f) => f,
        None => return Ok(None),
    };
    let (red, green, blue) = match parse_hex(background.as_str()) {
        Ok(c) => c,
        Err(e) => return Err(e),
    };
    let is_light = is_light_rgb(red, green, blue);
    let spec_str = match &theme_spec {
        Some(s) => Some(s.as_str()),
        None => None,
    };
    assert(opt_str_view(spec_str) == opt_string_view(theme_spec));
    let active_theme_name = select_theme_name(spec_str, is_light);
    Ok(
        Some(
            GhosttySnapshot {
                theme_spec,
                active_theme_name,
                background,
                foreground,
                selection_background,
                selection_foreground,
                palette,
                is_light,
            },
        ),
    )
}

} // verus!

verus! {

pub open spec fn digit_char(d: nat) -> char {
    ('0' as nat + d) as char
}

/// The decimal digits of `n`, without leading zeros.
pub open spec fn decimal(n: nat) -> Seq<char>
    decreases n,
{
    if n < 10 {
        seq![digit_char(n)]
    } else {
        decimal(n / 10).push(digit_char(n % 10))
    }
}

proof fn lemma_decimal(n: nat)
    ensures
        decimal(n).len() > 0,
        all_digits(decimal(n)),
        digits_value(decimal(n)) == n,
        decimal(n)[0] != '+',
    decreases n,
{
    let c = digit_char(n % 10);
    assert(c as int == '0' as int + n % 10);
    if n < 10 {
        let d = decimal(n);
        assert(d.drop_last() =~= Seq::<char>::empty());
        assert(digits_value(d) == digits_value(d.drop_last()) * 10 + (d.last() as int - '0' as int));
    } else {
        lemma_decimal(n / 10);
        let d = decimal(n);
        assert(d.drop_last() =~= decimal(n / 10));
        assert(digits_value(d) == digits_value(d.drop_last()) * 10 + (d.last() as int - '0' as int));
        assert(n == (n / 10) * 10 + n % 10) by (nonlinear_arith);
        assert forall|i: int| 0 <= i < d.len() implies is_digit(#[trigger] d[i]) by {
            if i < d.len() - 1 {
                assert(d[i] == decimal(n / 10)[i]);
            }
        }
        assert(d[0] == decimal(n / 10)[0]);
    }
}

/// Every index in range is accepted: a `u16` written in decimal parses back to itself.
pub proof fn lemma_parse_u16_decimal(n: u16)
    ensures
        parse_u16(decimal(n as nat)) == Some(n),
{
    lemma_decimal(n as nat);
}

/// `palette = N=COLOR` with any index `N` in `0..=65535` and a valid color
/// yields entry `N` with the normalized color, whatever the spaces around
/// either part.
pub proof fn lemma_palette_entry_accepts_every_index(
    n: u16,
    color: Seq<char>,
    pre: Seq<char>,
    mid: Seq<char>,
)
    requires
        hex_color(color) is Some,
        forall|i: int| 0 <= i < pre.len() ==> is_ws(#[trigger] pre[i]),
        forall|i: int| 0 <= i < mid.len() ==> is_ws(#[trigger] mid[i]),
    ensures
        palette_entry(pre + decimal(n as nat) + mid + seq!['='] + color) == Some(
            (n, hex_color(color)->0),
        ),
{
    lemma_decimal(n as nat);
    let d = decimal(n as nat);
    let idx = pre + d + mid;
    let s = idx + seq!['='] + color;
    assert forall|k: int| 0 <= k < idx.len() implies idx[k] != '=' by {
        if k < pre.len() {
            assert(is_ws(pre[k]));
        } else if k < pre.len() + d.len() {
            assert(is_digit(d[k - pre.len()]));
        } else {
            assert(is_ws(mid[k - pre.len() - d.len()]));
        }
    }
    lemma_first_index(s, '=', idx.len() as int);
    assert(s.take(idx.len() as int) =~= idx);
    assert(s.skip(idx.len() as int + 1) =~= color);
    lemma_trim_around(pre, d, mid);
    lemma_trim_idempotent(color);
}

proof fn lemma_trim_around(pre: Seq<char>, d: Seq<char>, mid: Seq<char>)
    requires
        d.len() > 0,
        !is_ws(d[0]),
        !is_ws(d.last()),
        forall|i: int| 0 <= i < pre.len() ==> is_ws(#[trigger] pre[i]),
        forall|i: int| 0 <= i < mid.len() ==> is_ws(#[trigger] mid[i]),
    ensures
        trim(pre + d + mid) == d,
    decreases pre.len() + mid.len(),
{
    let s = pre + d + mid;
    if pre.len() > 0 {
        assert(s[0] == pre[0]);
        let pre2 = pre.drop_first();
        assert forall|i: int| 0 <= i < pre2.len() implies is_ws(#[trigger] pre2[i]) by {
            assert(pre2[i] == pre[i + 1]);
        }
        assert(s.drop_first() =~= pre2 + d + mid);
        lemma_trim_around(pre2, d, mid);
        assert(trim_start(s) == trim_start(pre2 + d + mid));
    } else if mid.len() > 0 {
        assert(s =~= d + mid);
        assert(s[0] == d[0]);
        assert(trim_start(s) == s);
        lemma_trim_end_suffix(d, mid);
    } else {
        assert(s =~= d);
        assert(trim_start(d) == d);
        assert(trim_end(d) == d);
    }
}

proof fn lemma_trim_end_suffix(d: Seq<char>, mid: Seq<char>)
    requires
        d.len() > 0,
        !is_ws(d.last()),
        forall|i: int| 0 <= i < mid.len() ==> is_ws(#[trigger] mid[i]),
    ensures
        trim_end(d + mid) == d,
    decreases mid.len(),
{
    if mid.len() > 0 {
        let m2 = mid.drop_last();
        assert((d + mid).last() == mid.last());
        assert(is_ws(mid[mid.len() - 1]));
        assert((d + mid).drop_last() =~= d + m2);
        assert forall|i: int| 0 <= i < m2.len() implies is_ws(#[trigger] m2[i]) by {
            assert(m2[i] == mid[i]);
        }
        lemma_trim_end_suffix(d, m2);
    } else {
        assert(d + mid =~= d);
    }
}

proof fn lemma_key_value_line(key: Seq<char>, value: Seq<char>)
    requires
        key.len() > 0,
        !is_ws(key[0]),
        !is_ws(key.last()),
        forall|i: int| 0 <= i < key.len() ==> #[trigger] key[i] != '=',
        value.len() > 0,
        !is_ws(value[0]),
        !is_ws(value.last()),
    ensures
        split_once(trim(key + seq![' ', '=', ' '] + value), '=') == Some(
            (key + seq![' '], seq![' '] + value),
        ),
        trim(key + seq![' ']) == key,
        trim(seq![' '] + value) == value,
{
    let line = key + seq![' ', '=', ' '] + value;
    let e = Seq::<char>::empty();
    assert(is_ws(' '));
    assert(line[0] == key[0]);
    assert(line.last() == value.last());
    lemma_trim_around(e, line, e);
    assert(e + line + e =~= line);
    assert forall|k: int| 0 <= k < key.len() + 1 implies line[k] != '=' by {
        if k < key.len() {
            assert(line[k] == key[k]);
        }
    }
    let n = key.len() as int;
    assert(line[n + 1] == '=');
    lemma_first_index(line, '=', n + 1);
    assert(line.take(n + 1) =~= key + seq![' ']);
    assert(line.skip(n + 2) =~= seq![' '] + value);
    assert forall|i: int| 0 <= i < 1 implies is_ws(#[trigger] seq![' '][i]) by {}
    lemma_trim_around(e, key, seq![' ']);
    assert(e + key + seq![' '] =~= key + seq![' ']);
    lemma_trim_around(seq![' '], value, e);
    assert(seq![' '] + value + e =~= seq![' '] + value);
}

/// A `key = value` line of `+show-config` output sets the setting of its key
/// and no other: the theme spec to the value unquoted, a color to the
/// normalized color where the value is one (else the color stays as it was),
/// and a palette entry to its color.
pub proof fn lemma_config_line_sets_its_field(st: ParsedModel, value: Seq<char>)
    requires
        value.len() > 0,
        !is_ws(value[0]),
        !is_ws(value.last()),
    ensures
        config_step(st, "theme = "@ + value) == (ParsedModel { theme_spec: Some(unquoted(value)), ..st }),
        config_step(st, "background = "@ + value) == (ParsedModel {
            background: or_keep(st.background, hex_color(value)),
            ..st
        }),
        config_step(st, "foreground = "@ + value) == (ParsedModel {
            foreground: or_keep(st.foreground, hex_color(value)),
            ..st
        }),
        config_step(st, "selection-background = "@ + value) == (ParsedModel {
            selection_background: or_keep(st.selection_background, hex_color(value)),
            ..st
        }),
        config_step(st, "selection-foreground = "@ + value) == (ParsedModel {
            selection_foreground: or_keep(st.selection_foreground, hex_color(value)),
            ..st
        }),
        palette_entry(value) matches Some((i, c)) ==> config_step(st, "palette = "@ + value) == (
        ParsedModel { palette: st.palette.insert(i, c), ..st }),
        palette_entry(value) is None ==> config_step(st, "palette = "@ + value) == st,
{
    reveal_strlit("theme");
    reveal_strlit("background");
    reveal_strlit("foreground");
    reveal_strlit("selection-background");
    reveal_strlit("selection-foreground");
    reveal_strlit("palette");
    reveal_strlit("theme = ");
    reveal_strlit("background = ");
    reveal_strlit("foreground = ");
    reveal_strlit("selection-background = ");
    reveal_strlit("selection-foreground = ");
    reveal_strlit("palette = ");
    let sep = seq![' ', '=', ' '];
    lemma_key_value_line("theme"@, value);
    assert("theme = "@ + value =~= "theme"@ + sep + value);
    lemma_key_value_line("background"@, value);
    assert("background = "@ + value =~= "background"@ + sep + value);
    lemma_key_value_line("foreground"@, value);
    assert("foreground = "@ + value =~= "foreground"@ + sep + value);
    lemma_key_value_line("selection-background"@, value);
    assert("selection-background = "@ + value =~= "selection-background"@ + sep + value);
    lemma_key_value_line("selection-foreground"@, value);
    assert("selection-foreground = "@ + value =~= "selection-foreground"@ + sep + value);
    lemma_key_value_line("palette"@, value);
    assert("palette = "@ + value =~= "palette"@ + sep + value);
    assert("selection-background"@[10] != "selection-foreground"@[10]);
    assert("selection-background"@ != "selection-foreground"@);
    assert("background"@[0] != "foreground"@[0]);
    assert("background"@ != "foreground"@);
}

/// Blank lines, comments and lines without `=` change nothing.
pub proof fn lemma_config_skips_other_lines(st: ParsedModel, line: Seq<char>)
    requires
        trim(line).len() == 0 || trim(line)[0] == '#' || !trim(line).contains('='),
    ensures
        config_step(st, line) == st,
{
    let l = trim(line);
    if l.len() > 0 && l[0] != '#' {
        lemma_first_index(l, '=', l.len() as int);
    }
}

proof fn lemma_line_split_tail(p: Seq<char>, y: Seq<char>)
    requires
        !y.contains('\n'),
    ensures
        line_split(p + y) == (line_split(p).0, line_split(p).1 + y),
    decreases y.len(),
{
    if y.len() > 0 {
        let y2 = y.drop_last();
        assert(!y2.contains('\n')) by {
            if y2.contains('\n') {
                let k = choose|k: int| 0 <= k < y2.len() && y2[k] == '\n';
                assert(y[k] == '\n');
            }
        }
        lemma_line_split_tail(p, y2);
        assert((p + y).drop_last() =~= p + y2);
        assert((p + y).last() == y.last());
        assert(y.contains(y.last()));
        assert((line_split(p).1 + y2).push(y.last()) =~= line_split(p).1 + y);
    } else {
        assert(p + y =~= p);
        assert(line_split(p).1 + y =~= line_split(p).1);
    }
}

proof fn lemma_config_upto_prefix(ls: Seq<Seq<char>>, x: Seq<char>, n: nat)
    requires
        n <= ls.len(),
    ensures
        config_upto(ls.push(x), n) == config_upto(ls, n),
    decreases n,
{
    if n > 0 {
        lemma_config_upto_prefix(ls, x, (n - 1) as nat);
        assert(ls.push(x)[n - 1] == ls[n - 1]);
    }
}

/// The output is read line by line, in order: a line added at the end of
/// complete lines is applied after all of them.
pub proof fn lemma_config_reads_lines_in_order(out: Seq<char>, line: Seq<char>)
    requires
        out.len() == 0 || out.last() == '\n',
        !line.contains('\n'),
        line.len() == 0 || line.last() != '\r',
    ensures
        ghostty_config(out + line + seq!['\n']) == config_step(ghostty_config(out), line),
{
    let (done, cur) = line_split(out);
    assert(cur.len() == 0);
    lemma_line_split_tail(out, line);
    assert(cur + line =~= line);
    let s = out + line + seq!['\n'];
    assert(s.drop_last() =~= out + line);
    assert(strip_cr(line) == line);
    assert(line_split(s) == (done.push(line), Seq::<char>::empty()));
    assert(lines(s) == done.push(line));
    assert(lines(out) == done);
    lemma_config_upto_prefix(done, line, done.len());
    assert(done.push(line)[done.len() as int] == line);
}

/// A name without surrounding space and without a comma.
pub open spec fn plain_name(n: Seq<char>) -> bool {
    &&& n.len() > 0
    &&& !is_ws(n[0])
    &&& !is_ws(n.last())
    &&& forall|i: int| 0 <= i < n.len() ==> #[trigger] n[i] != ','
}

proof fn lemma_split_fold_none(x: Seq<char>, c: char)
    requires
        forall|i: int| 0 <= i < x.len() ==> #[trigger] x[i] != c,
    ensures
        split_fold(x, c) == (Seq::<Seq<char>>::empty(), x),
    decreases x.len(),
{
    if x.len() > 0 {
        let p = x.drop_last();
        assert forall|i: int| 0 <= i < p.len() implies #[trigger] p[i] != c by {
            assert(p[i] == x[i]);
        }
        lemma_split_fold_none(p, c);
        assert(p.push(x.last()) =~= x);
    } else {
        assert(x =~= Seq::<char>::empty());
    }
}

proof fn lemma_split_fold_tail(p: Seq<char>, y: Seq<char>, c: char)
    requires
        forall|i: int| 0 <= i < y.len() ==> #[trigger] y[i] != c,
    ensures
        split_fold(p + y, c) == (split_fold(p, c).0, split_fold(p, c).1 + y),
    decreases y.len(),
{
    if y.len() > 0 {
        let y2 = y.drop_last();
        assert forall|i: int| 0 <= i < y2.len() implies #[trigger] y2[i] != c by {
            assert(y2[i] == y[i]);
        }
        lemma_split_fold_tail(p, y2, c);
        assert((p + y).drop_last() =~= p + y2);
        assert((p + y).last() == y.last());
        assert((split_fold(p, c).1 + y2).push(y.last()) =~= split_fold(p, c).1 + y);
    } else {
        assert(p + y =~= p);
        assert(split_fold(p, c).1 + y =~= split_fold(p, c).1);
    }
}

proof fn lemma_split_two(x: Seq<char>, y: Seq<char>, c: char)
    requires
        forall|i: int| 0 <= i < x.len() ==> #[trigger] x[i] != c,
        forall|i: int| 0 <= i < y.len() ==> #[trigger] y[i] != c,
    ensures
        split(x + seq![c] + y, c) == seq![x, y],
{
    lemma_split_fold_none(x, c);
    let xc = x + seq![c];
    assert(xc.drop_last() =~= x);
    assert(split_fold(xc, c) == (seq![x], Seq::<char>::empty()));
    lemma_split_fold_tail(xc, y, c);
    assert(Seq::<char>::empty() + y =~= y);
    assert(seq![x].push(y) =~= seq![x, y]);
}

/// `mode:name` with a mode of letters without a colon is split at the colon
/// after the mode.
proof fn lemma_mode_part(mode: Seq<char>, name: Seq<char>)
    requires
        mode.len() > 0,
        forall|i: int| 0 <= i < mode.len() ==> 'a' <= #[trigger] mode[i] <= 'z',
        plain_name(name),
    ensures
        split_once(mode + seq![':'] + name, ':') == Some((mode, name)),
        trim(mode + seq![':'] + name) == mode + seq![':'] + name,
        trim(mode) == mode,
        lower(mode) == mode,
        trim(name) == name,
{
    let s = mode + seq![':'] + name;
    let e = Seq::<char>::empty();
    let n = mode.len() as int;
    assert forall|k: int| 0 <= k < n implies s[k] != ':' by {
        assert(s[k] == mode[k]);
    }
    assert(s[n] == ':');
    lemma_first_index(s, ':', n);
    assert(s.take(n) =~= mode);
    assert(s.skip(n + 1) =~= name);
    assert(s[0] == mode[0]);
    assert(s.last() == name.last());
    assert(!is_ws(mode[0]));
    lemma_trim_around(e, s, e);
    assert(e + s + e =~= s);
    assert(!is_ws(mode.last()));
    lemma_trim_around(e, mode, e);
    assert(e + mode + e =~= mode);
    lemma_trim_around(e, name, e);
    assert(e + name + e =~= name);
    assert(lower(mode) =~= mode);
}

/// Of a light and a dark theme named as `light:A,dark:B`, the one that
/// matches the background is active; a single theme named alone is active
/// whatever the background.
pub proof fn lemma_theme_pair_follows_background(a: Seq<char>, b: Seq<char>, is_light: bool)
    requires
        plain_name(a),
        plain_name(b),
    ensures
        selected_theme(Some("light:"@ + a + ","@ + "dark:"@ + b), is_light) == Some(
            if is_light {
                a
            } else {
                b
            },
        ),
        (forall|i: int| 0 <= i < a.len() ==> #[trigger] a[i] != ':') ==> selected_theme(
            Some(a),
            is_light,
        ) == Some(a),
{
    reveal_strlit("light:");
    reveal_strlit("dark:");
    reveal_strlit(",");
    reveal_strlit("light");
    reveal_strlit("dark");
    let l = "light"@;
    let d = "dark"@;
    let x = l + seq![':'] + a;
    let y = d + seq![':'] + b;
    assert("light:"@ + a + ","@ + "dark:"@ + b =~= x + seq![','] + y);
    assert forall|i: int| 0 <= i < x.len() implies #[trigger] x[i] != ',' by {
        if i > l.len() {
            assert(x[i] == a[i - l.len() - 1]);
        }
    }
    assert forall|i: int| 0 <= i < y.len() implies #[trigger] y[i] != ',' by {
        if i > d.len() {
            assert(y[i] == b[i - d.len() - 1]);
        }
    }
    lemma_split_two(x, y, ',');
    lemma_mode_part(l, a);
    lemma_mode_part(d, b);
    let pieces = seq![x, y];
    assert(pieces.drop_last() =~= seq![x]);
    assert(seq![x].drop_last() =~= Seq::<Seq<char>>::empty());
    assert(theme_parts_of(Seq::<Seq<char>>::empty()) == Seq::<Seq<char>>::empty());
    assert(seq![x].last() == x);
    assert(trim(x).len() > 0);
    assert(theme_parts_of(seq![x]) =~= seq![x]);
    assert(pieces.last() == y);
    assert(theme_parts_of(pieces) =~= seq![x, y]);
    let parts = seq![x, y];
    assert(parts[0] == x);
    assert(parts[1] == y);
    assert(themes_upto(parts, 0) == (None::<Seq<char>>, None::<Seq<char>>, None::<Seq<char>>));
    assert(lower(trim(l)) == l);
    assert(theme_step((None, None, None), x) == (None::<Seq<char>>, Some(a), None::<Seq<char>>));
    assert(themes_upto(parts, 1) == (None::<Seq<char>>, Some(a), None::<Seq<char>>));
    assert(d != l);
    assert(themes_upto(parts, 2) == (None::<Seq<char>>, Some(a), Some(b)));
    if forall|i: int| 0 <= i < a.len() ==> #[trigger] a[i] != ':' {
        lemma_split_fold_none(a, ',');
        assert(split(a, ',') =~= seq![a]);
        let e = Seq::<char>::empty();
        lemma_trim_around(e, a, e);
        assert(e + a + e =~= a);
        assert(seq![a].drop_last() =~= Seq::<Seq<char>>::empty());
        assert(theme_parts_of(Seq::<Seq<char>>::empty()) == Seq::<Seq<char>>::empty());
        assert(seq![a].last() == a);
        assert(theme_parts_of(seq![a]) =~= seq![a]);
        assert(seq![a][0] == a);
        assert(themes_upto(seq![a], 0) == (None::<Seq<char>>, None::<Seq<char>>, None::<Seq<char>>));
        lemma_first_index(a, ':', a.len() as int);
        assert(themes_upto(seq![a], 1) == (Some(a), None::<Seq<char>>, None::<Seq<char>>));
    }
}

} // verus!
