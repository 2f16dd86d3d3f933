//! Theme data: the status badges of the file list, the bundled theme
//! names and sources, and the reader for theme files (a small YAML subset
//! with hexadecimal colours).

use vstd::prelude::*;

use crate::git_model::{find_char, find_char_in, first_from};
use crate::text::{
    chars_of, char_utf8_len, has_prefix, lemma_utf8_len_bounds, lemma_utf8_len_subrange, push_str_chars,
    slice_chars, starts_with, string_of, trim, trimmed, utf8_len, utf8_len_of, decimal, spec_lines,
    trim_end, trim_start, trim_end_index, trim_bounds, lemma_utf8_len_concat, append_chars, views,
    lines_of, lemma_lines_utf8_len, push_decimal, utf8_len_fits, is_ws, occurs_at,
};

verus! {

broadcast use vstd::string::group_string_axioms;

/// The index letter `x` and work-tree letter `y` of a status pair; a
/// missing letter counts as a space.
pub open spec fn status_letters(xy: Seq<char>) -> (char, char) {
    (if xy.len() > 0 { xy[0] } else { ' ' }, if xy.len() > 1 { xy[1] } else { ' ' })
}

/// The badge letter shown for a status pair: `?` for untracked files, the
/// index letter when it is set, the work-tree letter otherwise.
pub open spec fn spec_badge_char(xy: Seq<char>) -> char {
    let (x, y) = status_letters(xy);
    if x == '?' && y == '?' {
        '?'
    } else if x != ' ' && x != '?' {
        x
    } else {
        y
    }
}

/// The letter that picks a badge's colour: the index letter when it is set
/// (neither space nor `?`), the work-tree letter otherwise.
pub open spec fn spec_badge_color_key(xy: Seq<char>) -> char {
    let (x, y) = status_letters(xy);
    if x != ' ' && x != '?' {
        x
    } else {
        y
    }
}

/// The two status letters of `xy`.
fn letters_of(xy: &str) -> (r: (char, char))
    ensures
        r == status_letters(xy@),
{
    let v = chars_of(xy);
    let x = if v.len() > 0 {
        v[0]
    } else {
        ' '
    };
    let y = if v.len() > 1 {
        v[1]
    } else {
        ' '
    };
    (x, y)
}

/// The badge letter shown for a status pair.
pub fn badge_char_for_status(xy: &str) -> (c: char)
    ensures
        c == spec_badge_char(xy@),
{
    let (x, y) = letters_of(xy);
    if x == '?' && y == '?' {
        return '?';
    }
    if x != ' ' && x != '?' {
        return x;
    }
    y
}

/// The letter that picks the colour of a status pair's badge.
pub fn badge_color_key_for_status(xy: &str) -> (c: char)
    ensures
        c == spec_badge_color_key(xy@),
{
    let (x, y) = letters_of(xy);
    if x != ' ' && x != '?' {
        x
    } else {
        y
    }
}

// ─────────────────────────────────────────────────────────────────
//  Bundled themes
// ─────────────────────────────────────────────────────────────────

/// The bundled themes.
#[derive(Clone, Copy, Debug, PartialEq, Eq, Structural)]
pub enum BundledTheme {
    Midnight,
    GruvboxDark,
    VercelDark,
    Dracula,
}

/// `s` with ASCII letters in lower case, as `str::to_ascii_lowercase`
/// gives it.
pub open spec fn ascii_lower(s: Seq<char>) -> Seq<char> {
    s.map_values(|c: char| lower_char(c))
}

/// `c` in lower case when it is an ASCII capital letter.
pub open spec fn lower_char(c: char) -> char {
    if 'A' <= c <= 'Z' {
        ((c as u32) + 32) as char
    } else {
        c
    }
}

/// The bundled theme a name selects, compared without regard to ASCII
/// case: `midnight`, `default` or `dark`; `gruvbox`, `gruvbox dark` or
/// `gruvbox-dark`; `vercel`, `vercel dark` or `vercel-dark`; `dracula`.
pub open spec fn spec_bundled(name: Seq<char>) -> Option<BundledTheme> {
    let n = ascii_lower(name);
    if n == "midnight"@ || n == "default"@ || n == "dark"@ {
        Some(BundledTheme::Midnight)
    } else if n == "gruvbox"@ || n == "gruvbox dark"@ || n == "gruvbox-dark"@ {
        Some(BundledTheme::GruvboxDark)
    } else if n == "vercel"@ || n == "vercel dark"@ || n == "vercel-dark"@ {
        Some(BundledTheme::VercelDark)
    } else if n == "dracula"@ {
        Some(BundledTheme::Dracula)
    } else {
        None
    }
}

/// `v` with ASCII letters in lower case.
pub fn lower_chars(v: &Vec<char>) -> (r: Vec<char>)
    ensures
        r@ == ascii_lower(v@),
{
    let mut r: Vec<char> = Vec::new();
    let mut i: usize = 0;
    while i < v.len()
        invariant
            i <= v.len(),
            r@ == ascii_lower(v@.take(i as int)),
        decreases v.len() - i,
    {
        let c = v[i];
        let l = if 'A' <= c && c <= 'Z' {
            ((c as u8) + 32) as char
        } else {
            c
        };
        r.push(l);
        i += 1;
        assert(r@ =~= ascii_lower(v@.take(i as int)));
    }
    assert(v@.take(v.len() as int) =~= v@);
    r
}

/// Whether `v` is exactly `s`.
fn chars_eq(v: &Vec<char>, s: &str) -> (b: bool)
    ensures
        b == (v@ == s@),
{
    let w = chars_of(s);
    if v.len() != w.len() {
        return false;
    }
    let mut i: usize = 0;
    while i < v.len()
        invariant
            i <= v.len() == w.len(),
            w@ == s@,
            forall|j: int| 0 <= j < i ==> v@[j] == w@[j],
        decreases v.len() - i,
    {
        if v[i] != w[i] {
            return false;
        }
        i += 1;
    }
    assert(v@ =~= w@);
    true
}

/// Resolves a theme name to a bundled theme.
pub fn bundled(name: &str) -> (r: Option<BundledTheme>)
    ensures
        r == spec_bundled(name@),
{
    let n = lower_chars(&chars_of(name));
    if chars_eq(&n, "midnight") || chars_eq(&n, "default") || chars_eq(&n, "dark") {
        Some(BundledTheme::Midnight)
    } else if chars_eq(&n, "gruvbox") || chars_eq(&n, "gruvbox dark") || chars_eq(&n, "gruvbox-dark") {
        Some(BundledTheme::GruvboxDark)
    } else if chars_eq(&n, "vercel") || chars_eq(&n, "vercel dark") || chars_eq(&n, "vercel-dark") {
        Some(BundledTheme::VercelDark)
    } else if chars_eq(&n, "dracula") {
        Some(BundledTheme::Dracula)
    } else {
        None
    }
}

/// Every bundled theme's listed name resolves to that theme.
proof fn lemma_bundled_names_resolve()
    ensures
        spec_bundled("Midnight"@) == Some(BundledTheme::Midnight),
        spec_bundled("Gruvbox Dark"@) == Some(BundledTheme::GruvboxDark),
        spec_bundled("Vercel"@) == Some(BundledTheme::VercelDark),
        spec_bundled("Dracula"@) == Some(BundledTheme::Dracula),
{
    reveal_strlit("Midnight");
    reveal_strlit("Gruvbox Dark");
    reveal_strlit("Vercel");
    reveal_strlit("Dracula");
    reveal_strlit("midnight");
    reveal_strlit("default");
    reveal_strlit("dark");
    reveal_strlit("gruvbox");
    reveal_strlit("gruvbox dark");
    reveal_strlit("gruvbox-dark");
    reveal_strlit("vercel");
    reveal_strlit("vercel dark");
    reveal_strlit("vercel-dark");
    reveal_strlit("dracula");
    assert(ascii_lower("Midnight"@) =~= "midnight"@);
    assert(ascii_lower("Gruvbox Dark"@) =~= "gruvbox dark"@);
    assert(ascii_lower("Vercel"@) =~= "vercel"@);
    assert(ascii_lower("Dracula"@) =~= "dracula"@);
    assert("gruvbox dark"@.len() == 12 && "gruvbox-dark"@.len() == 12);
    assert("gruvbox dark"@[7] != "gruvbox-dark"@[7]);
    assert("gruvbox dark"@ != "gruvbox-dark"@);
    assert("dracula"@.len() == 7 && "default"@.len() == 7);
    assert("dracula"@[1] != "default"@[1]);
    assert("dracula"@ != "default"@);
    assert("gruvbox"@.len() == 7 && "dracula"@[0] != "gruvbox"@[0]);
    assert("dracula"@ != "gruvbox"@);
}

/// Names of every bundled theme.
pub fn bundled_names() -> (r: Vec<&'static str>)
    ensures
        r@.len() == 4,
        r@[0]@ == "Midnight"@,
        r@[1]@ == "Gruvbox Dark"@,
        r@[2]@ == "Vercel"@,
        r@[3]@ == "Dracula"@,
        spec_bundled(r@[0]@) == Some(BundledTheme::Midnight),
        spec_bundled(r@[1]@) == Some(BundledTheme::GruvboxDark),
        spec_bundled(r@[2]@) == Some(BundledTheme::VercelDark),
        spec_bundled(r@[3]@) == Some(BundledTheme::Dracula),
{
    proof {
        lemma_bundled_names_resolve();
    }
    let mut r: Vec<&'static str> = Vec::new();
    r.push("Midnight");
    r.push("Gruvbox Dark");
    r.push("Vercel");
    r.push("Dracula");
    r
}

// ─────────────────────────────────────────────────────────────────
//  Theme files
// ─────────────────────────────────────────────────────────────────

/// An RGB colour with 8-bit channels.
#[derive(Clone, Copy, Debug, PartialEq, Eq, Structural)]
pub struct Rgb {
    pub r: u8,
    pub g: u8,
    pub b: u8,
}

/// Black.
pub open spec fn black() -> Rgb {
    Rgb { r: 0, g: 0, b: 0 }
}

/// The eight ANSI colours of one intensity.
#[derive(Clone, Copy, Debug, PartialEq, Eq, Structural)]
pub struct AnsiColors {
    pub black: Rgb,
    pub red: Rgb,
    pub green: Rgb,
    pub yellow: Rgb,
    pub blue: Rgb,
    pub magenta: Rgb,
    pub cyan: Rgb,
    pub white: Rgb,
}

/// All eight colours black.
pub open spec fn ansi_black() -> AnsiColors {
    AnsiColors {
        black: black(),
        red: black(),
        green: black(),
        yellow: black(),
        blue: black(),
        magenta: black(),
        cyan: black(),
        white: black(),
    }
}

/// The settings a theme file gives: four base colours, whether chrome
/// details are darker than the background, and sixteen ANSI colours.
#[derive(Clone, Debug)]
pub struct ThemeYaml {
    pub name: String,
    pub accent: Rgb,
    pub background: Rgb,
    pub foreground: Rgb,
    /// true = "darker" (chrome details darker than bg); false = "lighter".
    pub details_darker: bool,
    pub normal: AnsiColors,
    pub bright: AnsiColors,
}

/// The plain value of a theme: name, accent, background, foreground,
/// details-darker flag, normal and bright ANSI colours.
pub type ThemeView = (Seq<char>, Rgb, Rgb, Rgb, bool, AnsiColors, AnsiColors);

/// The plain value of a theme.
pub open spec fn theme_view(t: ThemeYaml) -> ThemeView {
    (t.name@, t.accent, t.background, t.foreground, t.details_darker, t.normal, t.bright)
}

/// The theme before a file is read: no name, all colours black, details
/// darker.
pub open spec fn initial_theme() -> ThemeView {
    (seq![], black(), black(), black(), true, ansi_black(), ansi_black())
}

/// Why an integer did not parse.
#[derive(Clone, Copy, Debug, PartialEq, Eq, Structural)]
pub enum IntErrorKind {
    Empty,
    InvalidDigit,
    PosOverflow,
}

/// The message that Rust's `ParseIntError` displays for each kind.
pub open spec fn int_error_text(k: IntErrorKind) -> Seq<char> {
    match k {
        IntErrorKind::Empty => "cannot parse integer from empty string"@,
        IntErrorKind::InvalidDigit => "invalid digit found in string"@,
        IntErrorKind::PosOverflow => "number too large to fit in target type"@,
    }
}

/// The message for an integer parse error.
fn int_error_message(k: IntErrorKind) -> (s: &'static str)
    ensures
        s@ == int_error_text(k),
{
    match k {
        IntErrorKind::Empty => "cannot parse integer from empty string",
        IntErrorKind::InvalidDigit => "invalid digit found in string",
        IntErrorKind::PosOverflow => "number too large to fit in target type",
    }
}

/// The value of the hexadecimal digit `c`.
pub open spec fn hex_digit(c: char) -> Option<nat> {
    if '0' <= c <= '9' {
        Some((c as u32 - '0' as u32) as nat)
    } else if 'a' <= c <= 'f' {
        Some((c as u32 - 'a' as u32 + 10) as nat)
    } else if 'A' <= c <= 'F' {
        Some((c as u32 - 'A' as u32 + 10) as nat)
    } else {
        None
    }
}

/// Reading the first `n` hexadecimal digits of `ds` into a byte: the first
/// non-digit is an invalid digit; a value past 255 overflows.
pub open spec fn hex_scan(ds: Seq<char>, n: nat) -> Result<nat, IntErrorKind>
    decreases n,
{
    if n == 0 || n > ds.len() {
        Ok(0)
    } else {
        match hex_scan(ds, (n - 1) as nat) {
            Err(e) => Err(e),
            Ok(v) => match hex_digit(ds[n - 1]) {
                None => Err(IntErrorKind::InvalidDigit),
                Some(d) => if v * 16 + d > 255 {
                    Err(IntErrorKind::PosOverflow)
                } else {
                    Ok(v * 16 + d)
                },
            },
        }
    }
}

/// `u8::from_str_radix(s, 16)`: an optional `+`, then hexadecimal digits.
pub open spec fn spec_hex_u8(s: Seq<char>) -> Result<nat, IntErrorKind> {
    if s.len() == 0 {
        Err(IntErrorKind::Empty)
    } else if s.len() == 1 && (s[0] == '+' || s[0] == '-') {
        Err(IntErrorKind::InvalidDigit)
    } else {
        let ds = if s[0] == '+' {
            s.drop_first()
        } else {
            s
        };
        hex_scan(ds, ds.len())
    }
}

proof fn lemma_hex_scan_bound(ds: Seq<char>, n: nat)
    ensures
        hex_scan(ds, n) matches Ok(v) ==> v <= 255,
    decreases n,
{
    if n > 0 && n <= ds.len() {
        lemma_hex_scan_bound(ds, (n - 1) as nat);
    }
}

/// The value of the hexadecimal digit `c`.
fn hex_digit_of(c: char) -> (r: Option<u32>)
    ensures
        match hex_digit(c) {
            Some(d) => r == Some(d as u32),
            None => r is None,
        },
{
    if '0' <= c && c <= '9' {
        Some(c as u32 - '0' as u32)
    } else if 'a' <= c && c <= 'f' {
        Some(c as u32 - 'a' as u32 + 10)
    } else if 'A' <= c && c <= 'F' {
        Some(c as u32 - 'A' as u32 + 10)
    } else {
        None
    }
}

/// Parses `s` as a byte in hexadecimal.
fn hex_u8(s: &Vec<char>) -> (r: Result<u8, IntErrorKind>)
    ensures
        match spec_hex_u8(s@) {
            Ok(n) => r == Ok::<u8, IntErrorKind>(n as u8) && n <= 255,
            Err(e) => r == Err::<u8, IntErrorKind>(e),
        },
{
    if s.len() == 0 {
        return Err(IntErrorKind::Empty);
    }
    if s.len() == 1 && (s[0] == '+' || s[0] == '-') {
        return Err(IntErrorKind::InvalidDigit);
    }
    let start: usize = if s[0] == '+' {
        1
    } else {
        0
    };
    let ghost ds = if s@[0] == '+' {
        s@.drop_first()
    } else {
        s@
    };
    assert(ds =~= s@.subrange(start as int, s@.len() as int));
    let mut v: u32 = 0;
    let mut i = start;
    while i < s.len()
        invariant
            start <= i <= s.len(),
            ds == s@.subrange(start as int, s@.len() as int),
            spec_hex_u8(s@) == hex_scan(ds, ds.len()),
            hex_scan(ds, (i - start) as nat) == Ok::<nat, IntErrorKind>(v as nat),
            v <= 255,
        decreases s.len() - i,
    {
        assert(ds[i - start] == s@[i as int]);
        match hex_digit_of(s[i]) {
            None => {
                proof {
                    lemma_hex_scan_err(ds, (i - start + 1) as nat);
                }
                return Err(IntErrorKind::InvalidDigit);
            },
            Some(d) => {
                if v * 16 + d > 255 {
                    proof {
                        lemma_hex_scan_err(ds, (i - start + 1) as nat);
                    }
                    return Err(IntErrorKind::PosOverflow);
                }
                v = v * 16 + d;
            },
        }
        i += 1;
    }
    assert(ds.len() == s.len() - start);
    Ok(v as u8)
}

/// Once reading digits fails, reading more of them fails the same way.
proof fn lemma_hex_scan_err(ds: Seq<char>, n: nat)
    requires
        n <= ds.len(),
        hex_scan(ds, n) is Err,
    ensures
        hex_scan(ds, ds.len()) == hex_scan(ds, n),
    decreases ds.len() - n,
{
    if n < ds.len() {
        assert(hex_scan(ds, n + 1) == hex_scan(ds, n));
        lemma_hex_scan_err(ds, n + 1);
    }
}

/// `t` without a leading `#`, `0x` or `0X`.
pub open spec fn hex_body(t: Seq<char>) -> Seq<char> {
    if has_prefix(t, "#"@) {
        t.skip(1)
    } else if has_prefix(t, "0x"@) {
        t.skip(2)
    } else if has_prefix(t, "0X"@) {
        t.skip(2)
    } else {
        t
    }
}

/// The first `j >= i` at which `b.take(j)` is `k` bytes long, or -1.
pub open spec fn boundary_from(b: Seq<char>, k: nat, i: int) -> int
    decreases b.len() + 1 - i,
{
    if i < 0 || i > b.len() {
        -1
    } else if utf8_len(b.take(i)) == k {
        i
    } else {
        boundary_from(b, k, i + 1)
    }
}

/// The character index at which byte `k` of `b` starts a character, or -1
/// when byte `k` falls inside one.
pub open spec fn byte_boundary(b: Seq<char>, k: nat) -> int {
    boundary_from(b, k, 0)
}

/// Reading `s` as a hex colour panics: a six-byte body that cannot be cut
/// at bytes 2 and 4, or a three-byte body of fewer than three characters.
pub open spec fn hex_panics(s: Seq<char>) -> bool {
    let b = hex_body(trim(s));
    (utf8_len(b) == 6 && (byte_boundary(b, 2) < 0 || byte_boundary(b, 4) < 0)) || (utf8_len(b) == 3
        && b.len() < 3)
}

/// The debug form (quoted and escaped) of a string, as `{:?}` prints it.
pub uninterp spec fn str_debug(s: Seq<char>) -> Seq<char>;

/// The debug form of `s` (`format!("{:?}", s)`): `s` in double quotes with
/// quotes, backslashes and unprintable characters escaped. Its contract
/// names the result and states nothing more of it.
#[verifier::external_body]
fn debug_str(s: &str) -> (r: String)
    ensures
        r@ == str_debug(s@),
{
    format!("{:?}", s)
}

/// The channels read from the three parts, or the first part's error.
pub open spec fn combine_channels(
    r: Result<nat, IntErrorKind>,
    g: Result<nat, IntErrorKind>,
    b: Result<nat, IntErrorKind>,
    t: Seq<char>,
) -> Result<Rgb, Seq<char>> {
    match (r, g, b) {
        (Ok(r), Ok(g), Ok(b)) => Ok(Rgb { r: r as u8, g: g as u8, b: b as u8 }),
        _ => {
            let e = if r is Err {
                r->Err_0
            } else if g is Err {
                g->Err_0
            } else {
                b->Err_0
            };
            Err("invalid hex color "@ + str_debug(t) + ": "@ + int_error_text(e))
        },
    }
}

/// A hex colour (`#rrggbb`, `#rgb`, `0xrrggbb`, or the same without a
/// prefix), surrounding whitespace ignored: six bytes are read as three
/// two-byte hexadecimal channels, three as three doubled digits; anything
/// else, and any channel that does not parse, is an error naming the text.
pub open spec fn spec_parse_hex(s: Seq<char>) -> Result<Rgb, Seq<char>> {
    let t = trim(s);
    let b = hex_body(t);
    if utf8_len(b) == 6 {
        let j2 = byte_boundary(b, 2);
        let j4 = byte_boundary(b, 4);
        combine_channels(
            spec_hex_u8(b.take(j2)),
            spec_hex_u8(b.subrange(j2, j4)),
            spec_hex_u8(b.skip(j4)),
            t,
        )
    } else if utf8_len(b) == 3 {
        combine_channels(
            spec_hex_u8(seq![b[0], b[0]]),
            spec_hex_u8(seq![b[1], b[1]]),
            spec_hex_u8(seq![b[2], b[2]]),
            t,
        )
    } else {
        Err("invalid hex color "@ + str_debug(t))
    }
}


/// The boundary search lands within `b`.
pub proof fn lemma_boundary_in_range(b: Seq<char>, k: nat, i: int)
    requires
        boundary_from(b, k, i) >= 0,
    ensures
        0 <= boundary_from(b, k, i) <= b.len(),
    decreases b.len() + 1 - i,
{
    if i >= 0 && i <= b.len() && utf8_len(b.take(i)) != k {
        lemma_boundary_in_range(b, k, i + 1);
    }
}

/// Where the boundary search succeeds, it lands on a character index
/// whose prefix is exactly `k` bytes long.
proof fn lemma_boundary_found(b: Seq<char>, k: nat, i: int)
    requires
        boundary_from(b, k, i) >= 0,
    ensures
        0 <= i <= boundary_from(b, k, i) <= b.len(),
        utf8_len(b.take(boundary_from(b, k, i))) == k,
    decreases b.len() + 1 - i,
{
    if i >= 0 && i <= b.len() && utf8_len(b.take(i)) != k {
        lemma_boundary_found(b, k, i + 1);
    }
}

/// Once a prefix is longer than `k` bytes, no later prefix is exactly `k`.
proof fn lemma_boundary_none(b: Seq<char>, k: nat, i: int)
    requires
        0 <= i <= b.len(),
        utf8_len(b.take(i)) > k,
    ensures
        boundary_from(b, k, i) == -1,
    decreases b.len() - i,
{
    if i < b.len() {
        assert(b.take(i + 1).drop_last() =~= b.take(i));
        lemma_boundary_none(b, k, i + 1);
    } else {
        assert(boundary_from(b, k, i + 1) == -1);
    }
}

/// The character index at which byte `k` of `b` starts a character.
pub fn byte_boundary_of(b: &Vec<char>, k: usize) -> (r: Option<usize>)
    requires
        k <= 8,
    ensures
        match r {
            Some(j) => j as int == byte_boundary(b@, k as nat),
            None => byte_boundary(b@, k as nat) < 0,
        },
{
    let mut acc: usize = 0;
    let mut i: usize = 0;
    assert(b@.take(0) =~= Seq::<char>::empty());
    loop
        invariant
            i <= b.len(),
            acc == utf8_len(b@.take(i as int)),
            acc <= k <= 8,
            byte_boundary(b@, k as nat) == boundary_from(b@, k as nat, i as int),
        decreases b.len() - i,
    {
        if acc == k {
            return Some(i);
        }
        if i == b.len() {
            assert(boundary_from(b@, k as nat, i + 1) == -1);
            return None;
        }
        proof {
            assert(b@.take(i + 1).drop_last() =~= b@.take(i as int));
        }
        acc = acc + char_utf8_len(b[i]);
        i += 1;
        if acc > k {
            proof {
                lemma_boundary_none(b@, k as nat, i as int);
            }
            return None;
        }
    }
}

/// Where the body of a hex colour starts: after a `#`, `0x` or `0X`.
fn hex_body_start(t: &Vec<char>) -> (start: usize)
    ensures
        start <= t.len(),
        hex_body(t@) == t@.skip(start as int),
{
    proof {
        reveal_strlit("#");
        reveal_strlit("0x");
        reveal_strlit("0X");
    }
    if starts_with(t, "#") {
        1
    } else if starts_with(t, "0x") {
        2
    } else if starts_with(t, "0X") {
        2
    } else {
        assert(t@.skip(0) =~= t@);
        0
    }
}

/// The message for a channel of `t` that did not parse.
fn channel_error(t: &Vec<char>, e: IntErrorKind) -> (m: String)
    ensures
        m@ == "invalid hex color "@ + str_debug(t@) + ": "@ + int_error_text(e),
{
    let ts = string_of(t);
    let mut m = String::new();
    push_str_chars(&mut m, "invalid hex color ");
    push_str_chars(&mut m, debug_str(ts.as_str()).as_str());
    push_str_chars(&mut m, ": ");
    push_str_chars(&mut m, int_error_message(e));
    m
}

/// The colour made of three channel texts, or the first one's error.
fn channels(rs: &Vec<char>, gs: &Vec<char>, bs: &Vec<char>, t: &Vec<char>) -> (r: Result<
    Rgb,
    String,
>)
    ensures
        match combine_channels(spec_hex_u8(rs@), spec_hex_u8(gs@), spec_hex_u8(bs@), t@) {
            Ok(c) => r == Ok::<Rgb, String>(c),
            Err(m) => r is Err && r->Err_0@ == m,
        },
{
    let rr = hex_u8(rs);
    let gg = hex_u8(gs);
    let bb = hex_u8(bs);
    match (rr, gg, bb) {
        (Ok(r), Ok(g), Ok(b)) => Ok(Rgb { r, g, b }),
        (Err(e), _, _) => Err(channel_error(t, e)),
        (_, Err(e), _) => Err(channel_error(t, e)),
        (_, _, Err(e)) => Err(channel_error(t, e)),
    }
}

/// Reads a hex colour: `#rrggbb`, `#rgb`, `0xRRGGBB`, or the same digits
/// with no prefix; whitespace around it is ignored.
pub fn parse_hex(s: &str) -> (r: Result<Rgb, String>)
    requires
        !hex_panics(s@),
    ensures
        match spec_parse_hex(s@) {
            Ok(c) => r == Ok::<Rgb, String>(c),
            Err(m) => r is Err && r->Err_0@ == m,
        },
{
    let v = chars_of(s);
    let t = trimmed(&v);
    let start = hex_body_start(&t);
    let b = slice_chars(&t, start, t.len());
    assert(b@ =~= hex_body(t@));
    proof {
        lemma_utf8_len_bounds(b@);
        assert(b@.subrange(0, b.len() as int) =~= b@);
    }
    if b.len() > 6 {
        let ts = string_of(&t);
        let mut m = String::new();
        push_str_chars(&mut m, "invalid hex color ");
        push_str_chars(&mut m, debug_str(ts.as_str()).as_str());
        return Err(m);
    }
    let n = utf8_len_of(&b, 0, b.len());
    if n == 6 {
        let j2 = match byte_boundary_of(&b, 2) {
            Some(j) => j,
            None => {
                return unreached();
            },
        };
        let j4 = match byte_boundary_of(&b, 4) {
            Some(j) => j,
            None => {
                return unreached();
            },
        };
        proof {
            lemma_boundary_found(b@, 2, 0);
            lemma_boundary_found(b@, 4, 0);
            if j4 < j2 {
                assert(b@.take(j2 as int).subrange(0, j4 as int) =~= b@.take(j4 as int));
                lemma_utf8_len_subrange(b@.take(j2 as int), 0, j4 as int);
            }
            assert(b@.subrange(0, j2 as int) =~= b@.take(j2 as int));
            assert(b@.subrange(j4 as int, b.len() as int) =~= b@.skip(j4 as int));
        }
        let rs = slice_chars(&b, 0, j2);
        let gs = slice_chars(&b, j2, j4);
        let bs = slice_chars(&b, j4, b.len());
        channels(&rs, &gs, &bs, &t)
    } else if n == 3 {
        let mut rs: Vec<char> = Vec::new();
        rs.push(b[0]);
        rs.push(b[0]);
        let mut gs: Vec<char> = Vec::new();
        gs.push(b[1]);
        gs.push(b[1]);
        let mut bs: Vec<char> = Vec::new();
        bs.push(b[2]);
        bs.push(b[2]);
        assert(rs@ =~= seq![b@[0], b@[0]]);
        assert(gs@ =~= seq![b@[1], b@[1]]);
        assert(bs@ =~= seq![b@[2], b@[2]]);
        channels(&rs, &gs, &bs, &t)
    } else {
        let ts = string_of(&t);
        let mut m = String::new();
        push_str_chars(&mut m, "invalid hex color ");
        push_str_chars(&mut m, debug_str(ts.as_str()).as_str());
        Err(m)
    }
}


/// Whether `s` reads as a hex colour without a panic.
pub fn hex_color_panics(s: &str) -> (p: bool)
    ensures
        p == hex_panics(s@),
{
    let v = chars_of(s);
    let t = trimmed(&v);
    let start = hex_body_start(&t);
    let b = slice_chars(&t, start, t.len());
    assert(b@ =~= hex_body(t@));
    proof {
        lemma_utf8_len_bounds(b@);
        assert(b@.subrange(0, b.len() as int) =~= b@);
    }
    if b.len() > 6 {
        return false;
    }
    let n = utf8_len_of(&b, 0, b.len());
    if n == 6 {
        let p2 = match byte_boundary_of(&b, 2) {
            Some(_) => false,
            None => true,
        };
        let p4 = match byte_boundary_of(&b, 4) {
            Some(_) => false,
            None => true,
        };
        p2 || p4
    } else if n == 3 {
        b.len() < 3
    } else {
        false
    }
}

// ─────────────────────────────────────────────────────────────────
//  Reading theme files
// ─────────────────────────────────────────────────────────────────

/// The sections open while a theme file is read: each key with the indent,
/// in bytes, of the line that opened it.
pub type Sections = Seq<(Seq<char>, nat)>;

/// The theme read so far and the open sections.
pub type YamlState = (ThemeView, Sections);

/// The open sections once those indented at least as deep as `indent`
/// are closed.
pub open spec fn pop_sections(st: Sections, indent: nat) -> Sections
    decreases st.len(),
{
    if st.len() > 0 && indent <= st.last().1 {
        pop_sections(st.drop_last(), indent)
    } else {
        st
    }
}

/// The keys of the open sections, each followed by a dot.
pub open spec fn section_prefix(st: Sections) -> Seq<char>
    decreases st.len(),
{
    if st.len() == 0 {
        seq![]
    } else {
        section_prefix(st.drop_last()) + st.last().0 + "."@
    }
}

/// A single or a double quote.
pub open spec fn is_quote(c: char) -> bool {
    c == '\'' || c == '"'
}

/// `s` without its leading quotes.
pub open spec fn strip_quotes_start(s: Seq<char>) -> Seq<char>
    decreases s.len(),
{
    if s.len() > 0 && is_quote(s[0]) {
        strip_quotes_start(s.drop_first())
    } else {
        s
    }
}

/// `s` without its trailing quotes.
pub open spec fn strip_quotes_end(s: Seq<char>) -> Seq<char>
    decreases s.len(),
{
    if s.len() > 0 && is_quote(s.last()) {
        strip_quotes_end(s.drop_last())
    } else {
        s
    }
}

/// A value without the quotes around it.
pub open spec fn unquote(s: Seq<char>) -> Seq<char> {
    strip_quotes_end(strip_quotes_start(s))
}

/// The prefix of a message about line `n`.
pub open spec fn line_label(n: nat) -> Seq<char> {
    "line "@ + decimal(n) + ": "@
}

/// A colour setting on line `n`: the colour, an error naming the line, or
/// `None` where reading it panics.
pub open spec fn hex_setting(val: Seq<char>, n: nat) -> Option<Result<Rgb, Seq<char>>> {
    if hex_panics(val) {
        None
    } else {
        match spec_parse_hex(val) {
            Ok(c) => Some(Ok(c)),
            Err(e) => Some(Err(line_label(n) + e)),
        }
    }
}

/// The theme with a colour set by `f`, where the setting gave one.
pub open spec fn with_colour(
    h: Option<Result<Rgb, Seq<char>>>,
    f: spec_fn(Rgb) -> ThemeView,
) -> Option<Result<ThemeView, Seq<char>>> {
    match h {
        None => None,
        Some(Err(e)) => Some(Err(e)),
        Some(Ok(c)) => Some(Ok(f(c))),
    }
}

/// The ANSI colours with the slot named `slot` set to `c`; an unknown slot
/// changes nothing.
pub open spec fn set_ansi(a: AnsiColors, slot: Seq<char>, c: Rgb) -> AnsiColors {
    if slot == "black"@ {
        AnsiColors { black: c, ..a }
    } else if slot == "red"@ {
        AnsiColors { red: c, ..a }
    } else if slot == "green"@ {
        AnsiColors { green: c, ..a }
    } else if slot == "yellow"@ {
        AnsiColors { yellow: c, ..a }
    } else if slot == "blue"@ {
        AnsiColors { blue: c, ..a }
    } else if slot == "magenta"@ {
        AnsiColors { magenta: c, ..a }
    } else if slot == "cyan"@ {
        AnsiColors { cyan: c, ..a }
    } else if slot == "white"@ {
        AnsiColors { white: c, ..a }
    } else {
        a
    }
}

/// The key prefix of the normal ANSI colours.
pub open spec fn normal_prefix() -> Seq<char> {
    "terminal_colors.normal."@
}

/// The key prefix of the bright ANSI colours.
pub open spec fn bright_prefix() -> Seq<char> {
    "terminal_colors.bright."@
}

/// Applying the setting `key: val` of line `n`: `name`, `accent`,
/// `background`, `foreground`, `details` (darker when it reads `darker` in
/// any ASCII case) and the ANSI slots under `terminal_colors.normal.` and
/// `terminal_colors.bright.`; other keys are ignored. A colour that does
/// not parse is an error; `None` where reading it panics.
pub open spec fn apply_setting(t: ThemeView, key: Seq<char>, val: Seq<char>, n: nat) -> Option<
    Result<ThemeView, Seq<char>>,
> {
    if key == "name"@ {
        Some(Ok((val, t.1, t.2, t.3, t.4, t.5, t.6)))
    } else if key == "accent"@ {
        with_colour(hex_setting(val, n), |c: Rgb| (t.0, c, t.2, t.3, t.4, t.5, t.6))
    } else if key == "background"@ {
        with_colour(hex_setting(val, n), |c: Rgb| (t.0, t.1, c, t.3, t.4, t.5, t.6))
    } else if key == "foreground"@ {
        with_colour(hex_setting(val, n), |c: Rgb| (t.0, t.1, t.2, c, t.4, t.5, t.6))
    } else if key == "details"@ {
        Some(Ok((t.0, t.1, t.2, t.3, ascii_lower(val) == "darker"@, t.5, t.6)))
    } else if has_prefix(key, normal_prefix()) {
        with_colour(
            hex_setting(val, n),
            |c: Rgb|
                (t.0, t.1, t.2, t.3, t.4, set_ansi(t.5, key.skip(normal_prefix().len() as int), c), t.6),
        )
    } else if has_prefix(key, bright_prefix()) {
        with_colour(
            hex_setting(val, n),
            |c: Rgb|
                (t.0, t.1, t.2, t.3, t.4, t.5, set_ansi(t.6, key.skip(bright_prefix().len() as int), c)),
        )
    } else {
        Some(Ok(t))
    }
}

/// Reading line `n` of a theme file. Blank lines and `#` comments are
/// skipped. Sections indented at least as deep as the line are closed; the
/// text before the first `:` is the key and the text after it the value,
/// both trimmed. A line without `:` is an error. An empty value opens a
/// section; any other value, without its quotes, is applied under the key
/// qualified by the open sections. `None` where the line panics.
pub open spec fn yaml_step(st: YamlState, line: Seq<char>, n: nat) -> Option<
    Result<YamlState, Seq<char>>,
> {
    let stripped = trim_end(line);
    let trimmed = trim_start(stripped);
    if trimmed.len() == 0 || trimmed[0] == '#' {
        Some(Ok(st))
    } else {
        let indent = (utf8_len(stripped) - utf8_len(trimmed)) as nat;
        let open = pop_sections(st.1, indent);
        let c = find_char(trimmed, ':');
        if c < 0 {
            Some(Err(line_label(n) + "expected 'key: value'"@))
        } else {
            let key = trim(trimmed.take(c));
            let val = trim(trimmed.skip(c + 1));
            if val.len() == 0 {
                Some(Ok((st.0, open.push((key, indent)))))
            } else {
                match apply_setting(st.0, section_prefix(open) + key, unquote(val), n) {
                    None => None,
                    Some(Err(e)) => Some(Err(e)),
                    Some(Ok(t)) => Some(Ok((t, open))),
                }
            }
        }
    }
}

/// Reading the first `n` lines: the state after them, the first error, or
/// `None` where a line panics.
pub open spec fn yaml_scan(lines: Seq<Seq<char>>, n: nat) -> Option<Result<YamlState, Seq<char>>>
    decreases n,
{
    if n == 0 || n > lines.len() {
        Some(Ok((initial_theme(), seq![])))
    } else {
        match yaml_scan(lines, (n - 1) as nat) {
            Some(Ok(st)) => yaml_step(st, lines[n - 1], n),
            r => r,
        }
    }
}

/// Reading every line of `text`.
pub open spec fn yaml_outcome(text: Seq<char>) -> Option<Result<YamlState, Seq<char>>> {
    yaml_scan(spec_lines(text), spec_lines(text).len())
}

/// Reading the theme file `text` panics.
pub open spec fn yaml_panics(text: Seq<char>) -> bool {
    yaml_outcome(text) is None
}

/// The theme that `text` gives, or the error message of its first bad line.
pub open spec fn spec_parse_theme_yaml(text: Seq<char>) -> Result<ThemeView, Seq<char>> {
    match yaml_outcome(text) {
        Some(Ok(st)) => Ok(st.0),
        Some(Err(e)) => Err(e),
        None => Err(seq![]),
    }
}


/// The plain value of the open sections.
pub open spec fn sections_view(v: Seq<(Vec<char>, usize)>) -> Sections {
    v.map_values(|p: (Vec<char>, usize)| (p.0@, p.1 as nat))
}

/// The theme before a file is read.
fn initial_theme_yaml() -> (t: ThemeYaml)
    ensures
        theme_view(t) == initial_theme(),
{
    let k = Rgb { r: 0, g: 0, b: 0 };
    let a = AnsiColors {
        black: k,
        red: k,
        green: k,
        yellow: k,
        blue: k,
        magenta: k,
        cyan: k,
        white: k,
    };
    let t = ThemeYaml {
        name: String::new(),
        accent: k,
        background: k,
        foreground: k,
        details_darker: true,
        normal: a,
        bright: a,
    };
    assert(t.name@ =~= Seq::<char>::empty());
    t
}

/// The message prefix naming line `n`, followed by `rest`.
fn line_message(n: usize, rest: &str) -> (m: String)
    ensures
        m@ == line_label(n as nat) + rest@,
{
    let mut m = String::new();
    push_str_chars(&mut m, "line ");
    push_decimal(&mut m, n as u64);
    push_str_chars(&mut m, ": ");
    push_str_chars(&mut m, rest);
    m
}

/// Reads the colour setting `val` of line `n`.
fn hex_setting_of(val: &Vec<char>, n: usize) -> (r: Option<Result<Rgb, String>>)
    ensures
        match hex_setting(val@, n as nat) {
            None => r is None,
            Some(Ok(c)) => r == Some(Ok::<Rgb, String>(c)),
            Some(Err(e)) => r matches Some(Err(m)) && m@ == e,
        },
{
    let s = string_of(val);
    if hex_color_panics(s.as_str()) {
        return None;
    }
    match parse_hex(s.as_str()) {
        Ok(c) => Some(Ok(c)),
        Err(e) => Some(Err(line_message(n, e.as_str()))),
    }
}

/// Sets the ANSI slot named `slot` to `c`.
fn set_ansi_slot(a: AnsiColors, slot: &Vec<char>, c: Rgb) -> (r: AnsiColors)
    ensures
        r == set_ansi(a, slot@, c),
{
    let mut r = a;
    if chars_eq(slot, "black") {
        r.black = c;
    } else if chars_eq(slot, "red") {
        r.red = c;
    } else if chars_eq(slot, "green") {
        r.green = c;
    } else if chars_eq(slot, "yellow") {
        r.yellow = c;
    } else if chars_eq(slot, "blue") {
        r.blue = c;
    } else if chars_eq(slot, "magenta") {
        r.magenta = c;
    } else if chars_eq(slot, "cyan") {
        r.cyan = c;
    } else if chars_eq(slot, "white") {
        r.white = c;
    }
    r
}

/// Applies the setting `key: val` of line `n` to `t`.
fn apply_setting_to(t: &mut ThemeYaml, key: &Vec<char>, val: &Vec<char>, n: usize) -> (r: Option<
    Result<(), String>,
>)
    ensures
        match apply_setting(theme_view(*old(t)), key@, val@, n as nat) {
            None => r is None,
            Some(Ok(v)) => r is Some && r->0 is Ok && theme_view(*final(t)) == v,
            Some(Err(e)) => r matches Some(Err(m)) && m@ == e,
        },
{
    proof {
        reveal_strlit("terminal_colors.normal.");
        reveal_strlit("terminal_colors.bright.");
    }
    if chars_eq(key, "name") {
        t.name = string_of(val);
        return Some(Ok(()));
    }
    let is_accent = chars_eq(key, "accent");
    let is_background = chars_eq(key, "background");
    let is_foreground = chars_eq(key, "foreground");
    if is_accent || is_background || is_foreground {
        return match hex_setting_of(val, n) {
            None => None,
            Some(Err(m)) => Some(Err(m)),
            Some(Ok(c)) => {
                if is_accent {
                    t.accent = c;
                } else if is_background {
                    t.background = c;
                } else {
                    t.foreground = c;
                }
                Some(Ok(()))
            },
        };
    }
    if chars_eq(key, "details") {
        let l = lower_chars(val);
        t.details_darker = chars_eq(&l, "darker");
        return Some(Ok(()));
    }
    let normal = starts_with(key, "terminal_colors.normal.");
    let bright = starts_with(key, "terminal_colors.bright.");
    if normal || bright {
        return match hex_setting_of(val, n) {
            None => None,
            Some(Err(m)) => Some(Err(m)),
            Some(Ok(c)) => {
                let slot = slice_chars(key, 23, key.len());
                assert(slot@ =~= key@.skip(23));
                if normal {
                    t.normal = set_ansi_slot(t.normal, &slot, c);
                } else {
                    t.bright = set_ansi_slot(t.bright, &slot, c);
                }
                Some(Ok(()))
            },
        };
    }
    Some(Ok(()))
}

/// `v[lo..hi]` without the quotes around it.
fn unquoted(v: &Vec<char>, lo: usize, hi: usize) -> (r: Vec<char>)
    requires
        lo <= hi <= v.len(),
    ensures
        r@ == unquote(v@.subrange(lo as int, hi as int)),
{
    let mut a = lo;
    while a < hi && (v[a] == '\'' || v[a] == '"')
        invariant
            lo <= a <= hi <= v.len(),
            strip_quotes_start(v@.subrange(a as int, hi as int)) == strip_quotes_start(
                v@.subrange(lo as int, hi as int),
            ),
        decreases hi - a,
    {
        assert(v@.subrange(a as int, hi as int).drop_first() =~= v@.subrange(a + 1, hi as int));
        a += 1;
    }
    let mut b = hi;
    while b > a && (v[b - 1] == '\'' || v[b - 1] == '"')
        invariant
            lo <= a <= b <= hi <= v.len(),
            strip_quotes_end(v@.subrange(a as int, b as int)) == strip_quotes_end(
                v@.subrange(a as int, hi as int),
            ),
        decreases b - a,
    {
        assert(v@.subrange(a as int, b as int).drop_last() =~= v@.subrange(a as int, b - 1));
        b -= 1;
    }
    slice_chars(v, a, b)
}

/// `key` qualified by the open sections.
fn qualified_key(open: &Vec<(Vec<char>, usize)>, key: &Vec<char>) -> (r: Vec<char>)
    ensures
        r@ == section_prefix(sections_view(open@)) + key@,
{
    let mut r: Vec<char> = Vec::new();
    let mut i: usize = 0;
    while i < open.len()
        invariant
            i <= open.len(),
            r@ == section_prefix(sections_view(open@.take(i as int))),
        decreases open.len() - i,
    {
        proof {
            reveal_strlit(".");
            assert(sections_view(open@.take(i + 1)).drop_last() =~= sections_view(open@.take(i as int)));
        }
        append_chars(&mut r, &open[i].0);
        r.push('.');
        i += 1;
        assert(r@ =~= section_prefix(sections_view(open@.take(i as int))));
    }
    assert(open@.take(open.len() as int) =~= open@);
    append_chars(&mut r, key);
    r
}

/// Reads line `n` of a theme file into `t` and the open sections.
#[verifier::rlimit(40)]
fn read_line(
    t: &mut ThemeYaml,
    open: &mut Vec<(Vec<char>, usize)>,
    line: &Vec<char>,
    n: usize,
) -> (r: Option<Result<(), String>>)
    requires
        utf8_len(line@) <= usize::MAX,
    ensures
        match yaml_step((theme_view(*old(t)), sections_view(old(open)@)), line@, n as nat) {
            None => r is None,
            Some(Ok(st)) => r is Some && r->0 is Ok && st == (
                theme_view(*final(t)),
                sections_view(final(open)@),
            ),
            Some(Err(e)) => r matches Some(Err(m)) && m@ == e,
        },
{
    let e = trim_end_index(line, 0, line.len());
    let (a, _) = trim_bounds(line, 0, e);
    let ghost stripped = trim_end(line@);
    let ghost tr = trim_start(stripped);
    assert(line@.subrange(0, line.len() as int) =~= line@);
    assert(tr == line@.subrange(a as int, e as int));
    if a == e || line[a] == '#' {
        return Some(Ok(()));
    }
    proof {
        assert(line@.subrange(0, a as int) + line@.subrange(a as int, e as int) =~= line@.subrange(
            0,
            e as int,
        ));
        lemma_utf8_len_concat(line@.subrange(0, a as int), line@.subrange(a as int, e as int));
        lemma_utf8_len_subrange(line@, 0, a as int);
    }
    let indent = utf8_len_of(line, 0, a);
    let ghost old_open = sections_view(open@);
    while open.len() > 0 && indent <= open[open.len() - 1].1
        invariant
            pop_sections(sections_view(open@), indent as nat) == pop_sections(old_open, indent as nat),
        decreases open.len(),
    {
        let ghost before = open@;
        open.pop();
        assert(sections_view(open@) =~= sections_view(before).drop_last());
    }
    match find_char_in(line, a, e, ':') {
        None => Some(Err(line_message(n, "expected 'key: value'"))),
        Some(c) => {
            let (k0, k1) = trim_bounds(line, a, c);
            let (v0, v1) = trim_bounds(line, c + 1, e);
            assert(tr.take(c - a) =~= line@.subrange(a as int, c as int));
            assert(tr.skip(c - a + 1) =~= line@.subrange(c + 1, e as int));
            let key = slice_chars(line, k0, k1);
            if v0 == v1 {
                open.push((key, indent));
                assert(sections_view(open@) =~= pop_sections(old_open, indent as nat).push(
                    (key@, indent as nat),
                ));
                return Some(Ok(()));
            }
            let val = unquoted(line, v0, v1);
            let q = qualified_key(open, &key);
            apply_setting_to(t, &q, &val, n)
        },
    }
}

/// Once reading stops, on an error or a panic, later lines change nothing.
proof fn lemma_yaml_scan_stops(lines: Seq<Seq<char>>, n: nat)
    requires
        n <= lines.len(),
        !(yaml_scan(lines, n) matches Some(Ok(_))),
    ensures
        yaml_scan(lines, lines.len()) == yaml_scan(lines, n),
    decreases lines.len() - n,
{
    if n < lines.len() {
        assert(yaml_scan(lines, n + 1) == yaml_scan(lines, n));
        lemma_yaml_scan_stops(lines, n + 1);
    }
}

/// Reads a theme file: the theme, the first error, or `None` where the
/// file makes the reader panic.
fn scan_theme_yaml(text: &str) -> (r: Option<Result<ThemeYaml, String>>)
    ensures
        match yaml_outcome(text@) {
            None => r is None,
            Some(Ok(st)) => r matches Some(Ok(t)) && theme_view(t) == st.0,
            Some(Err(e)) => r matches Some(Err(m)) && m@ == e,
        },
{
    utf8_len_fits(text);
    let lines = lines_of(text);
    let ghost ls = spec_lines(text@);
    proof {
        lemma_lines_utf8_len(text@);
    }
    let mut t = initial_theme_yaml();
    let mut open: Vec<(Vec<char>, usize)> = Vec::new();
    let mut i: usize = 0;
    assert(sections_view(open@) =~= Seq::<(Seq<char>, nat)>::empty());
    while i < lines.len()
        invariant
            i <= lines.len(),
            views(lines@) == ls,
            ls == spec_lines(text@),
            forall|j: int| 0 <= j < ls.len() ==> utf8_len(#[trigger] ls[j]) <= utf8_len(text@),
            utf8_len(text@) <= usize::MAX,
            yaml_scan(ls, i as nat) == Some(
                Ok::<YamlState, Seq<char>>((theme_view(t), sections_view(open@))),
            ),
        decreases lines.len() - i,
    {
        assert(ls[i as int] == lines@[i as int]@);
        let r = read_line(&mut t, &mut open, &lines[i], i + 1);
        match r {
            None => {
                proof {
                    lemma_yaml_scan_stops(ls, (i + 1) as nat);
                }
                return None;
            },
            Some(Err(m)) => {
                proof {
                    lemma_yaml_scan_stops(ls, (i + 1) as nat);
                }
                return Some(Err(m));
            },
            Some(Ok(())) => {},
        }
        i += 1;
    }
    Some(Ok(t))
}

/// Whether reading the theme file `text` panics.
pub fn theme_yaml_panics(text: &str) -> (p: bool)
    ensures
        p == yaml_panics(text@),
{
    match scan_theme_yaml(text) {
        None => true,
        Some(_) => false,
    }
}

/// Reads a theme file: four base colours, the `details` direction and the
/// sixteen ANSI colours under `terminal_colors`, or the first bad line's
/// error.
pub fn parse_theme_yaml(text: &str) -> (r: Result<ThemeYaml, String>)
    requires
        !yaml_panics(text@),
    ensures
        match spec_parse_theme_yaml(text@) {
            Ok(v) => r matches Ok(t) && theme_view(t) == v,
            Err(e) => r matches Err(m) && m@ == e,
        },
{
    match scan_theme_yaml(text) {
        Some(r) => r,
        None => Err(String::new()),
    }
}


/// The source of the bundled Midnight theme.
pub const MIDNIGHT_YAML: &'static str = r#"
name: Midnight
accent: '#7daea3'
background: '#1c1f24'
foreground: '#e6e7eb'
details: 'lighter'
terminal_colors:
  normal:
    black:   '#1c1f24'
    red:     '#cc6666'
    green:   '#a3be8c'
    yellow:  '#d8a657'
    blue:    '#7eafce'
    magenta: '#b294bb'
    cyan:    '#7daea3'
    white:   '#a0a3a8'
  bright:
    black:   '#5c6370'
    red:     '#ea6962'
    green:   '#6ec690'
    yellow:  '#d8a657'
    blue:    '#7daea3'
    magenta: '#d3869b'
    cyan:    '#7daea3'
    white:   '#e6e7eb'
"#;

/// The source of the bundled Gruvbox Dark theme.
pub const GRUVBOX_DARK_YAML: &'static str = r#"
name: Gruvbox Dark
accent: '#fe8019'
background: '#282828'
foreground: '#ebdbb2'
details: 'darker'
terminal_colors:
  normal:
    black:   '#282828'
    red:     '#cc241d'
    green:   '#98971a'
    yellow:  '#d79921'
    blue:    '#458588'
    magenta: '#b16286'
    cyan:    '#689d6a'
    white:   '#a89984'
  bright:
    black:   '#928374'
    red:     '#fb4934'
    green:   '#b8bb26'
    yellow:  '#fabd2f'
    blue:    '#83a598'
    magenta: '#d3869b'
    cyan:    '#8ec07c'
    white:   '#ebdbb2'
"#;

/// The source of the bundled Vercel theme.
pub const VERCEL_DARK_YAML: &'static str = r#"
name: Vercel
accent: '#0070f3'
background: '#000000'
foreground: '#ededed'
details: 'lighter'
terminal_colors:
  normal:
    black:   '#000000'
    red:     '#ee0000'
    green:   '#50e3c2'
    yellow:  '#f5a623'
    blue:    '#0070f3'
    magenta: '#f81ce5'
    cyan:    '#79ffe1'
    white:   '#a0a0a0'
  bright:
    black:   '#666666'
    red:     '#ff4444'
    green:   '#7cffd9'
    yellow:  '#ffcb6b'
    blue:    '#3291ff'
    magenta: '#ff7eea'
    cyan:    '#aaffe5'
    white:   '#ededed'
"#;

/// The source of the bundled Dracula theme.
pub const DRACULA_YAML: &'static str = r#"
name: Dracula
accent: '#ff79c6'
background: '#282a36'
foreground: '#f8f8f2'
details: 'darker'
terminal_colors:
  normal:
    black:   '#21222c'
    red:     '#ff5555'
    green:   '#50fa7b'
    yellow:  '#f1fa8c'
    blue:    '#bd93f9'
    magenta: '#ff79c6'
    cyan:    '#8be9fd'
    white:   '#bfbfbf'
  bright:
    black:   '#6272a4'
    red:     '#ff6e6e'
    green:   '#69ff94'
    yellow:  '#ffffa5'
    blue:    '#d6acff'
    magenta: '#ff92df'
    cyan:    '#a4ffff'
    white:   '#f8f8f2'
"#;

/// The source of a bundled theme.
pub open spec fn spec_bundled_source(t: BundledTheme) -> Seq<char> {
    match t {
        BundledTheme::Midnight => MIDNIGHT_YAML@,
        BundledTheme::GruvboxDark => GRUVBOX_DARK_YAML@,
        BundledTheme::VercelDark => VERCEL_DARK_YAML@,
        BundledTheme::Dracula => DRACULA_YAML@,
    }
}

/// The theme file text of a bundled theme.
pub fn bundled_source(t: BundledTheme) -> (s: &'static str)
    ensures
        s@ == spec_bundled_source(t),
{
    match t {
        BundledTheme::Midnight => MIDNIGHT_YAML,
        BundledTheme::GruvboxDark => GRUVBOX_DARK_YAML,
        BundledTheme::VercelDark => VERCEL_DARK_YAML,
        BundledTheme::Dracula => DRACULA_YAML,
    }
}

// ─────────────────────────────────────────────────────────────────
//  Colour settings across a theme file
// ─────────────────────────────────────────────────────────────────

/// The keys of the three base colours.
pub open spec fn is_colour_key(key: Seq<char>) -> bool {
    key == "accent"@ || key == "background"@ || key == "foreground"@
}

/// The three colour keys differ.
proof fn lemma_colour_keys_distinct()
    ensures
        "accent"@ != "background"@,
        "accent"@ != "foreground"@,
        "background"@ != "foreground"@,
{
    reveal_strlit("accent");
    reveal_strlit("background");
    reveal_strlit("foreground");
    assert("accent"@[0] == 'a');
    assert("background"@[0] == 'b');
    assert("foreground"@[0] == 'f');
}

/// The base colour of theme `t` that `key` names.
pub open spec fn colour_of(t: ThemeView, key: Seq<char>) -> Rgb {
    if key == "accent"@ {
        t.1
    } else if key == "background"@ {
        t.2
    } else {
        t.3
    }
}

/// `key` occurs somewhere in `line`.
pub open spec fn mentions(line: Seq<char>, key: Seq<char>) -> bool {
    exists|p: int| occurs_at(line, key, p)
}

proof fn lemma_trim_start_skip(s: Seq<char>) -> (a: int)
    ensures
        0 <= a <= s.len(),
        trim_start(s) == s.subrange(a, s.len() as int),
    decreases s.len(),
{
    if s.len() > 0 && is_ws(s[0]) {
        let a = lemma_trim_start_skip(s.drop_first());
        assert(s.drop_first().subrange(a, s.drop_first().len() as int) =~= s.subrange(a + 1, s.len() as int));
        a + 1
    } else {
        assert(s.subrange(0, s.len() as int) =~= s);
        0
    }
}

proof fn lemma_trim_end_take(s: Seq<char>) -> (b: int)
    ensures
        0 <= b <= s.len(),
        trim_end(s) == s.subrange(0, b),
    decreases s.len(),
{
    if s.len() > 0 && is_ws(s.last()) {
        let b = lemma_trim_end_take(s.drop_last());
        assert(s.drop_last().subrange(0, b) =~= s.subrange(0, b));
        b
    } else {
        assert(s.subrange(0, s.len() as int) =~= s);
        s.len() as int
    }
}

/// The key a theme file line names is a piece of that line.
proof fn lemma_key_in_line(line: Seq<char>)
    ensures
        ({
            let trimmed = trim_start(trim_end(line));
            let c = find_char(trimmed, ':');
            c >= 0 ==> exists|p: int| occurs_at(line, trim(trimmed.take(c)), p)
        }),
{
    let stripped = trim_end(line);
    let trimmed = trim_start(stripped);
    let c = find_char(trimmed, ':');
    if c >= 0 {
        crate::git_model::lemma_first_from_bounds(trimmed, ':', 0);
        let b1 = lemma_trim_end_take(line);
        let a1 = lemma_trim_start_skip(stripped);
        let x = trimmed.take(c);
        let a2 = lemma_trim_start_skip(x);
        let b2 = lemma_trim_end_take(trim_start(x));
        let key = trim(x);
        let p = a1 + a2;
        assert(key =~= line.subrange(p, p + key.len()));
        assert(occurs_at(line, key, p));
    }
}

/// The open-section prefix, where there is one, ends with a dot.
proof fn lemma_prefix_ends_with_dot(st: Sections)
    ensures
        section_prefix(st).len() > 0 ==> section_prefix(st).last() == '.',
{
    reveal_strlit(".");
}

/// Every open section is closed by a line without indent.
proof fn lemma_pop_all(st: Sections)
    ensures
        pop_sections(st, 0) == Seq::<(Seq<char>, nat)>::empty(),
    decreases st.len(),
{
    if st.len() > 0 {
        lemma_pop_all(st.drop_last());
    } else {
        assert(st =~= Seq::<(Seq<char>, nat)>::empty());
    }
}

/// A setting whose qualified key is a colour key names that key itself.
proof fn lemma_qualified_colour_key(prefix_of: Sections, key: Seq<char>, k: Seq<char>)
    requires
        is_colour_key(k),
        section_prefix(prefix_of) + key == k,
    ensures
        key == k,
{
    reveal_strlit("accent");
    reveal_strlit("background");
    reveal_strlit("foreground");
    lemma_prefix_ends_with_dot(prefix_of);
    let pre = section_prefix(prefix_of);
    if pre.len() > 0 {
        assert((pre + key)[pre.len() - 1] == '.');
        assert(k[pre.len() - 1] == '.');
    }
    assert(pre + key =~= key);
}

/// A setting of another key leaves the colour of `k` as it was.
proof fn lemma_other_setting_keeps_colour(t: ThemeView, key: Seq<char>, val: Seq<char>, n: nat, k: Seq<char>)
    requires
        is_colour_key(k),
        key != k,
        apply_setting(t, key, val, n) is Some,
        apply_setting(t, key, val, n)->0 is Ok,
    ensures
        colour_of(apply_setting(t, key, val, n)->0->Ok_0, k) == colour_of(t, k),
{
    reveal_strlit("accent");
    reveal_strlit("background");
    reveal_strlit("foreground");
    reveal_strlit("name");
    reveal_strlit("details");
    lemma_colour_keys_distinct();
}

/// A line that does not mention the colour key `k` leaves that colour as
/// it was.
proof fn lemma_step_keeps_colour(st: YamlState, line: Seq<char>, n: nat, k: Seq<char>)
    requires
        is_colour_key(k),
        !mentions(line, k),
        yaml_step(st, line, n) is Some,
        yaml_step(st, line, n)->0 is Ok,
    ensures
        colour_of((yaml_step(st, line, n)->0->Ok_0).0, k) == colour_of(st.0, k),
{
    let stripped = trim_end(line);
    let trimmed = trim_start(stripped);
    if !(trimmed.len() == 0 || trimmed[0] == '#') {
        let indent = (utf8_len(stripped) - utf8_len(trimmed)) as nat;
        let open = pop_sections(st.1, indent);
        let c = find_char(trimmed, ':');
        if c >= 0 {
            let key = trim(trimmed.take(c));
            let val = trim(trimmed.skip(c + 1));
            if val.len() > 0 {
                lemma_key_in_line(line);
                if section_prefix(open) + key == k {
                    lemma_qualified_colour_key(open, key, k);
                    let p = choose|p: int| occurs_at(line, key, p);
                    assert(mentions(line, k));
                }
                lemma_other_setting_keeps_colour(st.0, section_prefix(open) + key, unquote(val), n, k);
            }
        }
    }
}

proof fn lemma_first_at(s: Seq<char>, c: char, i: int, k: int)
    requires
        0 <= i <= k < s.len(),
        s[k] == c,
        forall|t: int| i <= t < k ==> s[t] != c,
    ensures
        first_from(s, c, i) == k,
    decreases k - i,
{
    if i < k {
        lemma_first_at(s, c, i + 1, k);
    }
}

/// The line `k: v`, with `v` a colour, sets the colour of `k` to it.
proof fn lemma_colour_line_step(st: YamlState, k: Seq<char>, v: Seq<char>, c: Rgb, n: nat)
    requires
        is_colour_key(k),
        v.len() > 0,
        !is_ws(v[0]),
        !is_ws(v.last()),
        !hex_panics(unquote(v)),
        spec_parse_hex(unquote(v)) == Ok::<Rgb, Seq<char>>(c),
    ensures
        yaml_step(st, k + ": "@ + v, n) is Some,
        yaml_step(st, k + ": "@ + v, n)->0 is Ok,
        colour_of((yaml_step(st, k + ": "@ + v, n)->0->Ok_0).0, k) == c,
{
    reveal_strlit("accent");
    reveal_strlit("background");
    reveal_strlit("foreground");
    reveal_strlit("name");
    reveal_strlit(": ");
    let line = k + ": "@ + v;
    let kl = k.len() as int;
    assert(line.last() == v.last());
    assert(trim_end(line) == line);
    assert(line[0] == k[0]);
    assert(trim_start(line) == line);
    lemma_pop_all(st.1);
    assert forall|t: int| 0 <= t < kl implies line[t] != ':' by {
        assert(line[t] == k[t]);
    };
    assert(line[kl] == ':');
    lemma_first_at(line, ':', 0, kl);
    let x = line.take(kl);
    assert(x =~= k);
    assert(trim_start(k) == k);
    assert(trim_end(k) == k);
    let y = line.skip(kl + 1);
    assert(y =~= seq![' '] + v);
    assert(is_ws(' '));
    assert(y.drop_first() =~= v);
    assert(trim_start(y) == trim_start(v));
    assert(trim_start(v) == v);
    assert(trim_end(v) == v);
    assert(section_prefix(Seq::<(Seq<char>, nat)>::empty()) + k =~= k);
}

/// Reading up to line `m`, after line `j` set the colour of `k` and no
/// later line mentions `k`, the colour is the one line `j` set.
proof fn lemma_scan_keeps_colour(ls: Seq<Seq<char>>, j: int, m: nat, k: Seq<char>, v: Seq<char>, c: Rgb)
    requires
        is_colour_key(k),
        0 <= j < m <= ls.len(),
        ls[j] == k + ": "@ + v,
        v.len() > 0,
        !is_ws(v[0]),
        !is_ws(v.last()),
        !hex_panics(unquote(v)),
        spec_parse_hex(unquote(v)) == Ok::<Rgb, Seq<char>>(c),
        forall|t: int| j < t < m ==> !mentions(#[trigger] ls[t], k),
        yaml_scan(ls, m) is Some,
        yaml_scan(ls, m)->0 is Ok,
    ensures
        colour_of((yaml_scan(ls, m)->0->Ok_0).0, k) == c,
    decreases m,
{
    let prev = yaml_scan(ls, (m - 1) as nat);
    assert(prev is Some && prev->0 is Ok);
    let st = prev->0->Ok_0;
    if m == j + 1 {
        lemma_colour_line_step(st, k, v, c, m);
    } else {
        lemma_scan_keeps_colour(ls, j, (m - 1) as nat, k, v, c);
        assert(!mentions(ls[m - 1], k));
        lemma_step_keeps_colour(st, ls[m - 1], m, k);
    }
}

/// In a theme file that reads without error, a line `key: value` for a base
/// colour (`accent`, `background` or `foreground`), written without indent
/// and with a value that reads as a colour, gives the theme that colour
/// when no later line mentions the key: the last setting of a colour wins,
/// and settings of other keys leave it alone.
pub proof fn lemma_colour_setting_read(text: Seq<char>, j: int, key: Seq<char>, v: Seq<char>, c: Rgb)
    requires
        is_colour_key(key),
        0 <= j < spec_lines(text).len(),
        spec_lines(text)[j] == key + ": "@ + v,
        v.len() > 0,
        !is_ws(v[0]),
        !is_ws(v.last()),
        !hex_panics(unquote(v)),
        spec_parse_hex(unquote(v)) == Ok::<Rgb, Seq<char>>(c),
        forall|t: int| j < t < spec_lines(text).len() ==> !mentions(#[trigger] spec_lines(text)[t], key),
        spec_parse_theme_yaml(text) is Ok,
    ensures
        key == "accent"@ ==> spec_parse_theme_yaml(text)->Ok_0.1 == c,
        key == "background"@ ==> spec_parse_theme_yaml(text)->Ok_0.2 == c,
        key == "foreground"@ ==> spec_parse_theme_yaml(text)->Ok_0.3 == c,
{
    let ls = spec_lines(text);
    lemma_colour_keys_distinct();
    lemma_scan_keeps_colour(ls, j, ls.len(), key, v, c);
}

} // verus!
