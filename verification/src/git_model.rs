//! The Git model: parsing of `git status` (porcelain v1 and the v2 branch
//! header), diff line classification and hunk headers, the commands the
//! client runs with their arguments and descriptions, and the repository
//! view state that those commands' output updates.

use vstd::prelude::*;

use tree_sitter::Parser;

use crate::syntax::{
    language_for_path, new_parser, spec_language, spec_highlight, syntax_spans_for_lines, SyntaxLang,
};
use crate::models::{
    lines_view, line_view, ColorSpan, DiffLineNumber, DocLine, Document, GitViewMeta, LineStyle,
    SpanColor,
};
use crate::theme::{
    badge_char_for_status, badge_color_key_for_status, spec_badge_char, spec_badge_color_key,
};
use crate::text::{
    chars_of, has_prefix, lines_of, matches_at, occurs_at, parse_unsigned, slice_chars,
    spec_compact, spec_lines, spec_parse_unsigned, spec_words, starts_with, string_of, trim,
    trim_bounds, views, words, compact_text, copy_str, push_str_chars, push_chars, trim_str,
    decimal, push_decimal, line_scan, strip_cr, all_digits, decimal_value, digit_value, is_digit,
};

verus! {

broadcast use vstd::string::group_string_axioms;

// ─────────────────────────────────────────────────────────────────
//  Status sections
// ─────────────────────────────────────────────────────────────────

/// The section of the file list a change belongs to.
#[derive(Clone, Copy, Debug, PartialEq, Eq, Hash, Structural)]
pub enum StatusSectionKind {
    Staged,
    Unstaged,
    Untracked,
}

/// The heading of a section.
pub open spec fn spec_title(k: StatusSectionKind) -> Seq<char> {
    match k {
        StatusSectionKind::Staged => "STAGED"@,
        StatusSectionKind::Unstaged => "UNSTAGED"@,
        StatusSectionKind::Untracked => "UNTRACKED"@,
    }
}

/// The position of a section in the file list.
pub open spec fn spec_index(k: StatusSectionKind) -> nat {
    match k {
        StatusSectionKind::Staged => 0,
        StatusSectionKind::Unstaged => 1,
        StatusSectionKind::Untracked => 2,
    }
}

/// The section at position `i` of the file list.
pub open spec fn kind_at(i: int) -> StatusSectionKind {
    if i == 0 {
        StatusSectionKind::Staged
    } else if i == 1 {
        StatusSectionKind::Unstaged
    } else {
        StatusSectionKind::Untracked
    }
}

impl StatusSectionKind {
    /// The heading of the section.
    pub fn title(self) -> (t: &'static str)
        ensures
            t@ == spec_title(self),
    {
        proof {
            reveal_strlit("STAGED");
            reveal_strlit("UNSTAGED");
            reveal_strlit("UNTRACKED");
        }
        match self {
            StatusSectionKind::Staged => "STAGED",
            StatusSectionKind::Unstaged => "UNSTAGED",
            StatusSectionKind::Untracked => "UNTRACKED",
        }
    }

    /// The position of the section in the file list.
    pub fn index(self) -> (i: usize)
        ensures
            i == spec_index(self),
            kind_at(i as int) == self,
    {
        match self {
            StatusSectionKind::Staged => 0,
            StatusSectionKind::Unstaged => 1,
            StatusSectionKind::Untracked => 2,
        }
    }
}

/// How many changed files fall into a section.
#[derive(Clone, Debug, PartialEq, Eq, Structural)]
pub struct StatusSectionSummary {
    pub kind: StatusSectionKind,
    pub count: usize,
}

/// A section of the grouped file list: its heading line and item count.
#[derive(Clone, Debug, PartialEq, Eq)]
pub struct GroupedStatusSection {
    pub kind: StatusSectionKind,
    pub title: &'static str,
    pub start_line: usize,
    pub item_count: usize,
}

/// Where the grouped file list sits in the file document.
#[derive(Clone, Debug)]
pub struct GroupedGitViewMeta {
    pub files_start_line: usize,
    pub files_count: usize,
    pub sections: Vec<GroupedStatusSection>,
}

/// The current branch with its upstream and how far it is ahead and behind.
#[derive(Clone, Debug)]
pub struct BranchTrackingStatus {
    pub branch: String,
    pub upstream: Option<String>,
    pub ahead: usize,
    pub behind: usize,
}

impl BranchTrackingStatus {
    /// No branch, no upstream, nothing ahead or behind.
    pub fn empty() -> (t: Self)
        ensures
            t.branch@.len() == 0,
            t.upstream is None,
            t.ahead == 0,
            t.behind == 0,
    {
        BranchTrackingStatus { branch: String::new(), upstream: None, ahead: 0, behind: 0 }
    }
}

// ─────────────────────────────────────────────────────────────────
//  Porcelain v1 status lines
// ─────────────────────────────────────────────────────────────────

/// One line of `git status --porcelain=v1`: the two status letters and the
/// path (for a rename, the new path).
#[derive(Clone, Debug)]
pub struct GitEntry {
    pub xy: String,
    pub path: String,
}

/// The plain value of an entry.
pub open spec fn entry_view(e: GitEntry) -> (Seq<char>, Seq<char>) {
    (e.xy@, e.path@)
}

/// The plain values of a list of entries.
pub open spec fn entries_view(es: Seq<GitEntry>) -> Seq<(Seq<char>, Seq<char>)> {
    es.map_values(|e: GitEntry| entry_view(e))
}

/// The status letters and the text after them, read as the bytes of the
/// line's UTF-8 encoding are read: the line needs at least four bytes with a
/// space as the third; the first two bytes, each taken as a character, are
/// the status letters. Where the first character takes one byte so does the
/// second and the space is the third character; where the first character
/// takes two bytes the space is the second.
pub open spec fn status_line_head(s: Seq<char>) -> Option<(Seq<char>, Seq<char>)> {
    if s.len() >= 4 && (s[0] as u32) < 0x80 && (s[1] as u32) < 0x80 && s[2] == ' ' {
        Some((s.take(2), s.skip(3)))
    } else if s.len() >= 3 && 0x80 <= (s[0] as u32) < 0x800 && s[1] == ' ' {
        Some(
            (
                seq![
                    (0xc0 + (s[0] as u32) / 64) as char,
                    (0x80 + (s[0] as u32) % 64) as char,
                ],
                s.skip(2),
            ),
        )
    } else {
        None
    }
}

/// The separator between the old and new path of a rename.
pub open spec fn arrow() -> Seq<char> {
    seq![' ', '-', '>', ' ']
}

/// The largest `k < n` at which ` -> ` occurs in `s`, or -1.
pub open spec fn last_arrow_before(s: Seq<char>, n: int) -> int
    decreases n,
{
    if n <= 0 {
        -1
    } else if occurs_at(s, arrow(), n - 1) {
        n - 1
    } else {
        last_arrow_before(s, n - 1)
    }
}

/// The path after the last ` -> ` of `s`, or all of `s` where there is none.
pub open spec fn rename_target(s: Seq<char>) -> Seq<char> {
    let k = last_arrow_before(s, s.len() as int);
    if k >= 0 {
        s.skip(k + 4)
    } else {
        s
    }
}

/// The entry that a porcelain v1 line describes, if it is a status line.
pub open spec fn spec_status_entry(s: Seq<char>) -> Option<(Seq<char>, Seq<char>)> {
    match status_line_head(s) {
        Some((xy, rest)) => Some((xy, rename_target(rest))),
        None => None,
    }
}

/// The entries of the status lines among `ls`, in order.
pub open spec fn spec_status_entries(ls: Seq<Seq<char>>) -> Seq<(Seq<char>, Seq<char>)>
    decreases ls.len(),
{
    if ls.len() == 0 {
        seq![]
    } else {
        let before = spec_status_entries(ls.drop_last());
        match spec_status_entry(ls.last()) {
            Some(e) => before.push(e),
            None => before,
        }
    }
}

/// The entries that `git status --porcelain=v1` output describes.
pub open spec fn spec_parse_status(status: Seq<char>) -> Seq<(Seq<char>, Seq<char>)> {
    spec_status_entries(spec_lines(status))
}

/// The character whose code is the byte `b`.
fn byte_char(b: u32) -> (c: char)
    requires
        b < 0x100,
    ensures
        c == b as char,
{
    (b as u8) as char
}

/// The path after the last ` -> ` of `v[lo..]`.
fn rename_target_from(v: &Vec<char>, lo: usize) -> (r: Vec<char>)
    requires
        lo <= v.len(),
    ensures
        r@ == rename_target(v@.skip(lo as int)),
{
    let ghost s = v@.skip(lo as int);
    let mut n: usize = v.len() - lo;
    while n > 0
        invariant
            n <= v.len() - lo,
            s == v@.skip(lo as int),
            last_arrow_before(s, s.len() as int) == last_arrow_before(s, n as int),
        decreases n,
    {
        let k = n - 1;
        if v.len() - lo >= 4 && k <= v.len() - lo - 4 && matches_at(v, lo + k, " -> ") {
            proof {
                reveal_strlit(" -> ");
                assert(" -> "@ =~= arrow());
                assert(s.subrange(k as int, k + 4) =~= v@.subrange(lo + k, lo + k + 4));
            }
            return slice_chars(v, lo + k + 4, v.len());
        }
        proof {
            reveal_strlit(" -> ");
            assert(" -> "@ =~= arrow());
            if k + 4 <= v.len() - lo {
                assert(s.subrange(k as int, k + 4) =~= v@.subrange(lo + k, lo + k + 4));
            }
        }
        n = k;
    }
    let r = slice_chars(v, lo, v.len());
    r
}

/// Parses one line of `git status --porcelain=v1`: two status letters, a
/// space, then the path; for a rename (`old -> new`) the new path.
pub fn parse_porcelain_status_line(line: &str) -> (r: Option<GitEntry>)
    ensures
        match spec_status_entry(line@) {
            Some(e) => r is Some && entry_view(r->0) == e,
            None => r is None,
        },
{
    let v = chars_of(line);
    parse_status_chars(&v)
}

/// Parses one status line given as characters.
pub fn parse_status_chars(v: &Vec<char>) -> (r: Option<GitEntry>)
    ensures
        match spec_status_entry(v@) {
            Some(e) => r is Some && entry_view(r->0) == e,
            None => r is None,
        },
{
    let n = v.len();
    if n >= 4 && (v[0] as u32) < 0x80 && (v[1] as u32) < 0x80 && v[2] == ' ' {
        let xy_chars = slice_chars(v, 0, 2);
        let xy = string_of(&xy_chars);
        let path = string_of(&rename_target_from(v, 3));
        return Some(GitEntry { xy, path });
    }
    if n >= 3 && 0x80 <= (v[0] as u32) && (v[0] as u32) < 0x800 && v[1] == ' ' {
        let u = v[0] as u32;
        let mut xy = String::new();
        xy.push(byte_char(0xc0 + u / 64));
        xy.push(byte_char(0x80 + u % 64));
        let path = string_of(&rename_target_from(v, 2));
        proof {
            assert(xy@ =~= seq![(0xc0 + u / 64) as char, (0x80 + u % 64) as char]);
        }
        return Some(GitEntry { xy, path });
    }
    None
}

/// Parses the output of `git status --porcelain=v1`, skipping lines that
/// are not status lines.
pub fn parse_porcelain_status(status: &str) -> (r: Vec<GitEntry>)
    ensures
        entries_view(r@) == spec_parse_status(status@),
{
    let ls = lines_of(status);
    let mut out: Vec<GitEntry> = Vec::new();
    let mut i: usize = 0;
    while i < ls.len()
        invariant
            i <= ls.len(),
            views(ls@) == spec_lines(status@),
            entries_view(out@) == spec_status_entries(views(ls@).take(i as int)),
        decreases ls.len() - i,
    {
        let e = parse_status_chars(&ls[i]);
        assert(views(ls@).take(i + 1).drop_last() =~= views(ls@).take(i as int));
        assert(views(ls@).take(i + 1).last() == ls@[i as int]@);
        match e {
            Some(e) => {
                out.push(e);
                assert(entries_view(out@) =~= spec_status_entries(views(ls@).take(i + 1)));
            },
            None => {},
        }
        i += 1;
    }
    assert(views(ls@).take(ls.len() as int) =~= views(ls@));
    out
}

// ─────────────────────────────────────────────────────────────────
//  Classification
// ─────────────────────────────────────────────────────────────────

/// The sections a status pair `xy` belongs to: untracked for `??`;
/// otherwise staged when the index letter `x` is set and unstaged when the
/// work-tree letter `y` is set (a missing letter counts as a space).
pub open spec fn spec_classify(xy: Seq<char>) -> Seq<StatusSectionKind> {
    let x = if xy.len() > 0 { xy[0] } else { ' ' };
    let y = if xy.len() > 1 { xy[1] } else { ' ' };
    if x == '?' && y == '?' {
        seq![StatusSectionKind::Untracked]
    } else {
        let staged: Seq<StatusSectionKind> = if x != ' ' && x != '?' {
            seq![StatusSectionKind::Staged]
        } else {
            seq![]
        };
        if y != ' ' && y != '?' {
            staged.push(StatusSectionKind::Unstaged)
        } else {
            staged
        }
    }
}

/// Classifies a porcelain status pair into file-list sections.
pub fn classify_status_xy(xy: &str) -> (r: Vec<StatusSectionKind>)
    ensures
        r@ == spec_classify(xy@),
{
    let v = chars_of(xy);
    let x = if v.len() > 0 {
        v[0]
    } else {
        ' '
    };
    let y = if v.len() > 1 {
        v[1]
    } else {
        ' '
    };
    let mut kinds: Vec<StatusSectionKind> = Vec::new();
    if x == '?' && y == '?' {
        kinds.push(StatusSectionKind::Untracked);
        assert(kinds@ =~= spec_classify(xy@));
        return kinds;
    }
    if x != ' ' && x != '?' {
        kinds.push(StatusSectionKind::Staged);
    }
    if y != ' ' && y != '?' {
        kinds.push(StatusSectionKind::Unstaged);
    }
    assert(kinds@ =~= spec_classify(xy@));
    kinds
}

/// For a porcelain status pair `xy`: `??` puts the file under untracked
/// alone. Any other pair puts it under staged exactly when the index letter
/// is neither blank nor `?`, and under unstaged exactly when the work-tree
/// letter is neither blank nor `?` (so `M`, `D`, `A`, `R`, `U` and every
/// other work-tree letter count); never under untracked, never twice in one
/// section, and staged before unstaged.
pub proof fn lemma_classify_sections(xy: Seq<char>)
    requires
        xy.len() == 2,
    ensures
        xy[0] == '?' && xy[1] == '?' ==> spec_classify(xy) == seq![StatusSectionKind::Untracked],
        !(xy[0] == '?' && xy[1] == '?') ==> {
            let ks = spec_classify(xy);
            &&& ks.contains(StatusSectionKind::Staged) <==> xy[0] != ' ' && xy[0] != '?'
            &&& ks.contains(StatusSectionKind::Unstaged) <==> xy[1] != ' ' && xy[1] != '?'
            &&& !ks.contains(StatusSectionKind::Untracked)
            &&& forall|i: int, j: int| 0 <= i < j < ks.len() ==> ks[i] != ks[j]
            &&& ks.len() == 2 ==> ks[0] == StatusSectionKind::Staged
        },
{
    let ks = spec_classify(xy);
    if !(xy[0] == '?' && xy[1] == '?') {
        if xy[0] != ' ' && xy[0] != '?' {
            assert(ks[0] == StatusSectionKind::Staged);
        }
        if xy[1] != ' ' && xy[1] != '?' {
            assert(ks[ks.len() - 1] == StatusSectionKind::Unstaged);
        }
    }
}

/// The first section of a status pair, if any.
pub open spec fn spec_primary(xy: Seq<char>) -> Option<StatusSectionKind> {
    let k = spec_classify(xy);
    if k.len() > 0 {
        Some(k[0])
    } else {
        None
    }
}

/// The section a file is listed under: the first of its sections.
pub fn primary_status_section_kind(xy: &str) -> (r: Option<StatusSectionKind>)
    ensures
        r == spec_primary(xy@),
{
    let k = classify_status_xy(xy);
    if k.len() > 0 {
        Some(k[0])
    } else {
        None
    }
}

/// How many of `es` are listed under section `k`.
pub open spec fn count_in_section(es: Seq<(Seq<char>, Seq<char>)>, k: StatusSectionKind) -> nat
    decreases es.len(),
{
    if es.len() == 0 {
        0
    } else {
        count_in_section(es.drop_last(), k) + if spec_primary(es.last().0) == Some(k) {
            1nat
        } else {
            0nat
        }
    }
}

proof fn lemma_count_le(es: Seq<(Seq<char>, Seq<char>)>, k: StatusSectionKind)
    ensures
        count_in_section(es, k) <= es.len(),
    decreases es.len(),
{
    if es.len() > 0 {
        lemma_count_le(es.drop_last(), k);
    }
}

/// Counts the changed files of `git status --porcelain=v1` output by
/// section: one summary each for staged, unstaged and untracked, in that
/// order.
pub fn summarize_porcelain_status(status: &str) -> (r: Vec<StatusSectionSummary>)
    ensures
        r@.len() == 3,
        forall|i: int|
            0 <= i < 3 ==> (#[trigger] r@[i]).kind == kind_at(i) && r@[i].count
                == count_in_section(spec_parse_status(status@), kind_at(i)),
{
    let entries = parse_porcelain_status(status);
    let ghost es = entries_view(entries@);
    let mut staged: usize = 0;
    let mut unstaged: usize = 0;
    let mut untracked: usize = 0;
    let mut i: usize = 0;
    while i < entries.len()
        invariant
            i <= entries.len(),
            es == entries_view(entries@),
            staged == count_in_section(es.take(i as int), StatusSectionKind::Staged),
            unstaged == count_in_section(es.take(i as int), StatusSectionKind::Unstaged),
            untracked == count_in_section(es.take(i as int), StatusSectionKind::Untracked),
        decreases entries.len() - i,
    {
        proof {
            assert(es.take(i + 1).drop_last() =~= es.take(i as int));
            lemma_count_le(es.take(i as int), StatusSectionKind::Staged);
            lemma_count_le(es.take(i as int), StatusSectionKind::Unstaged);
            lemma_count_le(es.take(i as int), StatusSectionKind::Untracked);
        }
        match primary_status_section_kind(entries[i].xy.as_str()) {
            Some(StatusSectionKind::Staged) => staged += 1,
            Some(StatusSectionKind::Unstaged) => unstaged += 1,
            Some(StatusSectionKind::Untracked) => untracked += 1,
            None => {},
        }
        i += 1;
    }
    assert(es.take(entries.len() as int) =~= es);
    let mut r: Vec<StatusSectionSummary> = Vec::new();
    r.push(StatusSectionSummary { kind: StatusSectionKind::Staged, count: staged });
    r.push(StatusSectionSummary { kind: StatusSectionKind::Unstaged, count: unstaged });
    r.push(StatusSectionSummary { kind: StatusSectionKind::Untracked, count: untracked });
    r
}

// ─────────────────────────────────────────────────────────────────
//  Branch tracking (porcelain v2 header)
// ─────────────────────────────────────────────────────────────────

/// The upstream and ahead/behind counts from `git status --porcelain=v2
/// --branch` output.
#[derive(Clone, Debug)]
pub struct BranchTrackingSnapshot {
    pub upstream: Option<String>,
    pub ahead: usize,
    pub behind: usize,
}

/// The plain value of a snapshot.
pub open spec fn snapshot_view(s: BranchTrackingSnapshot) -> (Option<Seq<char>>, nat, nat) {
    (
        match s.upstream {
            Some(u) => Some(u@),
            None => None,
        },
        s.ahead as nat,
        s.behind as nat,
    )
}

/// Reading the first `n` words of an `ab` value: the last `+N` count and the
/// last `-N` count seen, each `None` where its last word did not parse.
pub open spec fn ab_scan(ws: Seq<Seq<char>>, n: nat) -> (Option<nat>, Option<nat>)
    decreases n,
{
    if n == 0 || n > ws.len() {
        (None, None)
    } else {
        let (a, b) = ab_scan(ws, (n - 1) as nat);
        let w = ws[n - 1];
        if w.len() > 0 && w[0] == '+' {
            (spec_parse_unsigned(w.drop_first(), usize::MAX as nat), b)
        } else if w.len() > 0 && w[0] == '-' {
            (a, spec_parse_unsigned(w.drop_first(), usize::MAX as nat))
        } else {
            (a, b)
        }
    }
}

/// The ahead and behind counts of a `# branch.ab +A -B` value, when both
/// are present and parse.
pub open spec fn spec_ab_counts(value: Seq<char>) -> Option<(nat, nat)> {
    let ws = spec_words(value);
    match ab_scan(ws, ws.len()) {
        (Some(a), Some(b)) => Some((a, b)),
        _ => None,
    }
}

/// Parses the value of a `# branch.ab` header (`+A -B`, in either order)
/// into (ahead, behind).
pub fn parse_branch_ab_counts(value: &str) -> (r: Option<(usize, usize)>)
    ensures
        match spec_ab_counts(value@) {
            Some((a, b)) => r == Some((a as usize, b as usize)),
            None => r is None,
        },
{
    let v = chars_of(value);
    assert(v@.subrange(0, v@.len() as int) =~= v@);
    ab_counts_of(&v, 0, v.len())
}

/// Parses `v[lo..hi]` as the value of a `# branch.ab` header.
fn ab_counts_of(v: &Vec<char>, lo: usize, hi: usize) -> (r: Option<(usize, usize)>)
    requires
        lo <= hi <= v.len(),
    ensures
        match spec_ab_counts(v@.subrange(lo as int, hi as int)) {
            Some((a, b)) => r == Some((a as usize, b as usize)) && a <= usize::MAX && b
                <= usize::MAX,
            None => r is None,
        },
{
    let ws = words(v, lo, hi);
    let ghost wv = views(ws@);
    let mut ahead: Option<usize> = None;
    let mut behind: Option<usize> = None;
    let mut i: usize = 0;
    while i < ws.len()
        invariant
            i <= ws.len(),
            wv == views(ws@),
            ({
                let (a, b) = ab_scan(wv, i as nat);
                &&& match a {
                    Some(n) => ahead == Some(n as usize) && n <= usize::MAX,
                    None => ahead is None,
                }
                &&& match b {
                    Some(n) => behind == Some(n as usize) && n <= usize::MAX,
                    None => behind is None,
                }
            }),
        decreases ws.len() - i,
    {
        let w = &ws[i];
        assert(wv[i as int] == w@);
        if w.len() > 0 && w[0] == '+' {
            assert(w@.subrange(1, w@.len() as int) =~= w@.drop_first());
            ahead = match parse_unsigned(w, 1, w.len(), usize::MAX as u64) {
                Some(n) => Some(n as usize),
                None => None,
            };
        } else if w.len() > 0 && w[0] == '-' {
            assert(w@.subrange(1, w@.len() as int) =~= w@.drop_first());
            behind = match parse_unsigned(w, 1, w.len(), usize::MAX as u64) {
                Some(n) => Some(n as usize),
                None => None,
            };
        }
        i += 1;
    }
    match (ahead, behind) {
        (Some(a), Some(b)) => Some((a, b)),
        _ => None,
    }
}

/// The snapshot state after one more line of porcelain v2 output: a
/// `# branch.upstream U` line with a non-blank `U` sets the upstream to `U`
/// trimmed; a `# branch.ab` line whose counts parse sets ahead and behind.
pub open spec fn tracking_step(st: (Option<Seq<char>>, nat, nat), line: Seq<char>) -> (
    Option<Seq<char>>,
    nat,
    nat,
) {
    let pre = "# branch."@;
    if !has_prefix(line, pre) {
        st
    } else {
        let rest = line.skip(pre.len() as int);
        if has_prefix(rest, "upstream "@) {
            let u = trim(rest.skip(9));
            if u.len() > 0 {
                (Some(u), st.1, st.2)
            } else {
                st
            }
        } else if has_prefix(rest, "ab "@) {
            match spec_ab_counts(rest.skip(3)) {
                Some((a, b)) => (st.0, a, b),
                None => st,
            }
        } else {
            st
        }
    }
}

/// The snapshot state after the lines `ls`.
pub open spec fn tracking_fold(ls: Seq<Seq<char>>) -> (Option<Seq<char>>, nat, nat)
    decreases ls.len(),
{
    if ls.len() == 0 {
        (None, 0, 0)
    } else {
        tracking_step(tracking_fold(ls.drop_last()), ls.last())
    }
}

/// Reads the upstream and the ahead/behind counts from the `# branch.*`
/// headers of `git status --porcelain=v2 --branch` output; later headers
/// win, and headers that do not parse change nothing.
pub fn parse_branch_tracking_snapshot(status: &str) -> (r: BranchTrackingSnapshot)
    ensures
        snapshot_view(r) == tracking_fold(spec_lines(status@)),
{
    let ls = lines_of(status);
    let mut snap = BranchTrackingSnapshot { upstream: None, ahead: 0, behind: 0 };
    let mut i: usize = 0;
    proof {
        reveal_strlit("# branch.");
        reveal_strlit("upstream ");
        reveal_strlit("ab ");
    }
    while i < ls.len()
        invariant
            i <= ls.len(),
            views(ls@) == spec_lines(status@),
            snapshot_view(snap) == tracking_fold(views(ls@).take(i as int)),
        decreases ls.len() - i,
    {
        let line = &ls[i];
        proof {
            reveal_strlit("# branch.");
            reveal_strlit("upstream ");
            reveal_strlit("ab ");
        }
        assert(views(ls@).take(i + 1).drop_last() =~= views(ls@).take(i as int));
        assert(views(ls@).take(i + 1).last() == line@);
        let ghost before = snapshot_view(snap);
        if matches_at(line, 0, "# branch.") {
            let ghost rest = line@.skip(9);
            if line.len() >= 18 && matches_at(line, 9, "upstream ") {
                assert(line@.subrange(9, 18) =~= rest.subrange(0, 9));
                let (a, b) = trim_bounds(line, 18, line.len());
                assert(line@.subrange(18, line.len() as int) =~= rest.skip(9));
                if a < b {
                    let u = slice_chars(line, a, b);
                    snap.upstream = Some(string_of(&u));
                }
                assert(snapshot_view(snap) == tracking_step(before, line@));
            } else if line.len() >= 12 && matches_at(line, 9, "ab ") {
                assert(line@.subrange(9, 12) =~= rest.subrange(0, 3));
                assert(!has_prefix(rest, "upstream "@)) by {
                    if has_prefix(rest, "upstream "@) {
                        assert(rest.subrange(0, 9)[0] == "upstream "@[0]);
                        assert(rest.subrange(0, 3)[0] == "ab "@[0]);
                    }
                };
                assert(line@.subrange(12, line.len() as int) =~= rest.skip(3));
                match ab_counts_of(line, 12, line.len()) {
                    Some((a, b)) => {
                        snap.ahead = a;
                        snap.behind = b;
                    },
                    None => {},
                }
                assert(snapshot_view(snap) == tracking_step(before, line@));
            } else {
                proof {
                    if has_prefix(rest, "upstream "@) {
                        assert(line@.subrange(9, 18) =~= rest.subrange(0, 9));
                    }
                    if has_prefix(rest, "ab "@) {
                        assert(line@.subrange(9, 12) =~= rest.subrange(0, 3));
                    }
                }
            }
        }
        i += 1;
    }
    assert(views(ls@).take(ls.len() as int) =~= views(ls@));
    snap
}

// ─────────────────────────────────────────────────────────────────
//  Diff lines
// ─────────────────────────────────────────────────────────────────

/// The style of a line of `git diff` output: hunk headers (`@@`), added and
/// removed lines (`+`/`-` but not `+++`/`---`), file headers (`diff --git`),
/// metadata (`index `, `--- `, `+++ `, `# `), and anything else as context.
pub open spec fn spec_diff_style(l: Seq<char>) -> LineStyle {
    if has_prefix(l, "@@"@) {
        LineStyle::DiffHunk
    } else if has_prefix(l, "+"@) && !has_prefix(l, "+++"@) {
        LineStyle::DiffAdd
    } else if has_prefix(l, "-"@) && !has_prefix(l, "---"@) {
        LineStyle::DiffRemove
    } else if has_prefix(l, "diff --git"@) {
        LineStyle::DiffFileHeader
    } else if has_prefix(l, "index "@) || has_prefix(l, "--- "@) || has_prefix(l, "+++ "@)
        || has_prefix(l, "# "@) {
        LineStyle::DiffMeta
    } else {
        LineStyle::Normal
    }
}

/// Classifies a line of diff output.
pub fn style_for_diff_line(line: &str) -> (s: LineStyle)
    ensures
        s == spec_diff_style(line@),
{
    let v = chars_of(line);
    diff_style_of(&v)
}

/// Classifies a line of diff output given as characters.
pub fn diff_style_of(v: &Vec<char>) -> (s: LineStyle)
    ensures
        s == spec_diff_style(v@),
{
    if starts_with(v, "@@") {
        LineStyle::DiffHunk
    } else if starts_with(v, "+") && !starts_with(v, "+++") {
        LineStyle::DiffAdd
    } else if starts_with(v, "-") && !starts_with(v, "---") {
        LineStyle::DiffRemove
    } else if starts_with(v, "diff --git") {
        LineStyle::DiffFileHeader
    } else if starts_with(v, "index ") || starts_with(v, "--- ") || starts_with(v, "+++ ")
        || starts_with(v, "# ") {
        LineStyle::DiffMeta
    } else {
        LineStyle::Normal
    }
}

/// The first index `>= i` at which `c` occurs in `s`, or -1.
pub open spec fn first_from(s: Seq<char>, c: char, i: int) -> int
    decreases s.len() - i,
{
    if i < 0 || i >= s.len() {
        -1
    } else if s[i] == c {
        i
    } else {
        first_from(s, c, i + 1)
    }
}

/// The first index at which `c` occurs in `s`, or -1.
pub open spec fn find_char(s: Seq<char>, c: char) -> int {
    first_from(s, c, 0)
}

pub(crate) proof fn lemma_first_from_bounds(s: Seq<char>, c: char, i: int)
    requires
        0 <= i,
    ensures
        first_from(s, c, i) == -1 || (i <= first_from(s, c, i) < s.len() && s[first_from(s, c, i)]
            == c),
    decreases s.len() - i,
{
    if i < s.len() && s[i] != c {
        lemma_first_from_bounds(s, c, i + 1);
    }
}

/// The position of the first `c` in `v[lo..hi]`.
pub fn find_char_in(v: &Vec<char>, lo: usize, hi: usize, c: char) -> (r: Option<usize>)
    requires
        lo <= hi <= v.len(),
    ensures
        match r {
            Some(k) => lo <= k < hi && find_char(v@.subrange(lo as int, hi as int), c) == k - lo,
            None => find_char(v@.subrange(lo as int, hi as int), c) == -1,
        },
{
    let ghost s = v@.subrange(lo as int, hi as int);
    let mut i = lo;
    while i < hi
        invariant
            lo <= i <= hi <= v.len(),
            s == v@.subrange(lo as int, hi as int),
            find_char(s, c) == first_from(s, c, i - lo),
        decreases hi - i,
    {
        assert(s[i - lo] == v@[i as int]);
        if v[i] == c {
            return Some(i);
        }
        i += 1;
    }
    None
}

/// `s` up to its first comma, as `s.split(',').next()` gives it.
pub open spec fn before_comma(s: Seq<char>) -> Seq<char> {
    let k = find_char(s, ',');
    if k >= 0 {
        s.take(k)
    } else {
        s
    }
}

/// The start lines `(old, new)` named by a hunk header
/// `@@ -OLD[,COUNT] +NEW[,COUNT] @@`: after `@@ -`, the number before the
/// first space (up to a comma), and after the first `+` that follows, the
/// number before the next space (up to a comma).
pub open spec fn spec_hunk_header(line: Seq<char>) -> Option<(nat, nat)> {
    if !has_prefix(line, "@@ -"@) {
        None
    } else {
        let rest = line.skip(4);
        let me = find_char(rest, ' ');
        if me < 0 {
            None
        } else {
            match spec_parse_unsigned(before_comma(rest.take(me)), u32::MAX as nat) {
                None => None,
                Some(o) => {
                    let r2 = rest.skip(me);
                    let ps = find_char(r2, '+');
                    if ps < 0 {
                        None
                    } else {
                        let r3 = r2.skip(ps + 1);
                        let pe = find_char(r3, ' ');
                        let np = if pe >= 0 {
                            r3.take(pe)
                        } else {
                            r3
                        };
                        match spec_parse_unsigned(before_comma(np), u32::MAX as nat) {
                            Some(n) => Some((o, n)),
                            None => None,
                        }
                    }
                },
            }
        }
    }
}

/// Parses the number before the first comma of `v[lo..hi]` as a `u32`.
fn parse_u32_before_comma(v: &Vec<char>, lo: usize, hi: usize) -> (r: Option<u32>)
    requires
        lo <= hi <= v.len(),
    ensures
        match spec_parse_unsigned(before_comma(v@.subrange(lo as int, hi as int)), u32::MAX as nat) {
            Some(n) => r == Some(n as u32),
            None => r is None,
        },
{
    let ghost s = v@.subrange(lo as int, hi as int);
    let end = match find_char_in(v, lo, hi, ',') {
        Some(k) => k,
        None => hi,
    };
    assert(v@.subrange(lo as int, end as int) =~= before_comma(s));
    match parse_unsigned(v, lo, end, 0xffff_ffff) {
        Some(n) => Some(n as u32),
        None => None,
    }
}

/// Parses `@@ -old,count +new,count @@` into `(old_start, new_start)`.
pub fn parse_hunk_header(line: &str) -> (r: Option<(u32, u32)>)
    ensures
        match spec_hunk_header(line@) {
            Some((o, n)) => r == Some((o as u32, n as u32)),
            None => r is None,
        },
{
    let v = chars_of(line);
    hunk_header_of(&v)
}

/// Parses a hunk header given as characters.
pub fn hunk_header_of(v: &Vec<char>) -> (r: Option<(u32, u32)>)
    ensures
        match spec_hunk_header(v@) {
            Some((o, n)) => r == Some((o as u32, n as u32)),
            None => r is None,
        },
{
    proof {
        reveal_strlit("@@ -");
    }
    if !starts_with(v, "@@ -") {
        return None;
    }
    let n = v.len();
    let ghost rest = v@.skip(4);
    assert(v@.subrange(4, n as int) =~= rest);
    let me = match find_char_in(v, 4, n, ' ') {
        Some(k) => k,
        None => {
            return None;
        },
    };
    assert(v@.subrange(4, me as int) =~= rest.take(me - 4));
    let old = match parse_u32_before_comma(v, 4, me) {
        Some(o) => o,
        None => {
            return None;
        },
    };
    let ghost r2 = rest.skip(me - 4);
    assert(v@.subrange(me as int, n as int) =~= r2);
    let ps = match find_char_in(v, me, n, '+') {
        Some(k) => k,
        None => {
            return None;
        },
    };
    let ghost r3 = r2.skip(ps - me + 1);
    assert(v@.subrange(ps + 1, n as int) =~= r3);
    let pe = match find_char_in(v, ps + 1, n, ' ') {
        Some(k) => k,
        None => n,
    };
    assert(v@.subrange(ps + 1, pe as int) =~= (if find_char(r3, ' ') >= 0 {
        r3.take(find_char(r3, ' '))
    } else {
        r3
    }));
    match parse_u32_before_comma(v, ps + 1, pe) {
        Some(new) => Some((old, new)),
        None => None,
    }
}

/// `k` spaces.
pub open spec fn spaces(k: nat) -> Seq<char> {
    Seq::new(k, |i: int| ' ')
}

/// Reading the first `n` characters of `s` for display: the text so far
/// and the current column modulo 4. Line breaks (`\n`, `\r\n`, or a lone
/// `\r`) become `\n` and reset the column; a tab becomes the spaces up to
/// the next multiple of four; other characters are kept.
pub open spec fn display_scan(s: Seq<char>, n: nat) -> (Seq<char>, nat)
    decreases n,
{
    if n == 0 || n > s.len() {
        (seq![], 0)
    } else {
        let (out, col) = display_scan(s, (n - 1) as nat);
        let ch = s[n - 1];
        if ch == '\r' {
            if n < s.len() && s[n as int] == '\n' {
                (out, col)
            } else {
                (out.push('\n'), 0)
            }
        } else if ch == '\n' {
            (out.push('\n'), 0)
        } else if ch == '\t' {
            (out + spaces((4 - col) as nat), 0)
        } else {
            (out.push(ch), (col + 1) % 4)
        }
    }
}

/// The display form of `text`.
pub open spec fn spec_normalize(text: Seq<char>) -> Seq<char> {
    display_scan(text, text.len()).0
}

proof fn lemma_display_col(s: Seq<char>, n: nat)
    ensures
        display_scan(s, n).1 < 4,
    decreases n,
{
    if n > 0 && n <= s.len() {
        lemma_display_col(s, (n - 1) as nat);
    }
}

/// Expands tabs to four-column stops and turns `\r\n` and lone `\r` into
/// `\n`, for display.
pub fn normalize_for_display(text: &str) -> (r: String)
    ensures
        r@ == spec_normalize(text@),
{
    let v = chars_of(text);
    assert(v@.subrange(0, v@.len() as int) =~= v@);
    normalize_chars(&v, 0, v.len())
}

/// The display form of `v[lo..hi]`.
pub fn normalize_chars(v: &Vec<char>, lo: usize, hi: usize) -> (r: String)
    requires
        lo <= hi <= v.len(),
    ensures
        r@ == spec_normalize(v@.subrange(lo as int, hi as int)),
{
    let ghost s = v@.subrange(lo as int, hi as int);
    let mut out = String::new();
    let mut col: usize = 0;
    let mut i = lo;
    while i < hi
        invariant
            lo <= i <= hi <= v.len(),
            s == v@.subrange(lo as int, hi as int),
            (out@, col as nat) == display_scan(s, (i - lo) as nat),
        decreases hi - i,
    {
        proof {
            lemma_display_col(s, (i - lo) as nat);
        }
        let ch = v[i];
        assert(s[i - lo] == ch);
        if ch == '\r' {
            if i + 1 < hi && v[i + 1] == '\n' {
                assert(s[i - lo + 1] == v@[i + 1]);
            } else {
                out.push('\n');
                col = 0;
            }
        } else if ch == '\n' {
            out.push('\n');
            col = 0;
        } else if ch == '\t' {
            let ghost before = out@;
            let k = 4 - col;
            let mut j: usize = 0;
            while j < k
                invariant
                    j <= k <= 4,
                    out@ == before + spaces(j as nat),
                decreases k - j,
            {
                out.push(' ');
                j += 1;
                assert(out@ =~= before + spaces(j as nat));
            }
            col = 0;
        } else {
            out.push(ch);
            col = (col + 1) % 4;
        }
        i += 1;
    }
    out
}

/// The one-line preview of `text` in at most `max_chars` characters.
pub fn compact_preview(text: &str, max_chars: usize) -> (r: String)
    ensures
        r@ == spec_compact(text@, max_chars as nat),
{
    compact_text(text, max_chars)
}

// ─────────────────────────────────────────────────────────────────
//  Git invocations
// ─────────────────────────────────────────────────────────────────

/// The Git invocations the client makes.
#[derive(Clone, Debug)]
pub enum GitCommand {
    CurrentBranch,
    StatusPorcelainV2Branch,
    StatusPorcelainV1,
    Diff { path: String, cached: bool },
    Add { path: String },
    RestoreStaged { path: String },
    ResetPath { path: String },
    RestorePath { path: String, source: Option<String>, staged: bool, worktree: bool },
    CleanPath { path: String },
    StageAll,
    UnstageAll,
    Commit { message: String, allow_empty: bool },
    Fetch { remote: Option<String> },
    Pull { remote: Option<String>, branch: Option<String>, rebase: bool },
    Push { remote: Option<String>, branch: Option<String>, set_upstream: bool },
    ListBranches,
    CheckoutBranch { name: String },
}

/// ` ` and `s`, when `s` is present.
pub open spec fn opt_word(s: Option<String>) -> Seq<char> {
    match s {
        Some(w) => seq![' '] + w@,
        None => seq![],
    }
}

/// `flag` when `on`.
pub open spec fn flag_if(on: bool, flag: Seq<char>) -> Seq<char> {
    if on {
        flag
    } else {
        seq![]
    }
}

/// The one-line description of an invocation shown in messages: the
/// command line, with a commit message shortened to 48 characters.
pub open spec fn spec_description(c: GitCommand) -> Seq<char> {
    match c {
        GitCommand::CurrentBranch => "git rev-parse --abbrev-ref HEAD"@,
        GitCommand::StatusPorcelainV2Branch => "git status --porcelain=v2 --branch"@,
        GitCommand::StatusPorcelainV1 => "git status --porcelain=v1"@,
        GitCommand::Diff { path, cached } => if cached {
            "git diff --cached -- "@ + path@
        } else {
            "git diff -- "@ + path@
        },
        GitCommand::Add { path } => "git add -- "@ + path@,
        GitCommand::RestoreStaged { path } => "git restore --staged -- "@ + path@,
        GitCommand::ResetPath { path } => "git reset HEAD -- "@ + path@,
        GitCommand::RestorePath { path, source, staged, worktree } => "git restore"@ + match source {
            Some(s) => " --source="@ + s@,
            None => seq![],
        } + flag_if(staged, " --staged"@) + flag_if(worktree, " --worktree"@) + " -- "@ + path@,
        GitCommand::CleanPath { path } => "git clean -f -- "@ + path@,
        GitCommand::StageAll => "git add --all -- ."@,
        GitCommand::UnstageAll => "git restore --staged -- ."@,
        GitCommand::Commit { message, allow_empty } => "git commit --message "@ + spec_compact(
            message@,
            48,
        ) + flag_if(allow_empty, " --allow-empty"@),
        GitCommand::Fetch { remote } => "git fetch"@ + opt_word(remote),
        GitCommand::Pull { remote, branch, rebase } => "git pull"@ + flag_if(rebase, " --rebase"@)
            + opt_word(remote) + opt_word(branch),
        GitCommand::Push { remote, branch, set_upstream } => "git push"@ + flag_if(
            set_upstream,
            " -u"@,
        ) + opt_word(remote) + opt_word(branch),
        GitCommand::ListBranches => "git branch --list"@,
        GitCommand::CheckoutBranch { name } => "git checkout "@ + name@,
    }
}

/// `[w]` when `s` is `Some(w)`.
pub open spec fn opt_arg(s: Option<String>) -> Seq<Seq<char>> {
    match s {
        Some(w) => seq![w@],
        None => seq![],
    }
}

/// `[flag]` when `on`.
pub open spec fn arg_if(on: bool, flag: Seq<char>) -> Seq<Seq<char>> {
    if on {
        seq![flag]
    } else {
        seq![]
    }
}

/// The arguments passed to `git` (after `-C <repo>`) for an invocation.
pub open spec fn spec_args(c: GitCommand) -> Seq<Seq<char>> {
    match c {
        GitCommand::CurrentBranch => seq!["rev-parse"@, "--abbrev-ref"@, "HEAD"@],
        GitCommand::StatusPorcelainV2Branch => seq!["status"@, "--porcelain=v2"@, "--branch"@],
        GitCommand::StatusPorcelainV1 => seq!["status"@, "--porcelain=v1"@],
        GitCommand::Diff { path, cached } => seq!["diff"@] + arg_if(cached, "--cached"@) + seq![
            "--"@,
            path@,
        ],
        GitCommand::Add { path } => seq!["add"@, "--"@, path@],
        GitCommand::RestoreStaged { path } => seq!["restore"@, "--staged"@, "--"@, path@],
        GitCommand::ResetPath { path } => seq!["reset"@, "HEAD"@, "--"@, path@],
        GitCommand::RestorePath { path, source, staged, worktree } => seq!["restore"@] + match source {
            Some(s) => seq!["--source="@ + s@],
            None => seq![],
        } + arg_if(staged, "--staged"@) + arg_if(worktree, "--worktree"@) + seq!["--"@, path@],
        GitCommand::CleanPath { path } => seq!["clean"@, "-f"@, "--"@, path@],
        GitCommand::StageAll => seq!["add"@, "--all"@, "--"@, "."@],
        GitCommand::UnstageAll => seq!["restore"@, "--staged"@, "--"@, "."@],
        GitCommand::Commit { message, allow_empty } => seq!["commit"@] + arg_if(
            allow_empty,
            "--allow-empty"@,
        ) + seq!["--message"@, message@],
        GitCommand::Fetch { remote } => seq!["fetch"@] + opt_arg(remote),
        GitCommand::Pull { remote, branch, rebase } => seq!["pull"@] + arg_if(rebase, "--rebase"@)
            + opt_arg(remote) + opt_arg(branch),
        GitCommand::Push { remote, branch, set_upstream } => seq!["push"@] + arg_if(
            set_upstream,
            "-u"@,
        ) + opt_arg(remote) + opt_arg(branch),
        GitCommand::ListBranches => seq!["branch"@, "--list"@],
        GitCommand::CheckoutBranch { name } => seq!["checkout"@, name@],
    }
}

/// The plain values of a list of strings.
pub open spec fn strings_view(v: Seq<String>) -> Seq<Seq<char>> {
    v.map_values(|s: String| s@)
}

/// `s` followed by `tail`.
fn concat_str(s: &str, tail: &str) -> (r: String)
    ensures
        r@ == s@ + tail@,
{
    let mut r = copy_str(s);
    push_str_chars(&mut r, tail);
    r
}

/// Appends ` w` when `w` is present.
fn push_opt_word(out: &mut String, w: &Option<String>)
    ensures
        final(out)@ == old(out)@ + opt_word(*w),
{
    match w {
        Some(w) => {
            out.push(' ');
            push_str_chars(out, w.as_str());
            assert(final(out)@ =~= old(out)@ + opt_word(Some(*w)));
        },
        None => {
            assert(final(out)@ =~= old(out)@ + opt_word(None));
        },
    }
}

/// Appends `flag` when `on`.
fn push_flag(out: &mut String, on: bool, flag: &str)
    ensures
        final(out)@ == old(out)@ + flag_if(on, flag@),
{
    if on {
        push_str_chars(out, flag);
    } else {
        assert(final(out)@ =~= old(out)@ + flag_if(on, flag@));
    }
}

/// Appends `flag` to the arguments when `on`.
fn push_arg_if(args: &mut Vec<String>, on: bool, flag: &str)
    ensures
        strings_view(final(args)@) == strings_view(old(args)@) + arg_if(on, flag@),
{
    if on {
        args.push(copy_str(flag));
    }
    assert(strings_view(final(args)@) =~= strings_view(old(args)@) + arg_if(on, flag@));
}

/// Appends `w` to the arguments when present.
fn push_opt_arg(args: &mut Vec<String>, w: &Option<String>)
    ensures
        strings_view(final(args)@) == strings_view(old(args)@) + opt_arg(*w),
{
    match w {
        Some(w) => {
            args.push(copy_str(w.as_str()));
        },
        None => {},
    }
    assert(strings_view(final(args)@) =~= strings_view(old(args)@) + opt_arg(*w));
}

/// Appends `s` to the arguments.
fn push_arg(args: &mut Vec<String>, s: &str)
    ensures
        strings_view(final(args)@) == strings_view(old(args)@).push(s@),
{
    args.push(copy_str(s));
    assert(strings_view(final(args)@) =~= strings_view(old(args)@).push(s@));
}

impl GitCommand {
    /// The one-line description of the invocation, for messages.
    pub fn description(&self) -> (d: String)
        ensures
            d@ == spec_description(*self),
    {
        match self {
            GitCommand::CurrentBranch => copy_str("git rev-parse --abbrev-ref HEAD"),
            GitCommand::StatusPorcelainV2Branch => copy_str("git status --porcelain=v2 --branch"),
            GitCommand::StatusPorcelainV1 => copy_str("git status --porcelain=v1"),
            GitCommand::Diff { path, cached } => {
                if *cached {
                    concat_str("git diff --cached -- ", path.as_str())
                } else {
                    concat_str("git diff -- ", path.as_str())
                }
            },
            GitCommand::Add { path } => concat_str("git add -- ", path.as_str()),
            GitCommand::RestoreStaged { path } => concat_str(
                "git restore --staged -- ",
                path.as_str(),
            ),
            GitCommand::ResetPath { path } => concat_str("git reset HEAD -- ", path.as_str()),
            GitCommand::RestorePath { path, source, staged, worktree } => {
                let mut d = copy_str("git restore");
                let ghost d0 = d@;
                match source {
                    Some(s) => {
                        push_str_chars(&mut d, " --source=");
                        push_str_chars(&mut d, s.as_str());
                    },
                    None => {},
                }
                let ghost src = match source {
                    Some(s) => " --source="@ + s@,
                    None => Seq::<char>::empty(),
                };
                assert(d@ =~= d0 + src);
                push_flag(&mut d, *staged, " --staged");
                push_flag(&mut d, *worktree, " --worktree");
                push_str_chars(&mut d, " -- ");
                push_str_chars(&mut d, path.as_str());
                d
            },
            GitCommand::CleanPath { path } => concat_str("git clean -f -- ", path.as_str()),
            GitCommand::StageAll => copy_str("git add --all -- ."),
            GitCommand::UnstageAll => copy_str("git restore --staged -- ."),
            GitCommand::Commit { message, allow_empty } => {
                let mut d = copy_str("git commit --message ");
                let preview = compact_preview(message.as_str(), 48);
                push_str_chars(&mut d, preview.as_str());
                push_flag(&mut d, *allow_empty, " --allow-empty");
                d
            },
            GitCommand::Fetch { remote } => {
                let mut d = copy_str("git fetch");
                push_opt_word(&mut d, remote);
                d
            },
            GitCommand::Pull { remote, branch, rebase } => {
                let mut d = copy_str("git pull");
                push_flag(&mut d, *rebase, " --rebase");
                push_opt_word(&mut d, remote);
                push_opt_word(&mut d, branch);
                d
            },
            GitCommand::Push { remote, branch, set_upstream } => {
                let mut d = copy_str("git push");
                push_flag(&mut d, *set_upstream, " -u");
                push_opt_word(&mut d, remote);
                push_opt_word(&mut d, branch);
                d
            },
            GitCommand::ListBranches => copy_str("git branch --list"),
            GitCommand::CheckoutBranch { name } => concat_str("git checkout ", name.as_str()),
        }
    }

    /// The arguments passed to `git` (after `-C <repo>`) for the invocation.
    pub fn args(&self) -> (a: Vec<String>)
        ensures
            strings_view(a@) == spec_args(*self),
    {
        let mut a: Vec<String> = Vec::new();
        match self {
            GitCommand::CurrentBranch => {
                push_arg(&mut a, "rev-parse");
                push_arg(&mut a, "--abbrev-ref");
                push_arg(&mut a, "HEAD");
            },
            GitCommand::StatusPorcelainV2Branch => {
                push_arg(&mut a, "status");
                push_arg(&mut a, "--porcelain=v2");
                push_arg(&mut a, "--branch");
            },
            GitCommand::StatusPorcelainV1 => {
                push_arg(&mut a, "status");
                push_arg(&mut a, "--porcelain=v1");
            },
            GitCommand::Diff { path, cached } => {
                push_arg(&mut a, "diff");
                push_arg_if(&mut a, *cached, "--cached");
                push_arg(&mut a, "--");
                push_arg(&mut a, path.as_str());
            },
            GitCommand::Add { path } => {
                push_arg(&mut a, "add");
                push_arg(&mut a, "--");
                push_arg(&mut a, path.as_str());
            },
            GitCommand::RestoreStaged { path } => {
                push_arg(&mut a, "restore");
                push_arg(&mut a, "--staged");
                push_arg(&mut a, "--");
                push_arg(&mut a, path.as_str());
            },
            GitCommand::ResetPath { path } => {
                push_arg(&mut a, "reset");
                push_arg(&mut a, "HEAD");
                push_arg(&mut a, "--");
                push_arg(&mut a, path.as_str());
            },
            GitCommand::RestorePath { path, source, staged, worktree } => {
                push_arg(&mut a, "restore");
                let ghost a0 = strings_view(a@);
                match source {
                    Some(s) => {
                        let src = concat_str("--source=", s.as_str());
                        a.push(src);
                    },
                    None => {},
                }
                let ghost src = match source {
                    Some(s) => seq!["--source="@ + s@],
                    None => Seq::<Seq<char>>::empty(),
                };
                assert(strings_view(a@) =~= a0 + src);
                push_arg_if(&mut a, *staged, "--staged");
                push_arg_if(&mut a, *worktree, "--worktree");
                push_arg(&mut a, "--");
                push_arg(&mut a, path.as_str());
            },
            GitCommand::CleanPath { path } => {
                push_arg(&mut a, "clean");
                push_arg(&mut a, "-f");
                push_arg(&mut a, "--");
                push_arg(&mut a, path.as_str());
            },
            GitCommand::StageAll => {
                push_arg(&mut a, "add");
                push_arg(&mut a, "--all");
                push_arg(&mut a, "--");
                push_arg(&mut a, ".");
            },
            GitCommand::UnstageAll => {
                push_arg(&mut a, "restore");
                push_arg(&mut a, "--staged");
                push_arg(&mut a, "--");
                push_arg(&mut a, ".");
            },
            GitCommand::Commit { message, allow_empty } => {
                push_arg(&mut a, "commit");
                push_arg_if(&mut a, *allow_empty, "--allow-empty");
                push_arg(&mut a, "--message");
                push_arg(&mut a, message.as_str());
            },
            GitCommand::Fetch { remote } => {
                push_arg(&mut a, "fetch");
                push_opt_arg(&mut a, remote);
            },
            GitCommand::Pull { remote, branch, rebase } => {
                push_arg(&mut a, "pull");
                push_arg_if(&mut a, *rebase, "--rebase");
                push_opt_arg(&mut a, remote);
                push_opt_arg(&mut a, branch);
            },
            GitCommand::Push { remote, branch, set_upstream } => {
                push_arg(&mut a, "push");
                push_arg_if(&mut a, *set_upstream, "-u");
                push_opt_arg(&mut a, remote);
                push_opt_arg(&mut a, branch);
            },
            GitCommand::ListBranches => {
                push_arg(&mut a, "branch");
                push_arg(&mut a, "--list");
            },
            GitCommand::CheckoutBranch { name } => {
                push_arg(&mut a, "checkout");
                push_arg(&mut a, name.as_str());
            },
        }
        proof {
            assert(strings_view(a@) =~= spec_args(*self));
        }
        a
    }
}

// ─────────────────────────────────────────────────────────────────
//  Repository view state
// ─────────────────────────────────────────────────────────────────

/// The lines listed by `git branch --list`: each trimmed, with every
/// leading `* ` (the current-branch marker) removed, blank ones skipped.
pub open spec fn strip_markers(s: Seq<char>) -> Seq<char>
    decreases s.len(),
{
    if s.len() >= 2 && s[0] == '*' && s[1] == ' ' {
        strip_markers(s.skip(2))
    } else {
        s
    }
}

/// The branch name a line of `git branch --list` output holds.
pub open spec fn branch_name_of(line: Seq<char>) -> Seq<char> {
    strip_markers(trim(line))
}

/// The branch names of the lines `ls`, blank ones skipped.
pub open spec fn spec_branch_names(ls: Seq<Seq<char>>) -> Seq<Seq<char>>
    decreases ls.len(),
{
    if ls.len() == 0 {
        seq![]
    } else {
        let before = spec_branch_names(ls.drop_last());
        let name = branch_name_of(ls.last());
        if name.len() > 0 {
            before.push(name)
        } else {
            before
        }
    }
}

/// Reads the branch names from `git branch --list` output.
pub fn parse_branch_list(output: &str) -> (r: Vec<String>)
    ensures
        strings_view(r@) == spec_branch_names(spec_lines(output@)),
{
    let ls = lines_of(output);
    let mut out: Vec<String> = Vec::new();
    let mut i: usize = 0;
    while i < ls.len()
        invariant
            i <= ls.len(),
            views(ls@) == spec_lines(output@),
            strings_view(out@) == spec_branch_names(views(ls@).take(i as int)),
        decreases ls.len() - i,
    {
        let line = &ls[i];
        assert(views(ls@).take(i + 1).drop_last() =~= views(ls@).take(i as int));
        assert(views(ls@).take(i + 1).last() == line@);
        let (a, b) = trim_bounds(line, 0, line.len());
        assert(line@.subrange(0, line@.len() as int) =~= line@);
        let mut s = a;
        while b - s >= 2 && line[s] == '*' && line[s + 1] == ' '
            invariant
                a <= s <= b <= line.len(),
                strip_markers(line@.subrange(s as int, b as int)) == strip_markers(
                    line@.subrange(a as int, b as int),
                ),
            decreases b - s,
        {
            assert(line@.subrange(s as int, b as int).skip(2) =~= line@.subrange(s + 2, b as int));
            s += 2;
        }
        assert(strip_markers(line@.subrange(s as int, b as int)) == line@.subrange(
            s as int,
            b as int,
        ));
        if s < b {
            let name = slice_chars(line, s, b);
            out.push(string_of(&name));
        }
        assert(strings_view(out@) =~= spec_branch_names(views(ls@).take(i + 1)));
        i += 1;
    }
    assert(views(ls@).take(ls.len() as int) =~= views(ls@));
    out
}

/// The diff text for the selected file: the unstaged diff under
/// `# Unstaged` and the staged diff under `# Staged`, each included only
/// when it is not blank and ended by a newline; a note when both are blank.
pub open spec fn spec_compose_diff(unstaged: Seq<char>, staged: Seq<char>) -> Seq<char> {
    let part = |title: Seq<char>, d: Seq<char>|
        if trim(d).len() == 0 {
            Seq::<char>::empty()
        } else {
            title + d + if d.len() > 0 && d.last() == '\n' {
                Seq::<char>::empty()
            } else {
                seq!['\n']
            }
        };
    let out = part("# Unstaged\n"@, unstaged) + part("# Staged\n"@, staged);
    if trim(out).len() == 0 {
        "No diff output for selected file."@
    } else {
        out
    }
}

/// Appends a titled diff part when `d` is not blank.
fn push_diff_part(out: &mut String, title: &str, d: &str)
    ensures
        final(out)@ == old(out)@ + if trim(d@).len() == 0 {
            Seq::<char>::empty()
        } else {
            title@ + d@ + if d@.len() > 0 && d@.last() == '\n' {
                Seq::<char>::empty()
            } else {
                seq!['\n']
            }
        },
{
    let t = trim_str(d);
    if t.as_str().is_empty() {
        assert(final(out)@ =~= old(out)@ + Seq::<char>::empty());
        return ;
    }
    push_str_chars(out, title);
    let dv = chars_of(d);
    push_chars(out, &dv, 0, dv.len());
    assert(dv@.subrange(0, dv@.len() as int) =~= dv@);
    if !(dv.len() > 0 && dv[dv.len() - 1] == '\n') {
        out.push('\n');
    }
    assert(final(out)@ =~= old(out)@ + (title@ + d@ + if d@.len() > 0 && d@.last() == '\n' {
        Seq::<char>::empty()
    } else {
        seq!['\n']
    }));
}

/// Combines the unstaged and staged diffs of the selected file into the
/// text of the diff pane.
pub fn compose_diff(unstaged: &str, staged: &str) -> (r: String)
    ensures
        r@ == spec_compose_diff(unstaged@, staged@),
{
    let mut out = String::new();
    push_diff_part(&mut out, "# Unstaged\n", unstaged);
    push_diff_part(&mut out, "# Staged\n", staged);
    let t = trim_str(out.as_str());
    if t.as_str().is_empty() {
        return copy_str("No diff output for selected file.");
    }
    out
}

/// The text of the diff pane when no file is selected.
pub open spec fn clean_diff_text() -> Seq<char> {
    "Working tree clean. No changed files."@
}

/// The selection after the list of changed files changed: kept where it is
/// still in range, moved to the last file otherwise, and 0 for an empty list.
pub open spec fn clamp_selection(selected: nat, len: nat) -> nat {
    if len == 0 {
        0
    } else if selected >= len {
        (len - 1) as nat
    } else {
        selected
    }
}

/// The selection after moving it by `delta` within `len` files: clamped to
/// the first and last file; unchanged in an empty list.
pub open spec fn moved_selection(selected: nat, len: nat, delta: int) -> nat {
    if len == 0 {
        selected
    } else if selected + delta < 0 {
        0
    } else if selected + delta > len - 1 {
        (len - 1) as nat
    } else {
        (selected + delta) as nat
    }
}

/// The state of the open repository as the two panes show it: the current
/// branch and its tracking, the changed files with the selected one, and
/// the diff of the selected file.
pub struct GitModel {
    repo_root: String,
    branch: String,
    tracking: BranchTrackingStatus,
    entries: Vec<GitEntry>,
    selected: usize,
    diff: String,
    ts_parser: Parser,
}

impl GitModel {
    /// The root directory of the repository.
    pub closed spec fn spec_repo_root(&self) -> Seq<char> {
        self.repo_root@
    }

    /// The current branch.
    pub closed spec fn spec_branch(&self) -> Seq<char> {
        self.branch@
    }

    /// The current branch's tracking status.
    pub closed spec fn spec_tracking(&self) -> BranchTrackingStatus {
        self.tracking
    }

    /// The changed files.
    pub closed spec fn spec_entries(&self) -> Seq<(Seq<char>, Seq<char>)> {
        entries_view(self.entries@)
    }

    /// The index of the selected file.
    pub closed spec fn spec_selected(&self) -> nat {
        self.selected as nat
    }

    /// The text of the diff pane.
    pub closed spec fn spec_diff(&self) -> Seq<char> {
        self.diff@
    }

    /// The selection is within the list of changed files, or 0 when the
    /// list is empty.
    pub open spec fn wf(&self) -> bool {
        self.spec_selected() == 0 || self.spec_selected() < self.spec_entries().len()
    }

    /// The view of a repository found at `repo_root`, before its first
    /// refresh: no branch, no changed files, nothing selected.
    pub fn new(repo_root: String) -> (m: Self)
        ensures
            m.wf(),
            m.spec_repo_root() == repo_root@,
            m.spec_branch().len() == 0,
            m.spec_entries().len() == 0,
            m.spec_selected() == 0,
            m.spec_diff().len() == 0,
    {
        let m = GitModel {
            repo_root,
            branch: String::new(),
            tracking: BranchTrackingStatus::empty(),
            entries: Vec::new(),
            selected: 0,
            diff: String::new(),
            ts_parser: new_parser(),
        };
        assert(m.spec_entries() =~= Seq::empty());
        m
    }

    /// The current branch.
    pub fn branch(&self) -> (b: &str)
        ensures
            b@ == self.spec_branch(),
    {
        self.branch.as_str()
    }

    /// The number of changed files.
    pub fn entries_len(&self) -> (n: usize)
        ensures
            n == self.spec_entries().len(),
    {
        self.entries.len()
    }

    /// The index of the selected file.
    pub fn selected_index(&self) -> (i: usize)
        ensures
            i == self.spec_selected(),
    {
        self.selected
    }

    /// The root directory of the repository.
    pub fn repo_root(&self) -> (r: &str)
        ensures
            r@ == self.spec_repo_root(),
    {
        self.repo_root.as_str()
    }

    /// The current branch's tracking status.
    pub fn tracking(&self) -> (t: &BranchTrackingStatus)
        ensures
            *t == self.spec_tracking(),
    {
        &self.tracking
    }

    /// The text of the diff pane.
    pub fn diff_text(&self) -> (d: &str)
        ensures
            d@ == self.spec_diff(),
    {
        self.diff.as_str()
    }

    /// The changed file at `i`.
    pub fn entry(&self, i: usize) -> (e: &GitEntry)
        requires
            i < self.spec_entries().len(),
        ensures
            entry_view(*e) == self.spec_entries()[i as int],
    {
        &self.entries[i]
    }

    /// Takes the output of `git rev-parse --abbrev-ref HEAD`: the current
    /// branch becomes that output, trimmed.
    pub fn apply_branch(&mut self, head_output: &str)
        requires
            old(self).wf(),
        ensures
            final(self).wf(),
            final(self).spec_branch() == trim(head_output@),
            final(self).spec_repo_root() == old(self).spec_repo_root(),
            final(self).spec_tracking() == old(self).spec_tracking(),
            final(self).spec_entries() == old(self).spec_entries(),
            final(self).spec_selected() == old(self).spec_selected(),
            final(self).spec_diff() == old(self).spec_diff(),
    {
        self.branch = trim_str(head_output);
    }

    /// Takes the output of `git status --porcelain=v2 --branch`: the
    /// tracking status becomes the current branch with the upstream and
    /// ahead/behind counts that the output's headers give.
    pub fn apply_tracking(&mut self, snapshot_output: &str)
        requires
            old(self).wf(),
        ensures
            final(self).wf(),
            final(self).spec_tracking().branch@ == old(self).spec_branch(),
            snapshot_view(
                BranchTrackingSnapshot {
                    upstream: final(self).spec_tracking().upstream,
                    ahead: final(self).spec_tracking().ahead,
                    behind: final(self).spec_tracking().behind,
                },
            ) == tracking_fold(spec_lines(snapshot_output@)),
            final(self).spec_repo_root() == old(self).spec_repo_root(),
            final(self).spec_branch() == old(self).spec_branch(),
            final(self).spec_entries() == old(self).spec_entries(),
            final(self).spec_selected() == old(self).spec_selected(),
            final(self).spec_diff() == old(self).spec_diff(),
    {
        let parsed = parse_branch_tracking_snapshot(snapshot_output);
        self.tracking = BranchTrackingStatus {
            branch: copy_str(self.branch.as_str()),
            upstream: parsed.upstream,
            ahead: parsed.ahead,
            behind: parsed.behind,
        };
    }

    /// Takes the output of `git status --porcelain=v1`: the changed files
    /// become the entries it lists and the selection is clamped to them.
    pub fn apply_status(&mut self, porcelain_output: &str)
        requires
            old(self).wf(),
        ensures
            final(self).wf(),
            final(self).spec_entries() == spec_parse_status(porcelain_output@),
            final(self).spec_selected() == clamp_selection(
                old(self).spec_selected(),
                final(self).spec_entries().len(),
            ),
            final(self).spec_repo_root() == old(self).spec_repo_root(),
            final(self).spec_branch() == old(self).spec_branch(),
            final(self).spec_tracking() == old(self).spec_tracking(),
            final(self).spec_diff() == old(self).spec_diff(),
    {
        self.entries = parse_porcelain_status(porcelain_output);
        if self.entries.len() == 0 {
            self.selected = 0;
        } else if self.selected >= self.entries.len() {
            self.selected = self.entries.len() - 1;
        }
    }

    /// The path of the selected file, whose diff the diff pane shows; none
    /// when there are no changed files.
    pub fn selected_path(&self) -> (p: Option<String>)
        requires
            self.wf(),
        ensures
            self.spec_entries().len() == 0 ==> p is None,
            self.spec_entries().len() > 0 ==> p is Some && p->0@ == self.spec_entries()[self.spec_selected() as int].1,
    {
        if self.selected < self.entries.len() {
            Some(copy_str(self.entries[self.selected].path.as_str()))
        } else {
            None
        }
    }

    /// Takes the diffs of the selected file (`None` when no file is
    /// selected): the diff pane shows their combination, or the clean
    /// working tree note.
    pub fn apply_diff(&mut self, diffs: Option<(&str, &str)>)
        requires
            old(self).wf(),
        ensures
            final(self).wf(),
            final(self).spec_diff() == match diffs {
                Some((u, s)) => spec_compose_diff(u@, s@),
                None => clean_diff_text(),
            },
            final(self).spec_repo_root() == old(self).spec_repo_root(),
            final(self).spec_branch() == old(self).spec_branch(),
            final(self).spec_tracking() == old(self).spec_tracking(),
            final(self).spec_entries() == old(self).spec_entries(),
            final(self).spec_selected() == old(self).spec_selected(),
    {
        self.diff = match diffs {
            Some((u, s)) => compose_diff(u, s),
            None => copy_str("Working tree clean. No changed files."),
        };
    }

    /// Moves the selection by `delta`, clamped to the list; returns whether
    /// it changed (its diff then needs reloading).
    pub fn move_selection(&mut self, delta: isize) -> (changed: bool)
        requires
            old(self).wf(),
        ensures
            final(self).wf(),
            final(self).spec_selected() == moved_selection(
                old(self).spec_selected(),
                old(self).spec_entries().len(),
                delta as int,
            ),
            changed == (final(self).spec_selected() != old(self).spec_selected()),
            final(self).spec_repo_root() == old(self).spec_repo_root(),
            final(self).spec_branch() == old(self).spec_branch(),
            final(self).spec_tracking() == old(self).spec_tracking(),
            final(self).spec_entries() == old(self).spec_entries(),
            final(self).spec_diff() == old(self).spec_diff(),
    {
        let len = self.entries.len();
        if len == 0 {
            return false;
        }
        assert(self.spec_entries().len() == len);
        assert(self.selected < len);
        let next: usize;
        if delta < 0 {
            let back = if delta == isize::MIN {
                (isize::MAX as usize) + 1
            } else {
                (-delta) as usize
            };
            assert(back as int == -(delta as int));
            if back >= self.selected {
                next = 0;
            } else {
                next = self.selected - back;
            }
            assert(next == moved_selection(self.selected as nat, len as nat, delta as int));
        } else {
            let fwd = delta as usize;
            assert(fwd as int == delta as int);
            if fwd >= len - 1 - self.selected {
                next = len - 1;
            } else {
                next = self.selected + fwd;
            }
            assert(next == moved_selection(self.selected as nat, len as nat, delta as int));
        }
        assert(next == moved_selection(self.selected as nat, len as nat, delta as int));
        if next != self.selected {
            self.selected = next;
            true
        } else {
            false
        }
    }

    /// Selects file `idx` when it exists and is not already selected;
    /// returns whether the selection changed.
    pub fn select_file_index(&mut self, idx: usize) -> (changed: bool)
        requires
            old(self).wf(),
        ensures
            final(self).wf(),
            changed == (idx < old(self).spec_entries().len() && idx != old(self).spec_selected()),
            final(self).spec_selected() == if changed {
                idx as nat
            } else {
                old(self).spec_selected()
            },
            final(self).spec_repo_root() == old(self).spec_repo_root(),
            final(self).spec_branch() == old(self).spec_branch(),
            final(self).spec_tracking() == old(self).spec_tracking(),
            final(self).spec_entries() == old(self).spec_entries(),
            final(self).spec_diff() == old(self).spec_diff(),
    {
        if idx < self.entries.len() && idx != self.selected {
            self.selected = idx;
            true
        } else {
            false
        }
    }

    /// The commit invocation for `message`: the message is trimmed and must
    /// not be empty.
    /// The section counts of `git status --porcelain=v1` output.
    pub fn summarize_status_text(status: &str) -> (r: Vec<StatusSectionSummary>)
        ensures
            r@.len() == 3,
            forall|i: int|
                0 <= i < 3 ==> (#[trigger] r@[i]).kind == kind_at(i) && r@[i].count
                    == count_in_section(spec_parse_status(status@), kind_at(i)),
    {
        summarize_porcelain_status(status)
    }

    pub fn commit_command(message: &str) -> (r: Result<GitCommand, String>)
        ensures
            trim(message@).len() == 0 <==> r is Err,
            r is Err ==> r->Err_0@ == "commit message cannot be empty"@,
            r is Ok ==> (r->Ok_0 matches GitCommand::Commit { message: m, allow_empty } && m@
                == trim(message@) && !allow_empty),
    {
        let m = trim_str(message);
        if m.as_str().is_empty() {
            return Err(copy_str("commit message cannot be empty"));
        }
        Ok(GitCommand::Commit { message: m, allow_empty: false })
    }

    /// The pull invocation: a remote and a branch go together, or neither
    /// is given.
    pub fn pull_command(remote: Option<&str>, branch: Option<&str>, rebase: bool) -> (r: Result<
        GitCommand,
        String,
    >)
        ensures
            (remote is Some != branch is Some) <==> r is Err,
            r is Err ==> r->Err_0@ == "pull requires both remote and branch when one is provided"@,
            r is Ok ==> (r->Ok_0 matches GitCommand::Pull { remote: rm, branch: br, rebase: rb }
                && opt_str_eq(rm, remote) && opt_str_eq(br, branch) && rb == rebase),
    {
        if remote.is_some() != branch.is_some() {
            return Err(copy_str("pull requires both remote and branch when one is provided"));
        }
        Ok(GitCommand::Pull { remote: opt_string(remote), branch: opt_string(branch), rebase })
    }

    /// The push invocation: a remote and a branch go together, or neither
    /// is given.
    pub fn push_command(remote: Option<&str>, branch: Option<&str>, set_upstream: bool) -> (r:
        Result<GitCommand, String>)
        ensures
            (remote is Some != branch is Some) <==> r is Err,
            r is Err ==> r->Err_0@ == "push requires both remote and branch when one is provided"@,
            r is Ok ==> (r->Ok_0 matches GitCommand::Push {
                remote: rm,
                branch: br,
                set_upstream: su,
            } && opt_str_eq(rm, remote) && opt_str_eq(br, branch) && su == set_upstream),
    {
        if remote.is_some() != branch.is_some() {
            return Err(copy_str("push requires both remote and branch when one is provided"));
        }
        Ok(
            GitCommand::Push {
                remote: opt_string(remote),
                branch: opt_string(branch),
                set_upstream,
            },
        )
    }

    /// The invocation that stages the selected file, if any file is
    /// selected.
    pub fn stage_command(&self) -> (r: Option<GitCommand>)
        requires
            self.wf(),
        ensures
            self.spec_entries().len() == 0 <==> r is None,
            r is Some ==> (r->0 matches GitCommand::Add { path } && path@
                == self.spec_entries()[self.spec_selected() as int].1),
    {
        match self.selected_path() {
            Some(path) => Some(GitCommand::Add { path }),
            None => None,
        }
    }

    /// The invocations that unstage the selected file, if any: `git restore
    /// --staged`, and `git reset HEAD` to fall back on when that fails.
    pub fn unstage_commands(&self) -> (r: Option<(GitCommand, GitCommand)>)
        requires
            self.wf(),
        ensures
            self.spec_entries().len() == 0 <==> r is None,
            r is Some ==> ({
                let p = self.spec_entries()[self.spec_selected() as int].1;
                let (first, fallback) = r->0;
                &&& first matches GitCommand::RestoreStaged { path } && path@ == p
                &&& fallback matches GitCommand::ResetPath { path } && path@ == p
            }),
    {
        match self.selected_path() {
            Some(path) => {
                let p2 = copy_str(path.as_str());
                Some((GitCommand::RestoreStaged { path }, GitCommand::ResetPath { path: p2 }))
            },
            None => None,
        }
    }

    /// The invocation that discards the changes of the selected file, if
    /// any: an untracked file is removed with `git clean -f`; any other
    /// file is restored from `HEAD` in both the index and the work tree.
    pub fn discard_command(&self) -> (r: Option<GitCommand>)
        requires
            self.wf(),
        ensures
            self.spec_entries().len() == 0 <==> r is None,
            r is Some ==> ({
                let e = self.spec_entries()[self.spec_selected() as int];
                if spec_primary(e.0) == Some(StatusSectionKind::Untracked) {
                    r->0 matches GitCommand::CleanPath { path } && path@ == e.1
                } else {
                    r->0 matches GitCommand::RestorePath { path, source, staged, worktree } && path@
                        == e.1 && source is Some && source->0@ == "HEAD"@ && staged && worktree
                }
            }),
    {
        if self.selected >= self.entries.len() {
            return None;
        }
        let entry = &self.entries[self.selected];
        let path = copy_str(entry.path.as_str());
        let kinds = classify_status_xy(entry.xy.as_str());
        if kinds.len() > 0 && kinds[0] == StatusSectionKind::Untracked {
            Some(GitCommand::CleanPath { path })
        } else {
            Some(
                GitCommand::RestorePath {
                    path,
                    source: Some(copy_str("HEAD")),
                    staged: true,
                    worktree: true,
                },
            )
        }
    }
}

/// An optional owned string equals an optional borrowed one.
/// The error of unstaging `path` when `git restore --staged` failed with
/// `restore_error` and the fallback `git reset` failed too; the fallback's
/// own error follows it as the cause.
pub fn unstage_failure_message(path: &str, restore_error: &str) -> (r: String)
    ensures
        r@ == "failed to unstage '"@ + path@ + "' after git restore --staged failed: "@
            + restore_error@,
{
    let mut r = copy_str("failed to unstage '");
    push_str_chars(&mut r, path);
    push_str_chars(&mut r, "' after git restore --staged failed: ");
    push_str_chars(&mut r, restore_error);
    r
}

pub open spec fn opt_str_eq(a: Option<String>, b: Option<&str>) -> bool {
    match (a, b) {
        (Some(x), Some(y)) => x@ == y@,
        (None, None) => true,
        _ => false,
    }
}

/// An owned copy of an optional string.
pub fn opt_string(s: Option<&str>) -> (r: Option<String>)
    ensures
        opt_str_eq(r, s),
{
    match s {
        Some(s) => Some(copy_str(s)),
        None => None,
    }
}

// ─────────────────────────────────────────────────────────────────
//  The file list document
// ─────────────────────────────────────────────────────────────────

/// The plain value of a document line.
pub type LineView = (Seq<char>, LineStyle, Seq<ColorSpan>, Option<DiffLineNumber>);

/// The entries of `es` listed under section `k`, in order.
pub open spec fn section_rows(es: Seq<(Seq<char>, Seq<char>)>, k: StatusSectionKind) -> Seq<
    (Seq<char>, Seq<char>),
>
    decreases es.len(),
{
    if es.len() == 0 {
        seq![]
    } else {
        let before = section_rows(es.drop_last(), k);
        if spec_primary(es.last().0) == Some(k) {
            before.push(es.last())
        } else {
            before
        }
    }
}

/// `idx` lists, in order, the positions in `es` of the entries under
/// section `k`.
pub open spec fn section_indices(es: Seq<(Seq<char>, Seq<char>)>, idx: Seq<usize>, k: StatusSectionKind) -> bool {
    &&& idx.len() == section_rows(es, k).len()
    &&& forall|j: int|
        0 <= j < idx.len() ==> (#[trigger] idx[j]) < es.len() && es[idx[j] as int]
            == section_rows(es, k)[j]
}

/// Groups the changed files by the section they are listed under: the
/// positions of the staged, unstaged and untracked files, in that order.
pub fn grouped_entries(entries: &Vec<GitEntry>) -> (r: Vec<Vec<usize>>)
    ensures
        r@.len() == 3,
        forall|k: int| 0 <= k < 3 ==> section_indices(entries_view(entries@), #[trigger] r@[k]@, kind_at(k)),
{
    let ghost es = entries_view(entries@);
    let mut g0: Vec<usize> = Vec::new();
    let mut g1: Vec<usize> = Vec::new();
    let mut g2: Vec<usize> = Vec::new();
    let mut i: usize = 0;
    while i < entries.len()
        invariant
            i <= entries.len(),
            es == entries_view(entries@),
            section_indices(es.take(i as int), g0@, StatusSectionKind::Staged),
            section_indices(es.take(i as int), g1@, StatusSectionKind::Unstaged),
            section_indices(es.take(i as int), g2@, StatusSectionKind::Untracked),
        decreases entries.len() - i,
    {
        let ghost pre = es.take(i as int);
        let ghost post = es.take(i + 1);
        assert(post.drop_last() =~= pre);
        assert(post.last() == es[i as int]);
        assert(forall|j: int| 0 <= j < i ==> post[j] == pre[j]);
        let kind = primary_status_section_kind(entries[i].xy.as_str());
        if kind == Some(StatusSectionKind::Staged) {
            g0.push(i);
        } else if kind == Some(StatusSectionKind::Unstaged) {
            g1.push(i);
        } else if kind == Some(StatusSectionKind::Untracked) {
            g2.push(i);
        }
        assert(section_indices(post, g0@, StatusSectionKind::Staged));
        assert(section_indices(post, g1@, StatusSectionKind::Unstaged));
        assert(section_indices(post, g2@, StatusSectionKind::Untracked));
        i += 1;
    }
    assert(es.take(entries.len() as int) =~= es);
    let mut r: Vec<Vec<usize>> = Vec::new();
    r.push(g0);
    r.push(g1);
    r.push(g2);
    r
}

/// The heading line text of a section holding `n` files.
pub open spec fn header_text(k: StatusSectionKind, n: nat) -> Seq<char> {
    " "@ + spec_title(k) + " ("@ + decimal(n) + ")"@
}

/// The style of a section's heading line.
pub open spec fn section_style(k: StatusSectionKind) -> LineStyle {
    match k {
        StatusSectionKind::Staged => LineStyle::SectionStaged,
        StatusSectionKind::Unstaged => LineStyle::SectionUnstaged,
        StatusSectionKind::Untracked => LineStyle::SectionUntracked,
    }
}

/// The line listing entry `e`: its badge and path, selected when it equals
/// the selected entry, with the badge coloured.
pub open spec fn row_line(e: (Seq<char>, Seq<char>), sel: Option<(Seq<char>, Seq<char>)>) -> LineView {
    (
        "  "@ + seq![spec_badge_char(e.0)] + "  "@ + e.1,
        if sel == Some(e) {
            LineStyle::Selected
        } else {
            LineStyle::Normal
        },
        seq![ColorSpan { start_col: 2, end_col: 3, color: SpanColor::Badge(spec_badge_color_key(e.0)) }],
        None,
    )
}

/// The lines of section `k`: the heading, then one line per file or a
/// `No files` line.
pub open spec fn section_lines(
    es: Seq<(Seq<char>, Seq<char>)>,
    sel: Option<(Seq<char>, Seq<char>)>,
    k: StatusSectionKind,
) -> Seq<LineView> {
    let rows = section_rows(es, k);
    seq![(header_text(k, rows.len()), section_style(k), Seq::<ColorSpan>::empty(), None::<DiffLineNumber>)]
        + if rows.len() == 0 {
        seq![("   No files"@, LineStyle::Dim, Seq::<ColorSpan>::empty(), None::<DiffLineNumber>)]
    } else {
        rows.map_values(|e: (Seq<char>, Seq<char>)| row_line(e, sel))
    }
}

/// The lines of the first `n` sections.
pub open spec fn file_lines_upto(
    es: Seq<(Seq<char>, Seq<char>)>,
    sel: Option<(Seq<char>, Seq<char>)>,
    n: nat,
) -> Seq<LineView>
    decreases n,
{
    if n == 0 {
        seq![]
    } else {
        file_lines_upto(es, sel, (n - 1) as nat) + section_lines(es, sel, kind_at(n - 1))
    }
}

/// The selected entry, if the selection is in range.
pub open spec fn selected_entry(es: Seq<(Seq<char>, Seq<char>)>, selected: nat) -> Option<(Seq<char>, Seq<char>)> {
    if selected < es.len() {
        Some(es[selected as int])
    } else {
        None
    }
}

/// Whether two entries are equal.
fn same_entry(a: &GitEntry, b: &GitEntry) -> (r: bool)
    ensures
        r == (entry_view(*a) == entry_view(*b)),
{
    a.xy == b.xy && a.path == b.path
}

/// The text of a section heading.
fn header_line_text(kind: StatusSectionKind, n: usize) -> (t: String)
    ensures
        t@ == header_text(kind, n as nat),
{
    proof {
        reveal_strlit(" ");
    }
    let mut t = String::new();
    t.push(' ');
    push_str_chars(&mut t, kind.title());
    push_str_chars(&mut t, " (");
    push_decimal(&mut t, n as u64);
    push_str_chars(&mut t, ")");
    assert(t@ =~= header_text(kind, n as nat));
    t
}

/// The line listing an entry.
fn row_doc_line(e: &GitEntry, sel: &Option<&GitEntry>) -> (l: DocLine)
    ensures
        line_view(l) == row_line(
            entry_view(*e),
            match *sel {
                Some(s) => Some(entry_view(*s)),
                None => None,
            },
        ),
{
    let badge = badge_char_for_status(e.xy.as_str());
    let mut text = String::new();
    push_str_chars(&mut text, "  ");
    text.push(badge);
    push_str_chars(&mut text, "  ");
    push_str_chars(&mut text, e.path.as_str());
    let is_selected = match sel {
        Some(s) => same_entry(s, e),
        None => false,
    };
    let mut spans: Vec<ColorSpan> = Vec::new();
    spans.push(
        ColorSpan {
            start_col: 2,
            end_col: 3,
            color: SpanColor::Badge(badge_color_key_for_status(e.xy.as_str())),
        },
    );
    let style = if is_selected {
        LineStyle::Selected
    } else {
        LineStyle::Normal
    };
    let l = DocLine::new(text, style).with_spans(spans);
    proof {
        reveal_strlit("  ");
        assert(l.text@ =~= "  "@ + seq![spec_badge_char(e.xy@)] + "  "@ + e.path@);
        assert(l.spans@ =~= seq![ColorSpan { start_col: 2, end_col: 3, color: SpanColor::Badge(spec_badge_color_key(e.xy@)) }]);
    }
    l
}

/// `d` and `m` are the grouped file list of the changed files `es` with
/// entry `selected` selected, and where its sections sit: the three
/// sections in order, each with its heading line, its start line and the
/// number of files under it.
pub open spec fn file_document_spec(
    es: Seq<(Seq<char>, Seq<char>)>,
    selected: nat,
    d: Seq<DocLine>,
    m: GroupedGitViewMeta,
) -> bool {
    let sel = selected_entry(es, selected);
    &&& lines_view(d) == file_lines_upto(es, sel, 3)
    &&& m.files_start_line == 0
    &&& m.files_count == d.len()
    &&& m.sections@.len() == 3
    &&& forall|k: int|
        0 <= k < 3 ==> {
            let s = #[trigger] m.sections@[k];
            &&& s.kind == kind_at(k)
            &&& s.title@ == spec_title(kind_at(k))
            &&& s.start_line == file_lines_upto(es, sel, k as nat).len()
            &&& s.item_count == section_rows(es, kind_at(k)).len()
        }
}

impl GitModel {
    /// The grouped file list (left pane) and where its sections sit.
    pub fn build_file_document(&self) -> (r: (Document, GroupedGitViewMeta))
        requires
            self.wf(),
        ensures
            file_document_spec(self.spec_entries(), self.spec_selected(), r.0.view(), r.1),
    {
        let ghost es = self.spec_entries();
        let sel_entry: Option<&GitEntry> = if self.selected < self.entries.len() {
            Some(&self.entries[self.selected])
        } else {
            None
        };
        let ghost sel = selected_entry(es, self.spec_selected());
        assert(sel == match sel_entry {
            Some(s) => Some(entry_view(*s)),
            None => None,
        });
        let grouped = grouped_entries(&self.entries);
        let mut file_lines: Vec<DocLine> = Vec::new();
        let mut sections: Vec<GroupedStatusSection> = Vec::new();
        let mut k: usize = 0;
        while k < 3
            invariant
                k <= 3,
                es == self.spec_entries(),
                es == entries_view(self.entries@),
                sel == match sel_entry {
                    Some(s) => Some(entry_view(*s)),
                    None => None,
                },
                grouped@.len() == 3,
                forall|j: int| 0 <= j < 3 ==> section_indices(es, #[trigger] grouped@[j]@, kind_at(j)),
                lines_view(file_lines@) == file_lines_upto(es, sel, k as nat),
                sections@.len() == k,
                forall|j: int| 0 <= j < k ==> {
                    let s = #[trigger] sections@[j];
                    &&& s.kind == kind_at(j)
                    &&& s.title@ == spec_title(kind_at(j))
                    &&& s.start_line == file_lines_upto(es, sel, j as nat).len()
                    &&& s.item_count == section_rows(es, kind_at(j)).len()
                },
            decreases 3 - k,
        {
            let kind = if k == 0 {
                StatusSectionKind::Staged
            } else if k == 1 {
                StatusSectionKind::Unstaged
            } else {
                StatusSectionKind::Untracked
            };
            assert(kind == kind_at(k as int));
            let rows = &grouped[k];
            assert(section_indices(es, rows@, kind));
            let ghost rws = section_rows(es, kind);
            let start_line = file_lines.len();
            let section_style_v = match kind {
                StatusSectionKind::Staged => LineStyle::SectionStaged,
                StatusSectionKind::Unstaged => LineStyle::SectionUnstaged,
                StatusSectionKind::Untracked => LineStyle::SectionUntracked,
            };
            let ghost base = lines_view(file_lines@);
            let ghost head = seq![(header_text(kind, rws.len()), section_style(kind), Seq::<ColorSpan>::empty(), None::<DiffLineNumber>)];
            let hl = DocLine::new(header_line_text(kind, rows.len()), section_style_v);
            assert(hl.spans@ =~= Seq::<ColorSpan>::empty());
            assert(line_view(hl) == head[0]);
            file_lines.push(hl);
            assert(lines_view(file_lines@) =~= base + head);
            if rows.len() == 0 {
                proof {
                    reveal_strlit("   No files");
                }
                let nl = DocLine::new(copy_str("   No files"), LineStyle::Dim);
                assert(nl.spans@ =~= Seq::<ColorSpan>::empty());
                file_lines.push(nl);
                assert(lines_view(file_lines@) =~= base + section_lines(es, sel, kind));
            } else {
                let mut j: usize = 0;
                while j < rows.len()
                    invariant
                        j <= rows.len(),
                        es == entries_view(self.entries@),
                        sel == match sel_entry {
                            Some(s) => Some(entry_view(*s)),
                            None => None,
                        },
                        section_indices(es, rows@, kind),
                        rws == section_rows(es, kind),
                        lines_view(file_lines@) == base + head + rws.take(j as int).map_values(
                            |e: (Seq<char>, Seq<char>)| row_line(e, sel),
                        ),
                    decreases rows.len() - j,
                {
                    let idx = rows[j];
                    assert(idx < self.entries.len());
                    let e = &self.entries[idx];
                    assert(entry_view(*e) == es[idx as int]);
                    let line = row_doc_line(e, &sel_entry);
                    let ghost prev = lines_view(file_lines@);
                    file_lines.push(line);
                    assert(lines_view(file_lines@) =~= prev.push(line_view(line)));
                    assert(rws.take(j + 1).map_values(|e: (Seq<char>, Seq<char>)| row_line(e, sel))
                        =~= rws.take(j as int).map_values(|e: (Seq<char>, Seq<char>)| row_line(e, sel)).push(
                        row_line(rws[j as int], sel),
                    ));
                    j += 1;
                }
                assert(rws.take(rows.len() as int) =~= rws);
                assert(lines_view(file_lines@) =~= base + section_lines(es, sel, kind));
            }
            sections.push(
                GroupedStatusSection {
                    kind,
                    title: kind.title(),
                    start_line,
                    item_count: rows.len(),
                },
            );
            assert(lines_view(file_lines@) =~= file_lines_upto(es, sel, (k + 1) as nat));
            k += 1;
        }
        let files_count = file_lines.len();
        proof {
            assert(file_lines@.len() > 0) by {
                assert(file_lines_upto(es, sel, 3).len() >= 1);
            }
        }
        let doc = Document::from_lines(file_lines);
        (doc, GroupedGitViewMeta { files_start_line: 0, files_count, sections })
    }
}

// ─────────────────────────────────────────────────────────────────
//  The diff document
// ─────────────────────────────────────────────────────────────────

/// `x + 1`, wrapping to 0 past `u32::MAX` as release builds do.
pub open spec fn wrap_inc(x: u32) -> u32 {
    if x == u32::MAX {
        0
    } else {
        (x + 1) as u32
    }
}

/// The old/new line counters after a diff line, and the line numbers
/// shown beside it: a hunk header restarts the counters at its start lines
/// (when it parses); an added line shows and advances the new counter; a
/// removed line the old one; a context line both; other lines show none.
pub open spec fn number_step(st: (u32, u32), raw: Seq<char>) -> ((u32, u32), Option<DiffLineNumber>) {
    match spec_diff_style(raw) {
        LineStyle::DiffHunk => (
            match spec_hunk_header(raw) {
                Some((o, n)) => (o as u32, n as u32),
                None => st,
            },
            None,
        ),
        LineStyle::DiffAdd => ((st.0, wrap_inc(st.1)), Some(DiffLineNumber { old: None, new: Some(st.1) })),
        LineStyle::DiffRemove => ((wrap_inc(st.0), st.1), Some(DiffLineNumber { old: Some(st.0), new: None })),
        LineStyle::Normal => (
            (wrap_inc(st.0), wrap_inc(st.1)),
            Some(DiffLineNumber { old: Some(st.0), new: Some(st.1) }),
        ),
        _ => (st, None),
    }
}

/// The old/new line counters after the first `n` diff lines.
pub open spec fn number_state(raws: Seq<Seq<char>>, n: nat) -> (u32, u32)
    decreases n,
{
    if n == 0 || n > raws.len() {
        (0, 0)
    } else {
        number_step(number_state(raws, (n - 1) as nat), raws[n - 1]).0
    }
}

/// The line numbers shown beside diff line `i`.
pub open spec fn number_at(raws: Seq<Seq<char>>, i: int) -> Option<DiffLineNumber> {
    number_step(number_state(raws, i as nat), raws[i]).1
}

/// `x` modulo 2^32, as a `u32` counter that wraps past `u32::MAX` holds it.
pub open spec fn wrap32(x: nat) -> u32 {
    (x % 0x1_0000_0000) as u32
}

/// Whether a diff line of style `st` takes a line number on the old side
/// (`old_side`) or on the new side: context lines take both, removed lines
/// the old one, added lines the new one.
pub open spec fn takes_number(st: LineStyle, old_side: bool) -> bool {
    st is Normal || (old_side && st is DiffRemove) || (!old_side && st is DiffAdd)
}

/// How many of the diff lines `raws[a..b]` take a line number on the given
/// side.
pub open spec fn side_count(raws: Seq<Seq<char>>, a: int, b: int, old_side: bool) -> nat
    decreases b - a,
{
    if b <= a {
        0
    } else {
        side_count(raws, a, b - 1, old_side) + if takes_number(spec_diff_style(raws[b - 1]), old_side) {
            1nat
        } else {
            0nat
        }
    }
}

proof fn lemma_wrap32_inc(x: nat)
    ensures
        wrap_inc(wrap32(x)) == wrap32(x + 1),
{
    let m = 0x1_0000_0000int;
    let y = x as int;
    assert((y + 1) % m == if y % m == m - 1 { 0 } else { y % m + 1 }) by {
        vstd::arithmetic::div_mod::lemma_add_mod_noop(y, 1, m);
    };
}

/// The counters after the diff lines of a hunk up to line `i`: the header's
/// start lines advanced by the lines before `i` that take a number on each
/// side.
proof fn lemma_counters_in_hunk(raws: Seq<Seq<char>>, h: int, i: int)
    requires
        0 <= h < i <= raws.len(),
        spec_diff_style(raws[h]) is DiffHunk,
        spec_hunk_header(raws[h]) is Some,
        forall|j: int| h < j < i ==> !(spec_diff_style(#[trigger] raws[j]) is DiffHunk),
    ensures
        number_state(raws, i as nat) == (
            wrap32(spec_hunk_header(raws[h]).unwrap().0 + side_count(raws, h + 1, i, true)),
            wrap32(spec_hunk_header(raws[h]).unwrap().1 + side_count(raws, h + 1, i, false)),
        ),
    decreases i,
{
    let (o, n) = spec_hunk_header(raws[h]).unwrap();
    if i == h + 1 {
        assert(o <= u32::MAX && n <= u32::MAX);
    } else {
        lemma_counters_in_hunk(raws, h, i - 1);
        lemma_wrap32_inc(o + side_count(raws, h + 1, i - 1, true));
        lemma_wrap32_inc(n + side_count(raws, h + 1, i - 1, false));
        assert(!(spec_diff_style(raws[i - 1]) is DiffHunk));
    }
}

/// Inside a hunk, the line numbers shown beside a diff line count from the
/// hunk header: the old number of a context or removed line is the
/// header's old start plus the context and removed lines before it in the
/// hunk, and the new number of a context or added line is the header's new
/// start plus the context and added lines before it (counted modulo 2^32,
/// as the counters wrap). An added line shows no old number and does not
/// advance the old side; a removed line shows no new number and does not
/// advance the new side.
pub proof fn lemma_diff_line_numbers(raws: Seq<Seq<char>>, h: int, i: int)
    requires
        0 <= h < i < raws.len(),
        spec_diff_style(raws[h]) is DiffHunk,
        spec_hunk_header(raws[h]) is Some,
        forall|j: int| h < j <= i ==> !(spec_diff_style(#[trigger] raws[j]) is DiffHunk),
    ensures
        ({
            let (o, n) = spec_hunk_header(raws[h]).unwrap();
            let old = wrap32(o + side_count(raws, h + 1, i, true));
            let new = wrap32(n + side_count(raws, h + 1, i, false));
            &&& spec_diff_style(raws[i]) is Normal ==> number_at(raws, i) == Some(
                DiffLineNumber { old: Some(old), new: Some(new) },
            )
            &&& spec_diff_style(raws[i]) is DiffRemove ==> number_at(raws, i) == Some(
                DiffLineNumber { old: Some(old), new: None },
            )
            &&& spec_diff_style(raws[i]) is DiffAdd ==> number_at(raws, i) == Some(
                DiffLineNumber { old: None, new: Some(new) },
            )
        }),
{
    lemma_counters_in_hunk(raws, h, i);
}

/// The title line of the diff pane: the selected path, or a note.
pub open spec fn diff_title(es: Seq<(Seq<char>, Seq<char>)>, selected: nat) -> Seq<char> {
    match selected_entry(es, selected) {
        Some(e) => " "@ + e.1,
        None => " No file selected"@,
    }
}

/// The lines of the diff pane for the diff text `diff` with the given
/// highlight spans per diff line: the title, then each diff line in display
/// form with its style, spans and line numbers.
pub open spec fn diff_doc_lines(
    es: Seq<(Seq<char>, Seq<char>)>,
    selected: nat,
    diff: Seq<char>,
    spans: Seq<Seq<ColorSpan>>,
) -> Seq<LineView> {
    let raws = spec_lines(diff);
    seq![(diff_title(es, selected), LineStyle::DiffFileHeader, Seq::<ColorSpan>::empty(), None::<DiffLineNumber>)]
        + Seq::new(
        raws.len(),
        |i: int| (spec_normalize(raws[i]), spec_diff_style(raws[i]), spans[i], number_at(raws, i)),
    )
}

/// The plain values of per-line span lists.
pub open spec fn spans_view(v: Seq<Vec<ColorSpan>>) -> Seq<Seq<ColorSpan>> {
    v.map_values(|s: Vec<ColorSpan>| s@)
}

impl GitModel {
    /// The lines of the diff text.
    pub fn diff_lines(&self) -> (r: Vec<Vec<char>>)
        ensures
            views(r@) == spec_lines(self.spec_diff()),
    {
        lines_of(self.diff.as_str())
    }

    /// The diff pane document, with `spans` as the highlight spans of each
    /// diff line.
    pub fn build_diff_document(&self, spans: Vec<Vec<ColorSpan>>) -> (d: Document)
        requires
            spans@.len() == spec_lines(self.spec_diff()).len(),
        ensures
            lines_view(d.view()) == diff_doc_lines(
                self.spec_entries(),
                self.spec_selected(),
                self.spec_diff(),
                spans_view(spans@),
            ),
    {
        let ghost es = self.spec_entries();
        proof {
            reveal_strlit(" ");
        }
        let title = if self.selected < self.entries.len() {
            let mut t = String::new();
            t.push(' ');
            push_str_chars(&mut t, self.entries[self.selected].path.as_str());
            assert(t@ =~= " "@ + self.entries@[self.selected as int].path@);
            t
        } else {
            copy_str(" No file selected")
        };
        let mut lines: Vec<DocLine> = Vec::new();
        let tl = DocLine::new(title, LineStyle::DiffFileHeader);
        assert(tl.spans@ =~= Seq::<ColorSpan>::empty());
        lines.push(tl);
        let raws = self.diff_lines();
        let ghost rv = views(raws@);
        let ghost sv = spans_view(spans@);
        let ghost head = seq![(diff_title(es, self.spec_selected()), LineStyle::DiffFileHeader, Seq::<ColorSpan>::empty(), None::<DiffLineNumber>)];
        assert(lines_view(lines@) =~= head);
        let mut old_line: u32 = 0;
        let mut new_line: u32 = 0;
        let mut spans = spans;
        let mut i: usize = 0;
        let n = raws.len();
        let ghost full = Seq::new(
            rv.len(),
            |j: int| (spec_normalize(rv[j]), spec_diff_style(rv[j]), sv[j], number_at(rv, j)),
        );
        while i < n
            invariant
                i <= n == raws.len() == rv.len(),
                rv == views(raws@),
                spans@.len() == n,
                forall|j: int| i <= j < n ==> (#[trigger] spans@[j])@ == sv[j],
                full == Seq::new(
                    rv.len(),
                    |j: int| (spec_normalize(rv[j]), spec_diff_style(rv[j]), sv[j], number_at(rv, j)),
                ),
                (old_line, new_line) == number_state(rv, i as nat),
                lines_view(lines@) == head + full.take(i as int),
            decreases n - i,
        {
            let raw = &raws[i];
            assert(rv[i as int] == raw@);
            let style = diff_style_of(raw);
            let text = normalize_chars(raw, 0, raw.len());
            assert(raw@.subrange(0, raw@.len() as int) =~= raw@);
            let ln = match style {
                LineStyle::DiffHunk => {
                    match hunk_header_of(raw) {
                        Some((o, nw)) => {
                            old_line = o;
                            new_line = nw;
                        },
                        None => {},
                    }
                    None
                },
                LineStyle::DiffAdd => {
                    let ln = DiffLineNumber { old: None, new: Some(new_line) };
                    new_line = if new_line == u32::MAX {
                        0
                    } else {
                        new_line + 1
                    };
                    Some(ln)
                },
                LineStyle::DiffRemove => {
                    let ln = DiffLineNumber { old: Some(old_line), new: None };
                    old_line = if old_line == u32::MAX {
                        0
                    } else {
                        old_line + 1
                    };
                    Some(ln)
                },
                LineStyle::Normal => {
                    let ln = DiffLineNumber { old: Some(old_line), new: Some(new_line) };
                    old_line = if old_line == u32::MAX {
                        0
                    } else {
                        old_line + 1
                    };
                    new_line = if new_line == u32::MAX {
                        0
                    } else {
                        new_line + 1
                    };
                    Some(ln)
                },
                _ => None,
            };
            let mut line_spans: Vec<ColorSpan> = Vec::new();
            std::mem::swap(&mut spans[i], &mut line_spans);
            let mut doc_line = DocLine::new(text, style).with_spans(line_spans);
            doc_line.line_number = ln;
            let ghost prev = lines_view(lines@);
            lines.push(doc_line);
            assert(lines_view(lines@) =~= prev.push(line_view(doc_line)));
            assert(full.take(i + 1) =~= full.take(i as int).push(full[i as int]));
            i += 1;
        }
        assert(full.take(n as int) =~= full);
        Document::from_lines(lines)
    }
}


// ─────────────────────────────────────────────────────────────────
//  Highlighting and the two panes
// ─────────────────────────────────────────────────────────────────

/// The diff lines in display form.
pub open spec fn display_lines(diff: Seq<char>) -> Seq<Seq<char>> {
    spec_lines(diff).map_values(|l: Seq<char>| spec_normalize(l))
}

/// The style of each diff line.
pub open spec fn diff_line_styles(diff: Seq<char>) -> Seq<LineStyle> {
    spec_lines(diff).map_values(|l: Seq<char>| spec_diff_style(l))
}

/// The language of the selected file, if any is selected.
pub open spec fn selected_language_of(es: Seq<(Seq<char>, Seq<char>)>, selected: nat) -> Option<
    SyntaxLang,
> {
    match selected_entry(es, selected) {
        Some(e) => spec_language(e.1),
        None => None,
    }
}

impl GitModel {
    /// `self` and `other` show the same repository state.
    pub open spec fn same_state(self, other: Self) -> bool {
        &&& self.spec_repo_root() == other.spec_repo_root()
        &&& self.spec_branch() == other.spec_branch()
        &&& self.spec_tracking() == other.spec_tracking()
        &&& self.spec_entries() == other.spec_entries()
        &&& self.spec_selected() == other.spec_selected()
        &&& self.spec_diff() == other.spec_diff()
    }

    /// The language of the selected file.
    pub fn selected_language(&self) -> (r: Option<SyntaxLang>)
        ensures
            r == selected_language_of(self.spec_entries(), self.spec_selected()),
    {
        if self.selected < self.entries.len() {
            language_for_path(self.entries[self.selected].path.as_str())
        } else {
            None
        }
    }

    /// The highlight spans of the diff lines `diff_lines` (in display form)
    /// with the styles `diff_styles`, in the language of the selected file.
    pub fn syntax_spans_for_diff_lines(
        &mut self,
        diff_lines: &Vec<Vec<char>>,
        diff_styles: &Vec<LineStyle>,
    ) -> (r: Result<Vec<Vec<ColorSpan>>, String>)
        requires
            diff_lines.len() == diff_styles.len(),
        ensures
            final(self).same_state(*old(self)),
            r matches Ok(v) && spans_view(v@) == spec_highlight(
                selected_language_of(old(self).spec_entries(), old(self).spec_selected()),
                views(diff_lines@),
                diff_styles@,
            ),
    {
        let lang = self.selected_language();
        syntax_spans_for_lines(&mut self.ts_parser, lang, diff_lines, diff_styles)
    }

    /// The diff lines in display form, and their styles.
    fn display_diff(&self) -> (r: (Vec<Vec<char>>, Vec<LineStyle>))
        ensures
            views(r.0@) == display_lines(self.spec_diff()),
            r.1@ == diff_line_styles(self.spec_diff()),
            r.0@.len() == r.1@.len() == spec_lines(self.spec_diff()).len(),
    {
        let raws = self.diff_lines();
        let ghost rv = views(raws@);
        let mut texts: Vec<Vec<char>> = Vec::new();
        let mut styles: Vec<LineStyle> = Vec::new();
        let mut i: usize = 0;
        while i < raws.len()
            invariant
                i <= raws.len(),
                rv == views(raws@),
                rv == spec_lines(self.spec_diff()),
                views(texts@) == display_lines(self.spec_diff()).take(i as int),
                styles@ == diff_line_styles(self.spec_diff()).take(i as int),
            decreases raws.len() - i,
        {
            let raw = &raws[i];
            assert(rv[i as int] == raw@);
            assert(raw@.subrange(0, raw@.len() as int) =~= raw@);
            let t = normalize_chars(raw, 0, raw.len());
            let tv = chars_of(t.as_str());
            assert(tv@ == spec_normalize(rv[i as int]));
            assert(display_lines(self.spec_diff())[i as int] == spec_normalize(rv[i as int]));
            let ghost prev = texts@;
            texts.push(tv);
            assert(views(texts@) =~= views(prev).push(tv@));
            styles.push(diff_style_of(raw));
            i += 1;
            assert(views(texts@) =~= display_lines(self.spec_diff()).take(i as int));
            assert(styles@ =~= diff_line_styles(self.spec_diff()).take(i as int));
        }
        assert(display_lines(self.spec_diff()).take(raws.len() as int) =~= display_lines(
            self.spec_diff(),
        ));
        assert(diff_line_styles(self.spec_diff()).take(raws.len() as int) =~= diff_line_styles(
            self.spec_diff(),
        ));
        (texts, styles)
    }

    /// The file list document (left pane) with where its sections sit, and
    /// the diff document (right pane) with line numbers and highlighting.
    pub fn build_split_documents(&mut self) -> (r: Result<
        (Document, GroupedGitViewMeta, Document),
        String,
    >)
        requires
            old(self).wf(),
        ensures
            final(self).same_state(*old(self)),
            ({
                let es = old(self).spec_entries();
                let sel = old(self).spec_selected();
                let diff = old(self).spec_diff();
                let lang = selected_language_of(es, sel);
                &&& r is Ok
                &&& r matches Ok((f, m, d)) ==> {
                    &&& file_document_spec(es, sel, f.view(), m)
                    &&& lines_view(d.view()) == diff_doc_lines(
                        es,
                        sel,
                        diff,
                        spec_highlight(lang, display_lines(diff), diff_line_styles(diff)),
                    )
                }
            }),
    {
        let (file_doc, file_meta) = self.build_file_document();
        let (texts, styles) = self.display_diff();
        let spans = match self.syntax_spans_for_diff_lines(&texts, &styles) {
            Ok(s) => s,
            Err(e) => {
                return Err(e);
            },
        };
        assert(spans_view(spans@).len() == spans@.len());
        let diff_doc = self.build_diff_document(spans);
        Ok((file_doc, file_meta, diff_doc))
    }

    /// A single document holding the file list followed by the diff
    /// document, with where the file list sits.
    pub fn build_grouped_document(&mut self) -> (r: Result<(Document, GroupedGitViewMeta), String>)
        requires
            old(self).wf(),
        ensures
            final(self).same_state(*old(self)),
            ({
                let es = old(self).spec_entries();
                let sel = old(self).spec_selected();
                let diff = old(self).spec_diff();
                let lang = selected_language_of(es, sel);
                &&& r is Ok
                &&& r matches Ok((g, m)) ==> {
                    &&& m.files_count <= g.view().len()
                    &&& file_document_spec(es, sel, g.view().take(m.files_count as int), m)
                    &&& lines_view(g.view().skip(m.files_count as int)) == diff_doc_lines(
                        es,
                        sel,
                        diff,
                        spec_highlight(lang, display_lines(diff), diff_line_styles(diff)),
                    )
                }
            }),
    {
        match self.build_split_documents() {
            Ok((f, m, d)) => {
                let ghost fv = f.view();
                let ghost dv = d.view();
                let mut lines = f.into_lines();
                let mut rest = d.into_lines();
                lines.append(&mut rest);
                assert(lines@ =~= fv + dv);
                assert(lines_view(dv).len() == dv.len());
                let g = Document::from_lines(lines);
                assert(g.view().take(m.files_count as int) =~= fv);
                assert(g.view().skip(m.files_count as int) =~= dv);
                Ok((g, m))
            },
            Err(e) => Err(e),
        }
    }
}


/// A line of the single-pane file list: a `>` marker on the selected file,
/// then the status pair and the path.
pub open spec fn legacy_file_line(es: Seq<(Seq<char>, Seq<char>)>, selected: nat, i: int) -> LineView {
    (
        (if i == selected {
            ">"@
        } else {
            " "@
        }) + " "@ + es[i].0 + " "@ + es[i].1,
        if i == selected {
            LineStyle::Selected
        } else {
            LineStyle::Normal
        },
        seq![],
        None,
    )
}

/// The title of the diff part of the single-pane document.
pub open spec fn legacy_diff_title(es: Seq<(Seq<char>, Seq<char>)>, selected: nat) -> Seq<char> {
    match selected_entry(es, selected) {
        Some(e) => "DIFF "@ + e.1,
        None => "DIFF"@,
    }
}

/// The lines of the single-pane document: a `FILES` heading, the files
/// (or a note that the tree is clean), an empty line, a `DIFF` heading and
/// the diff lines with their styles and spans.
pub open spec fn legacy_doc_lines(
    es: Seq<(Seq<char>, Seq<char>)>,
    selected: nat,
    diff: Seq<char>,
    spans: Seq<Seq<ColorSpan>>,
) -> Seq<LineView> {
    let raws = spec_lines(diff);
    seq![("FILES"@, LineStyle::Header, Seq::<ColorSpan>::empty(), None::<DiffLineNumber>)] + (if es.len()
        == 0 {
        seq![("  (working tree clean)"@, LineStyle::Dim, Seq::<ColorSpan>::empty(), None::<DiffLineNumber>)]
    } else {
        Seq::new(es.len(), |i: int| legacy_file_line(es, selected, i))
    }) + seq![
        (Seq::<char>::empty(), LineStyle::Dim, Seq::<ColorSpan>::empty(), None::<DiffLineNumber>),
        (legacy_diff_title(es, selected), LineStyle::Header, Seq::<ColorSpan>::empty(), None::<DiffLineNumber>),
    ] + Seq::new(
        raws.len(),
        |i: int| (spec_normalize(raws[i]), spec_diff_style(raws[i]), spans[i], None::<DiffLineNumber>),
    )
}

impl GitModel {
    /// A single document holding the file list and the diff below it, with
    /// where the file list sits.
    pub fn build_document(&mut self) -> (r: Result<(Document, GitViewMeta), String>)
        ensures
            final(self).same_state(*old(self)),
            ({
                let es = old(self).spec_entries();
                let sel = old(self).spec_selected();
                let diff = old(self).spec_diff();
                let lang = selected_language_of(es, sel);
                &&& r is Ok
                &&& r matches Ok((d, m)) ==> {
                    &&& m.files_start_line == 1
                    &&& m.files_count == es.len()
                    &&& lines_view(d.view()) == legacy_doc_lines(
                        es,
                        sel,
                        diff,
                        spec_highlight(lang, display_lines(diff), diff_line_styles(diff)),
                    )
                }
            }),
    {
        let ghost es = self.spec_entries();
        let ghost sel = self.spec_selected();
        let mut lines: Vec<DocLine> = Vec::new();
        proof {
            reveal_strlit(">");
            reveal_strlit(" ");
        }
        let h = DocLine::new(copy_str("FILES"), LineStyle::Header);
        assert(h.spans@ =~= Seq::<ColorSpan>::empty());
        lines.push(h);
        let ghost head = seq![("FILES"@, LineStyle::Header, Seq::<ColorSpan>::empty(), None::<DiffLineNumber>)];
        assert(lines_view(lines@) =~= head);
        let ghost files = if es.len() == 0 {
            seq![("  (working tree clean)"@, LineStyle::Dim, Seq::<ColorSpan>::empty(), None::<DiffLineNumber>)]
        } else {
            Seq::new(es.len(), |i: int| legacy_file_line(es, sel, i))
        };
        if self.entries.len() == 0 {
            let l = DocLine::new(copy_str("  (working tree clean)"), LineStyle::Dim);
            assert(l.spans@ =~= Seq::<ColorSpan>::empty());
            lines.push(l);
            assert(lines_view(lines@) =~= head + files);
        } else {
            let mut i: usize = 0;
            while i < self.entries.len()
                invariant
                    i <= self.entries.len(),
                    es == entries_view(self.entries@),
                    sel == self.selected,
                    es.len() > 0,
                    files == Seq::new(es.len(), |i: int| legacy_file_line(es, sel, i)),
                    lines_view(lines@) == head + files.take(i as int),
                decreases self.entries.len() - i,
            {
                let e = &self.entries[i];
                assert(entry_view(*e) == es[i as int]);
                proof {
                    reveal_strlit(">");
                    reveal_strlit(" ");
                }
                let mut t = String::new();
                if i == self.selected {
                    t.push('>');
                } else {
                    t.push(' ');
                }
                t.push(' ');
                push_str_chars(&mut t, e.xy.as_str());
                t.push(' ');
                push_str_chars(&mut t, e.path.as_str());
                let style = if i == self.selected {
                    LineStyle::Selected
                } else {
                    LineStyle::Normal
                };
                let l = DocLine::new(t, style);
                assert(l.spans@ =~= Seq::<ColorSpan>::empty());
                assert(line_view(l) == legacy_file_line(es, sel, i as int)) by {
                    assert(l.text@ =~= legacy_file_line(es, sel, i as int).0);
                }
                let ghost prev = lines_view(lines@);
                lines.push(l);
                assert(lines_view(lines@) =~= prev.push(line_view(l)));
                assert(files.take(i + 1) =~= files.take(i as int).push(files[i as int]));
                i += 1;
            }
            assert(files.take(es.len() as int) =~= files);
        }
        let files_count = self.entries.len();
        let blank = DocLine::new(String::new(), LineStyle::Dim);
        assert(blank.spans@ =~= Seq::<ColorSpan>::empty());
        assert(blank.text@ =~= Seq::<char>::empty());
        lines.push(blank);
        let title = if self.selected < self.entries.len() {
            let mut t = copy_str("DIFF ");
            push_str_chars(&mut t, self.entries[self.selected].path.as_str());
            t
        } else {
            copy_str("DIFF")
        };
        let tl = DocLine::new(title, LineStyle::Header);
        assert(tl.spans@ =~= Seq::<ColorSpan>::empty());
        lines.push(tl);
        let ghost mid = seq![
            (Seq::<char>::empty(), LineStyle::Dim, Seq::<ColorSpan>::empty(), None::<DiffLineNumber>),
            (legacy_diff_title(es, sel), LineStyle::Header, Seq::<ColorSpan>::empty(), None::<DiffLineNumber>),
        ];
        assert(lines_view(lines@) =~= head + files + mid);
        let (texts, styles) = self.display_diff();
        let mut spans = match self.syntax_spans_for_diff_lines(&texts, &styles) {
            Ok(s) => s,
            Err(e) => {
                return Err(e);
            },
        };
        let ghost sv = spans_view(spans@);
        assert(sv.len() == spans@.len());
        let ghost raws = spec_lines(self.spec_diff());
        let ghost tail = Seq::new(
            raws.len(),
            |i: int| (spec_normalize(raws[i]), spec_diff_style(raws[i]), sv[i], None::<DiffLineNumber>),
        );
        let ghost base = head + files + mid;
        let n = texts.len();
        let mut i: usize = 0;
        while i < n
            invariant
                i <= n == texts.len() == styles.len() == spans.len() == raws.len(),
                views(texts@) == display_lines(self.spec_diff()),
                styles@ == diff_line_styles(self.spec_diff()),
                raws == spec_lines(self.spec_diff()),
                sv.len() == n,
                forall|j: int| i <= j < n ==> (#[trigger] spans@[j])@ == sv[j],
                tail == Seq::new(
                    raws.len(),
                    |i: int| (spec_normalize(raws[i]), spec_diff_style(raws[i]), sv[i], None::<DiffLineNumber>),
                ),
                lines_view(lines@) == base + tail.take(i as int),
            decreases n - i,
        {
            assert(views(texts@)[i as int] == texts@[i as int]@);
            let text = string_of(&texts[i]);
            let mut ls: Vec<ColorSpan> = Vec::new();
            std::mem::swap(&mut spans[i], &mut ls);
            let l = DocLine::new(text, styles[i]).with_spans(ls);
            let ghost prev = lines_view(lines@);
            lines.push(l);
            assert(lines_view(lines@) =~= prev.push(line_view(l)));
            assert(tail.take(i + 1) =~= tail.take(i as int).push(tail[i as int]));
            i += 1;
        }
        assert(tail.take(n as int) =~= tail);
        assert(lines_view(lines@) =~= legacy_doc_lines(es, sel, self.spec_diff(), sv));
        let doc = Document::from_lines(lines);
        Ok((doc, GitViewMeta { files_start_line: 1, files_count }))
    }
}


// ─────────────────────────────────────────────────────────────────
//  Laws
// ─────────────────────────────────────────────────────────────────

/// The counts of the status summary are the numbers of files that the
/// grouped file list shows under each section.
pub proof fn lemma_summary_counts_match_sections(es: Seq<(Seq<char>, Seq<char>)>, k: StatusSectionKind)
    ensures
        count_in_section(es, k) == section_rows(es, k).len(),
    decreases es.len(),
{
    if es.len() > 0 {
        lemma_summary_counts_match_sections(es.drop_last(), k);
    }
}

/// Moving the selection by `delta` and back by `-delta` returns to where it
/// was, unless the first move was clamped at an end of the list.
pub proof fn lemma_move_selection_back(selected: nat, len: nat, delta: int)
    requires
        selected < len,
        0 <= selected + delta < len,
    ensures
        moved_selection(moved_selection(selected, len, delta), len, -delta) == selected,
{
}

/// Moving the selection keeps it within the list.
pub proof fn lemma_move_selection_in_range(selected: nat, len: nat, delta: int)
    requires
        len > 0,
    ensures
        moved_selection(selected, len, delta) < len,
{
}


/// An exit code in decimal, with a `-` when it is negative.
pub open spec fn signed_decimal(n: int) -> Seq<char> {
    if n < 0 {
        seq!['-'] + decimal((-n) as nat)
    } else {
        decimal(n as nat)
    }
}

/// The error of a Git invocation that did not succeed: what ran, where,
/// with which exit code (or that a signal ended it), and what it printed
/// (its trimmed error output, or its trimmed output when that is blank).
pub open spec fn spec_git_failure(
    description: Seq<char>,
    repo_root: Seq<char>,
    exit_code: Option<i32>,
    stderr: Seq<char>,
    stdout: Seq<char>,
) -> Seq<char> {
    let detail = if trim(stderr).len() == 0 {
        trim(stdout)
    } else {
        trim(stderr)
    };
    let exit = match exit_code {
        Some(c) => signed_decimal(c as int),
        None => "terminated by signal"@,
    };
    description + " failed in "@ + repo_root + " with exit "@ + exit + ": "@ + detail
}

/// The error of a Git invocation that did not succeed.
pub fn git_failure_message(
    description: &str,
    repo_root: &str,
    exit_code: Option<i32>,
    stderr: &str,
    stdout: &str,
) -> (r: String)
    ensures
        r@ == spec_git_failure(description@, repo_root@, exit_code, stderr@, stdout@),
{
    let err = trim_str(stderr);
    let detail = if err.as_str().is_empty() {
        trim_str(stdout)
    } else {
        err
    };
    let mut r = copy_str(description);
    push_str_chars(&mut r, " failed in ");
    push_str_chars(&mut r, repo_root);
    push_str_chars(&mut r, " with exit ");
    match exit_code {
        Some(c) => {
            if c < 0 {
                r.push('-');
                let m: u64 = (-(c as i64)) as u64;
                push_decimal(&mut r, m);
            } else {
                push_decimal(&mut r, c as u64);
            }
        },
        None => push_str_chars(&mut r, "terminated by signal"),
    }
    push_str_chars(&mut r, ": ");
    push_str_chars(&mut r, detail.as_str());
    r
}


/// Reading for display leaves no tab and no carriage return.
proof fn lemma_display_scan_clean(s: Seq<char>, n: nat)
    ensures
        !display_scan(s, n).0.contains('\t'),
        !display_scan(s, n).0.contains('\r'),
    decreases n,
{
    if n > 0 && n <= s.len() {
        lemma_display_scan_clean(s, (n - 1) as nat);
        let (out, col) = display_scan(s, (n - 1) as nat);
        let r = display_scan(s, n).0;
        assert forall|k: int| 0 <= k < r.len() implies r[k] != '\t' && r[k] != '\r' by {
            if k < out.len() {
                assert(r[k] == out[k]);
            }
        }
    }
}

/// Reading a text without tabs and carriage returns for display keeps it.
proof fn lemma_display_scan_plain(s: Seq<char>, n: nat)
    requires
        n <= s.len(),
        !s.contains('\t'),
        !s.contains('\r'),
    ensures
        display_scan(s, n).0 == s.take(n as int),
    decreases n,
{
    if n > 0 {
        lemma_display_scan_plain(s, (n - 1) as nat);
        assert(s[n - 1] != '\t' && s[n - 1] != '\r');
        assert(s.take(n - 1).push(s[n - 1]) =~= s.take(n as int));
    } else {
        assert(s.take(0) =~= Seq::<char>::empty());
    }
}

/// The display form of a text holds no tab and no carriage return; a text
/// without them is its own display form, so normalising twice gives the
/// same text as normalising once.
pub proof fn lemma_normalize_idempotent(s: Seq<char>)
    ensures
        !spec_normalize(s).contains('\t'),
        !spec_normalize(s).contains('\r'),
        !s.contains('\t') && !s.contains('\r') ==> spec_normalize(s) == s,
        spec_normalize(spec_normalize(s)) == spec_normalize(s),
{
    lemma_display_scan_clean(s, s.len());
    let t = spec_normalize(s);
    lemma_display_scan_plain(t, t.len());
    assert(t.take(t.len() as int) =~= t);
    if !s.contains('\t') && !s.contains('\r') {
        lemma_display_scan_plain(s, s.len());
        assert(s.take(s.len() as int) =~= s);
    }
}


/// Reading the first `n` characters of a text depends on those alone.
proof fn lemma_scan_prefix(s: Seq<char>, t: Seq<char>, n: nat)
    requires
        n <= s.len(),
        n <= t.len(),
        s.take(n as int) == t.take(n as int),
    ensures
        line_scan(s, n) == line_scan(t, n),
    decreases n,
{
    if n > 0 {
        assert(s.take(n - 1) =~= s.take(n as int).take(n - 1));
        assert(t.take(n - 1) =~= t.take(n as int).take(n - 1));
        assert(s[n - 1] == s.take(n as int)[n - 1]);
        assert(t[n - 1] == t.take(n as int)[n - 1]);
        lemma_scan_prefix(s, t, (n - 1) as nat);
    }
}

/// After a text that ends its last line, the lines of the rest are read as
/// on their own.
proof fn lemma_scan_after(a: Seq<char>, b: Seq<char>, j: nat)
    requires
        line_scan(a, a.len()).1 == Seq::<char>::empty(),
        j <= b.len(),
    ensures
        line_scan(a + b, a.len() + j) == (line_scan(a, a.len()).0 + line_scan(b, j).0, line_scan(b, j).1),
    decreases j,
{
    let ab = a + b;
    if j == 0 {
        assert(ab.take(a.len() as int) =~= a.take(a.len() as int));
        lemma_scan_prefix(ab, a, a.len());
        assert(line_scan(a, a.len()).0 + Seq::<Seq<char>>::empty() =~= line_scan(a, a.len()).0);
    } else {
        lemma_scan_after(a, b, (j - 1) as nat);
        assert(ab[a.len() + j - 1] == b[j - 1]);
        let da = line_scan(a, a.len()).0;
        let (db, cb) = line_scan(b, (j - 1) as nat);
        if b[j - 1] == '\n' {
            assert(da + db.push(strip_cr(cb)) =~= (da + db).push(strip_cr(cb)));
        }
    }
}

/// The lines of `a + b`, where `a` is empty or ends with a line break, are
/// the lines of `a` followed by those of `b`.
proof fn lemma_lines_concat(a: Seq<char>, b: Seq<char>)
    requires
        a.len() == 0 || a.last() == '\n',
    ensures
        spec_lines(a + b) == spec_lines(a) + spec_lines(b),
{
    if a.len() > 0 {
        assert(a[a.len() - 1] == '\n');
    }
    assert(line_scan(a, a.len()).1 == Seq::<char>::empty());
    lemma_scan_after(a, b, b.len());
    let da = line_scan(a, a.len()).0;
    let (db, cb) = line_scan(b, b.len());
    assert(spec_lines(a) == da);
    if cb.len() > 0 {
        assert((da + db).push(cb) =~= da + db.push(cb));
    }
}

/// The entries of joined lists of lines are the entries of each, joined.
proof fn lemma_entries_concat(x: Seq<Seq<char>>, y: Seq<Seq<char>>)
    ensures
        spec_status_entries(x + y) == spec_status_entries(x) + spec_status_entries(y),
    decreases y.len(),
{
    if y.len() == 0 {
        assert(x + y =~= x);
        assert(spec_status_entries(x) + Seq::<(Seq<char>, Seq<char>)>::empty() =~= spec_status_entries(x));
    } else {
        lemma_entries_concat(x, y.drop_last());
        assert((x + y).drop_last() =~= x + y.drop_last());
        assert((x + y).last() == y.last());
        match spec_status_entry(y.last()) {
            Some(e) => {
                assert(spec_status_entries(x) + spec_status_entries(y.drop_last()).push(e) =~= (
                spec_status_entries(x) + spec_status_entries(y.drop_last())).push(e));
            },
            None => {},
        }
    }
}

/// Section counts of joined entry lists add up.
proof fn lemma_count_concat(e1: Seq<(Seq<char>, Seq<char>)>, e2: Seq<(Seq<char>, Seq<char>)>, k: StatusSectionKind)
    ensures
        count_in_section(e1 + e2, k) == count_in_section(e1, k) + count_in_section(e2, k),
    decreases e2.len(),
{
    if e2.len() == 0 {
        assert(e1 + e2 =~= e1);
    } else {
        lemma_count_concat(e1, e2.drop_last(), k);
        assert((e1 + e2).drop_last() =~= e1 + e2.drop_last());
        assert((e1 + e2).last() == e2.last());
    }
}

/// The section counts of `git status` output made of two parts, the first
/// empty or ending with a line break, are the sums of the counts of the
/// parts.
pub proof fn lemma_summary_additive(a: Seq<char>, b: Seq<char>, k: StatusSectionKind)
    requires
        a.len() == 0 || a.last() == '\n',
    ensures
        count_in_section(spec_parse_status(a + b), k) == count_in_section(spec_parse_status(a), k)
            + count_in_section(spec_parse_status(b), k),
{
    lemma_lines_concat(a, b);
    lemma_entries_concat(spec_lines(a), spec_lines(b));
    lemma_count_concat(spec_parse_status(a), spec_parse_status(b), k);
}


/// The decimal numeral of `n`: digits only, at least one, worth `n`.
proof fn lemma_decimal_numeral(n: nat)
    ensures
        decimal(n).len() > 0,
        all_digits(decimal(n)),
        decimal_value(decimal(n)) == n,
    decreases n,
{
    if n < 10 {
        let d = decimal(n);
        assert(d.drop_last() =~= Seq::<char>::empty());
        assert(d.last() == ((n + '0' as nat) as char));
        assert(decimal_value(d.drop_last()) == 0);
        assert(digit_value(d.last()) == n);
        assert(d.len() == 1);
    } else {
        lemma_decimal_numeral(n / 10);
        let p = decimal(n / 10);
        let c = ((n % 10) + '0' as nat) as char;
        assert(decimal(n) == p.push(c));
        assert(p.push(c).drop_last() =~= p);
        assert(digit_value(c) == n % 10);
        assert(n == (n / 10) * 10 + n % 10);
        assert forall|i: int| 0 <= i < p.push(c).len() implies is_digit(#[trigger] p.push(c)[i]) by {
            if i < p.len() {
                assert(p.push(c)[i] == p[i]);
            }
        }
    }
}

/// In `x` followed by `c`, where `x` holds no `c`, the first `c` is the one
/// after `x`.
proof fn lemma_first_after(x: Seq<char>, c: char, y: Seq<char>, i: int)
    requires
        0 <= i <= x.len(),
        !x.contains(c),
    ensures
        first_from(x + seq![c] + y, c, i) == x.len(),
    decreases x.len() - i,
{
    let s = x + seq![c] + y;
    if i < x.len() {
        assert(s[i] == x[i]);
        lemma_first_after(x, c, y, i + 1);
    } else {
        assert(s[i] == c);
    }
}

/// A numeral holds no character other than digits.
proof fn lemma_digits_lack(s: Seq<char>, c: char)
    requires
        all_digits(s),
        !is_digit(c),
    ensures
        !s.contains(c),
{
    if s.contains(c) {
        let k = choose|k: int| 0 <= k < s.len() && s[k] == c;
        assert(is_digit(s[k]));
    }
}

/// The number before a comma that follows a numeral.
proof fn lemma_numeral_before_comma(d: Seq<char>, rest: Seq<char>)
    requires
        all_digits(d),
    ensures
        before_comma(d + seq![','] + rest) == d,
        before_comma(d) == d,
{
    lemma_digits_lack(d, ',');
    lemma_first_after(d, ',', rest, 0);
    assert((d + seq![','] + rest).take(d.len() as int) =~= d);
    if find_char(d, ',') >= 0 {
        lemma_first_from_bounds(d, ',', 0);
    }
}

/// A numeral worth at most `u32::MAX` parses back to its value.
proof fn lemma_numeral_parses(n: nat)
    requires
        n <= u32::MAX,
    ensures
        spec_parse_unsigned(decimal(n), u32::MAX as nat) == Some(n),
{
    lemma_decimal_numeral(n);
    assert(is_digit(decimal(n)[0]));
}

/// In a numeral, a comma, a numeral, a space and more: the first space
/// ends the pair, and the part before the comma is the first numeral.
proof fn lemma_counted_field(d1: Seq<char>, d2: Seq<char>, y: Seq<char>)
    requires
        all_digits(d1),
        all_digits(d2),
    ensures
        find_char(d1 + seq![','] + d2 + seq![' '] + y, ' ') == d1.len() + 1 + d2.len(),
        before_comma((d1 + seq![','] + d2 + seq![' '] + y).take((d1.len() + 1 + d2.len()) as int)) == d1,
{
    let x = d1 + seq![','] + d2;
    lemma_digits_lack(d1, ' ');
    lemma_digits_lack(d2, ' ');
    assert(!x.contains(' ')) by {
        if x.contains(' ') {
            let k = choose|k: int| 0 <= k < x.len() && x[k] == ' ';
            if k < d1.len() {
                assert(x[k] == d1[k]);
            } else if k > d1.len() {
                assert(x[k] == d2[k - d1.len() - 1]);
            }
        }
    }
    assert(d1 + seq![','] + d2 + seq![' '] + y =~= x + seq![' '] + y);
    lemma_first_after(x, ' ', y, 0);
    assert((x + seq![' '] + y).take(x.len() as int) =~= x);
    lemma_numeral_before_comma(d1, d2);
}

/// A hunk header written as `@@ -A,C +B,D @@` followed by any text reads
/// back as the start lines `(A, B)`.
#[verifier::rlimit(40)]
pub proof fn lemma_hunk_header_roundtrip(a: u32, b: u32, c: u32, d: u32, t: Seq<char>)
    ensures
        spec_hunk_header(
            seq!['@', '@', ' ', '-'] + decimal(a as nat) + seq![','] + decimal(c as nat) + seq![' ', '+']
                + decimal(b as nat) + seq![','] + decimal(d as nat) + seq![' ', '@', '@'] + t,
        ) == Some((a as nat, b as nat)),
{
    let da = decimal(a as nat);
    let dc = decimal(c as nat);
    let db = decimal(b as nat);
    let dd = decimal(d as nat);
    lemma_decimal_numeral(a as nat);
    lemma_decimal_numeral(b as nat);
    lemma_decimal_numeral(c as nat);
    lemma_decimal_numeral(d as nat);
    lemma_numeral_parses(a as nat);
    lemma_numeral_parses(b as nat);
    reveal_strlit("@@ -");
    let tail = db + seq![','] + dd + seq![' ', '@', '@'] + t;
    let y1 = seq!['+'] + tail;
    let line = seq!['@', '@', ' ', '-'] + da + seq![','] + dc + seq![' ', '+'] + db + seq![','] + dd
        + seq![' ', '@', '@'] + t;
    let rest = da + seq![','] + dc + seq![' '] + y1;
    assert(line =~= seq!['@', '@', ' ', '-'] + rest);
    assert(line.subrange(0, 4) =~= "@@ -"@);
    assert(line.skip(4) =~= rest);
    lemma_counted_field(da, dc, y1);
    let me = (da.len() + 1 + dc.len()) as int;
    let r2 = rest.skip(me);
    assert(r2 =~= seq![' '] + seq!['+'] + tail);
    lemma_first_after(seq![' '], '+', tail, 0);
    let r3 = r2.skip(2);
    assert(r3 =~= tail);
    assert(tail =~= db + seq![','] + dd + seq![' '] + (seq!['@', '@'] + t));
    lemma_counted_field(db, dd, seq!['@', '@'] + t);
}

/// A hunk header written without counts, `@@ -A +B @@`, followed by any
/// text reads back as the start lines `(A, B)`.
#[verifier::rlimit(40)]
pub proof fn lemma_hunk_header_roundtrip_short(a: u32, b: u32, t: Seq<char>)
    ensures
        spec_hunk_header(
            seq!['@', '@', ' ', '-'] + decimal(a as nat) + seq![' ', '+'] + decimal(b as nat) + seq![
                ' ',
                '@',
                '@',
            ] + t,
        ) == Some((a as nat, b as nat)),
{
    let da = decimal(a as nat);
    let db = decimal(b as nat);
    lemma_decimal_numeral(a as nat);
    lemma_decimal_numeral(b as nat);
    lemma_numeral_parses(a as nat);
    lemma_numeral_parses(b as nat);
    reveal_strlit("@@ -");
    let y3 = seq!['@', '@'] + t;
    let tail = db + seq![' '] + y3;
    let y1 = seq!['+'] + tail;
    let line = seq!['@', '@', ' ', '-'] + da + seq![' ', '+'] + db + seq![' ', '@', '@'] + t;
    let rest = da + seq![' '] + y1;
    assert(line =~= seq!['@', '@', ' ', '-'] + rest);
    assert(line.subrange(0, 4) =~= "@@ -"@);
    assert(line.skip(4) =~= rest);
    lemma_digits_lack(da, ' ');
    lemma_first_after(da, ' ', y1, 0);
    assert(rest.take(da.len() as int) =~= da);
    lemma_numeral_before_comma(da, seq![]);
    let r2 = rest.skip(da.len() as int);
    assert(r2 =~= seq![' '] + seq!['+'] + tail);
    lemma_first_after(seq![' '], '+', tail, 0);
    assert(r2.skip(2) =~= tail);
    lemma_digits_lack(db, ' ');
    lemma_first_after(db, ' ', y3, 0);
    assert(tail.take(db.len() as int) =~= db);
    lemma_numeral_before_comma(db, seq![]);
}


/// Each argument preceded by a space.
pub open spec fn spaced_words(ws: Seq<Seq<char>>) -> Seq<char>
    decreases ws.len(),
{
    if ws.len() == 0 {
        seq![]
    } else {
        spaced_words(ws.drop_last()) + seq![' '] + ws.last()
    }
}

proof fn lemma_spaced_concat(a: Seq<Seq<char>>, b: Seq<Seq<char>>)
    ensures
        spaced_words(a + b) == spaced_words(a) + spaced_words(b),
    decreases b.len(),
{
    if b.len() == 0 {
        assert(a + b =~= a);
        assert(spaced_words(a) + Seq::<char>::empty() =~= spaced_words(a));
    } else {
        lemma_spaced_concat(a, b.drop_last());
        assert((a + b).drop_last() =~= a + b.drop_last());
        assert(spaced_words(a) + spaced_words(b.drop_last()) + seq![' '] + b.last() =~= spaced_words(
            a,
        ) + (spaced_words(b.drop_last()) + seq![' '] + b.last()));
    }
}

proof fn lemma_spaced_one(w: Seq<char>)
    ensures
        spaced_words(seq![w]) == seq![' '] + w,
{
    assert(seq![w].drop_last() =~= Seq::<Seq<char>>::empty());
    assert(spaced_words(Seq::<Seq<char>>::empty()) == Seq::<char>::empty());
    assert(seq![w].last() == w);
    assert(Seq::<char>::empty() + seq![' '] + w =~= seq![' '] + w);
}

proof fn lemma_spaced_flag(on: bool, f: Seq<char>)
    ensures
        spaced_words(arg_if(on, f)) == flag_if(on, seq![' '] + f),
{
    lemma_spaced_one(f);
}

proof fn lemma_spaced_opt(o: Option<String>)
    ensures
        spaced_words(opt_arg(o)) == opt_word(o),
{
    match o {
        Some(w) => lemma_spaced_one(w@),
        None => {},
    }
}

/// The spaced form of a list of up to four plain words.
proof fn lemma_spaced_words4(w0: Seq<char>, w1: Seq<char>, w2: Seq<char>, w3: Seq<char>)
    ensures
        spaced_words(seq![w0]) == seq![' '] + w0,
        spaced_words(seq![w0, w1]) == seq![' '] + w0 + seq![' '] + w1,
        spaced_words(seq![w0, w1, w2]) == seq![' '] + w0 + seq![' '] + w1 + seq![' '] + w2,
        spaced_words(seq![w0, w1, w2, w3]) == seq![' '] + w0 + seq![' '] + w1 + seq![' '] + w2 + seq![
            ' ',
        ] + w3,
{
    lemma_spaced_one(w0);
    let s1 = seq![w0];
    let s2 = seq![w0, w1];
    let s3 = seq![w0, w1, w2];
    let s4 = seq![w0, w1, w2, w3];
    assert(s2.drop_last() =~= s1 && s2.last() == w1);
    assert(spaced_words(s2) == spaced_words(s1) + seq![' '] + w1);
    assert(s3.drop_last() =~= s2 && s3.last() == w2);
    assert(spaced_words(s3) == spaced_words(s2) + seq![' '] + w2);
    assert(s4.drop_last() =~= s3 && s4.last() == w3);
    assert(spaced_words(s4) == spaced_words(s3) + seq![' '] + w3);
    assert(spaced_words(s3) =~= seq![' '] + w0 + seq![' '] + w1 + seq![' '] + w2);
    assert(spaced_words(s4) =~= seq![' '] + w0 + seq![' '] + w1 + seq![' '] + w2 + seq![' '] + w3);
}

proof fn lemma_line_current_branch()
    ensures
        spec_description(GitCommand::CurrentBranch) == "git"@ + spaced_words(
            spec_args(GitCommand::CurrentBranch),
        ),
{
    let c = GitCommand::CurrentBranch;
    reveal_strlit("git rev-parse --abbrev-ref HEAD");
    reveal_strlit("rev-parse");
    reveal_strlit("--abbrev-ref");
    reveal_strlit("HEAD");
    reveal_strlit("git");
    lemma_spaced_words4("rev-parse"@, "--abbrev-ref"@, "HEAD"@, seq![]);
    assert(spec_description(c) =~= "git"@ + spaced_words(spec_args(c)));
}

proof fn lemma_line_status_porcelain_v2_branch()
    ensures
        spec_description(GitCommand::StatusPorcelainV2Branch) == "git"@ + spaced_words(
            spec_args(GitCommand::StatusPorcelainV2Branch),
        ),
{
    let c = GitCommand::StatusPorcelainV2Branch;
    reveal_strlit("git status --porcelain=v2 --branch");
    reveal_strlit("status");
    reveal_strlit("--porcelain=v2");
    reveal_strlit("--branch");
    reveal_strlit("git");
    lemma_spaced_words4("status"@, "--porcelain=v2"@, "--branch"@, seq![]);
    assert(spec_description(c) =~= "git"@ + spaced_words(spec_args(c)));
}

proof fn lemma_line_status_porcelain_v1()
    ensures
        spec_description(GitCommand::StatusPorcelainV1) == "git"@ + spaced_words(
            spec_args(GitCommand::StatusPorcelainV1),
        ),
{
    let c = GitCommand::StatusPorcelainV1;
    reveal_strlit("status");
    reveal_strlit("git status --porcelain=v1");
    reveal_strlit("--porcelain=v1");
    reveal_strlit("git");
    lemma_spaced_words4("status"@, "--porcelain=v1"@, seq![], seq![]);
    assert(spec_description(c) =~= "git"@ + spaced_words(spec_args(c)));
}

proof fn lemma_line_diff(path: String, cached: bool)
    ensures
        spec_description(GitCommand::Diff { path, cached }) == "git"@ + spaced_words(
            spec_args(GitCommand::Diff { path, cached }),
        ),
{
    let c = GitCommand::Diff { path, cached };
    reveal_strlit("git diff --cached -- ");
    reveal_strlit("git diff -- ");
    reveal_strlit("diff");
    reveal_strlit("--cached");
    reveal_strlit("--");
    reveal_strlit("git");
    lemma_spaced_concat(seq!["diff"@] + arg_if(cached, "--cached"@), seq!["--"@, path@]);
    lemma_spaced_concat(seq!["diff"@], arg_if(cached, "--cached"@));
    lemma_spaced_words4("--"@, path@, seq![], seq![]);
    lemma_spaced_one("diff"@);
    lemma_spaced_flag(cached, "--cached"@);
    assert(spec_description(c) =~= "git"@ + spaced_words(spec_args(c)));
}

proof fn lemma_line_add(path: String)
    ensures
        spec_description(GitCommand::Add { path }) == "git"@ + spaced_words(
            spec_args(GitCommand::Add { path }),
        ),
{
    let c = GitCommand::Add { path };
    reveal_strlit("--");
    reveal_strlit("git add -- ");
    reveal_strlit("add");
    reveal_strlit("git");
    lemma_spaced_words4("add"@, "--"@, path@, seq![]);
    assert(spec_description(c) =~= "git"@ + spaced_words(spec_args(c)));
}

proof fn lemma_line_restore_staged(path: String)
    ensures
        spec_description(GitCommand::RestoreStaged { path }) == "git"@ + spaced_words(
            spec_args(GitCommand::RestoreStaged { path }),
        ),
{
    let c = GitCommand::RestoreStaged { path };
    reveal_strlit("--");
    reveal_strlit("git restore --staged -- ");
    reveal_strlit("restore");
    reveal_strlit("--staged");
    reveal_strlit("git");
    lemma_spaced_words4("restore"@, "--staged"@, "--"@, path@);
    assert(spec_description(c) =~= "git"@ + spaced_words(spec_args(c)));
}

proof fn lemma_line_reset_path(path: String)
    ensures
        spec_description(GitCommand::ResetPath { path }) == "git"@ + spaced_words(
            spec_args(GitCommand::ResetPath { path }),
        ),
{
    let c = GitCommand::ResetPath { path };
    reveal_strlit("HEAD");
    reveal_strlit("--");
    reveal_strlit("git reset HEAD -- ");
    reveal_strlit("reset");
    reveal_strlit("git");
    lemma_spaced_words4("reset"@, "HEAD"@, "--"@, path@);
    assert(spec_description(c) =~= "git"@ + spaced_words(spec_args(c)));
}

proof fn lemma_line_restore_path(path: String, source: Option<String>, staged: bool, worktree: bool)
    ensures
        spec_description(GitCommand::RestorePath { path, source, staged, worktree }) == "git"@ + spaced_words(
            spec_args(GitCommand::RestorePath { path, source, staged, worktree }),
        ),
{
    let c = GitCommand::RestorePath { path, source, staged, worktree };
    reveal_strlit("--");
    reveal_strlit("restore");
    reveal_strlit("--staged");
    reveal_strlit("git restore");
    reveal_strlit(" --source=");
    reveal_strlit("--source=");
    reveal_strlit(" --staged");
    reveal_strlit(" --worktree");
    reveal_strlit("--worktree");
    reveal_strlit(" -- ");
    reveal_strlit("git");
    let src = match source {
        Some(s) => seq!["--source="@ + s@],
        None => Seq::<Seq<char>>::empty(),
    };
    let a1 = seq!["restore"@] + src;
    let a2 = a1 + arg_if(staged, "--staged"@);
    let a3 = a2 + arg_if(worktree, "--worktree"@);
    lemma_spaced_concat(a3, seq!["--"@, path@]);
    lemma_spaced_concat(a2, arg_if(worktree, "--worktree"@));
    lemma_spaced_concat(a1, arg_if(staged, "--staged"@));
    lemma_spaced_concat(seq!["restore"@], src);
    lemma_spaced_words4("--"@, path@, seq![], seq![]);
    lemma_spaced_one("restore"@);
    lemma_spaced_flag(staged, "--staged"@);
    lemma_spaced_flag(worktree, "--worktree"@);
    match source {
        Some(s) => {
            lemma_spaced_one("--source="@ + s@);
        },
        None => {},
    }
    assert(spec_description(c) =~= "git"@ + spaced_words(spec_args(c)));
}

proof fn lemma_line_clean_path(path: String)
    ensures
        spec_description(GitCommand::CleanPath { path }) == "git"@ + spaced_words(
            spec_args(GitCommand::CleanPath { path }),
        ),
{
    let c = GitCommand::CleanPath { path };
    reveal_strlit("--");
    reveal_strlit("git clean -f -- ");
    reveal_strlit("clean");
    reveal_strlit("-f");
    reveal_strlit("git");
    lemma_spaced_words4("clean"@, "-f"@, "--"@, path@);
    assert(spec_description(c) =~= "git"@ + spaced_words(spec_args(c)));
}

proof fn lemma_line_stage_all()
    ensures
        spec_description(GitCommand::StageAll) == "git"@ + spaced_words(
            spec_args(GitCommand::StageAll),
        ),
{
    let c = GitCommand::StageAll;
    reveal_strlit("--");
    reveal_strlit("add");
    reveal_strlit("git add --all -- .");
    reveal_strlit("--all");
    reveal_strlit(".");
    reveal_strlit("git");
    lemma_spaced_words4("add"@, "--all"@, "--"@, "."@);
    assert(spec_description(c) =~= "git"@ + spaced_words(spec_args(c)));
}

proof fn lemma_line_unstage_all()
    ensures
        spec_description(GitCommand::UnstageAll) == "git"@ + spaced_words(
            spec_args(GitCommand::UnstageAll),
        ),
{
    let c = GitCommand::UnstageAll;
    reveal_strlit("--");
    reveal_strlit("restore");
    reveal_strlit("--staged");
    reveal_strlit(".");
    reveal_strlit("git restore --staged -- .");
    reveal_strlit("git");
    lemma_spaced_words4("restore"@, "--staged"@, "--"@, "."@);
    assert(spec_description(c) =~= "git"@ + spaced_words(spec_args(c)));
}

proof fn lemma_line_fetch(remote: Option<String>)
    ensures
        spec_description(GitCommand::Fetch { remote }) == "git"@ + spaced_words(
    spec_args(GitCommand::Fetch { remote }),
        ),
{
    let c = GitCommand::Fetch { remote };
    reveal_strlit("git fetch");
    reveal_strlit("fetch");
    reveal_strlit("git");
    lemma_spaced_concat(seq!["fetch"@], opt_arg(remote));
    lemma_spaced_one("fetch"@);
    lemma_spaced_opt(remote);
    assert(spec_description(c) =~= "git"@ + spaced_words(spec_args(c)));
}

proof fn lemma_line_pull(remote: Option<String>, branch: Option<String>, rebase: bool)
    ensures
        spec_description(GitCommand::Pull { remote, branch, rebase }) == "git"@ + spaced_words(
            spec_args(GitCommand::Pull { remote, branch, rebase }),
        ),
{
    let c = GitCommand::Pull { remote, branch, rebase };
    reveal_strlit("git pull");
    reveal_strlit(" --rebase");
    reveal_strlit("--rebase");
    reveal_strlit("pull");
    reveal_strlit("git");
    let a1 = seq!["pull"@] + arg_if(rebase, "--rebase"@);
    let a2 = a1 + opt_arg(remote);
    lemma_spaced_concat(a2, opt_arg(branch));
    lemma_spaced_concat(a1, opt_arg(remote));
    lemma_spaced_concat(seq!["pull"@], arg_if(rebase, "--rebase"@));
    lemma_spaced_one("pull"@);
    lemma_spaced_flag(rebase, "--rebase"@);
    lemma_spaced_opt(remote);
    lemma_spaced_opt(branch);
    assert(spec_description(c) =~= "git"@ + spaced_words(spec_args(c)));
}

proof fn lemma_line_push(remote: Option<String>, branch: Option<String>, set_upstream: bool)
    ensures
        spec_description(GitCommand::Push { remote, branch, set_upstream }) == "git"@ + spaced_words(
            spec_args(GitCommand::Push { remote, branch, set_upstream }),
        ),
{
    let c = GitCommand::Push { remote, branch, set_upstream };
    reveal_strlit("git push");
    reveal_strlit(" -u");
    reveal_strlit("-u");
    reveal_strlit("push");
    reveal_strlit("git");
    let a1 = seq!["push"@] + arg_if(set_upstream, "-u"@);
    let a2 = a1 + opt_arg(remote);
    lemma_spaced_concat(a2, opt_arg(branch));
    lemma_spaced_concat(a1, opt_arg(remote));
    lemma_spaced_concat(seq!["push"@], arg_if(set_upstream, "-u"@));
    lemma_spaced_one("push"@);
    lemma_spaced_flag(set_upstream, "-u"@);
    lemma_spaced_opt(remote);
    lemma_spaced_opt(branch);
    assert(spec_description(c) =~= "git"@ + spaced_words(spec_args(c)));
}

proof fn lemma_line_list_branches()
    ensures
        spec_description(GitCommand::ListBranches) == "git"@ + spaced_words(
            spec_args(GitCommand::ListBranches),
        ),
{
    let c = GitCommand::ListBranches;
    reveal_strlit("git branch --list");
    reveal_strlit("branch");
    reveal_strlit("--list");
    reveal_strlit("git");
    lemma_spaced_words4("branch"@, "--list"@, seq![], seq![]);
    assert(spec_description(c) =~= "git"@ + spaced_words(spec_args(c)));
}

proof fn lemma_line_checkout_branch(name: String)
    ensures
        spec_description(GitCommand::CheckoutBranch { name }) == "git"@ + spaced_words(
            spec_args(GitCommand::CheckoutBranch { name }),
        ),
{
    let c = GitCommand::CheckoutBranch { name };
    reveal_strlit("git checkout ");
    reveal_strlit("checkout");
    reveal_strlit("git");
    lemma_spaced_words4("checkout"@, name@, seq![], seq![]);
    assert(spec_description(c) =~= "git"@ + spaced_words(spec_args(c)));
}

/// The description of every invocation but a commit is its command line:
/// `git` followed by each argument after a space. (A commit's description
/// shortens the message and puts the flags in another order.)
pub proof fn lemma_description_is_command_line(c: GitCommand)
    requires
        !(c is Commit),
    ensures
        spec_description(c) == "git"@ + spaced_words(spec_args(c)),
{
    match c {
        GitCommand::CurrentBranch => lemma_line_current_branch(),
        GitCommand::StatusPorcelainV2Branch => lemma_line_status_porcelain_v2_branch(),
        GitCommand::StatusPorcelainV1 => lemma_line_status_porcelain_v1(),
        GitCommand::Diff { path, cached } => lemma_line_diff(path, cached),
        GitCommand::Add { path } => lemma_line_add(path),
        GitCommand::RestoreStaged { path } => lemma_line_restore_staged(path),
        GitCommand::ResetPath { path } => lemma_line_reset_path(path),
        GitCommand::RestorePath { path, source, staged, worktree } => lemma_line_restore_path(path, source, staged, worktree),
        GitCommand::CleanPath { path } => lemma_line_clean_path(path),
        GitCommand::StageAll => lemma_line_stage_all(),
        GitCommand::UnstageAll => lemma_line_unstage_all(),
        GitCommand::Commit { .. } => {},
        GitCommand::Pull { remote, branch, rebase } => lemma_line_pull(remote, branch, rebase),
        GitCommand::Push { remote, branch, set_upstream } => lemma_line_push(remote, branch, set_upstream),
        GitCommand::ListBranches => lemma_line_list_branches(),
        GitCommand::CheckoutBranch { name } => lemma_line_checkout_branch(name),
        GitCommand::Fetch { remote } => lemma_line_fetch(remote),
    }
}

} // verus!
