//! The SVG icon sources: finding the path data of an icon.

use vstd::prelude::*;

use crate::git_model::{find_char, find_char_in};
use crate::text::{chars_of, matches_at, occurs_at};

verus! {

broadcast use vstd::string::group_string_axioms;

/// XML whitespace: space, tab, line feed, carriage return.
pub open spec fn is_xml_space(c: char) -> bool {
    c == ' ' || c == '\t' || c == '\n' || c == '\r'
}

/// A `d` attribute starts at position `k` of `s`: `d="` stands there, at
/// the start of the text or after whitespace, so that `d` is the
/// attribute's whole name.
pub open spec fn d_attr_at(s: Seq<char>, k: int) -> bool {
    &&& occurs_at(s, "d=\""@, k)
    &&& (k == 0 || (0 < k <= s.len() && is_xml_space(s[k - 1])))
}

/// The first position at or after `k` where a `d` attribute starts, or -1.
pub open spec fn find_d_attr_from(s: Seq<char>, k: int) -> int
    decreases s.len() + 1 - k,
{
    if k < 0 || k > s.len() {
        -1
    } else if d_attr_at(s, k) {
        k
    } else {
        find_d_attr_from(s, k + 1)
    }
}

/// The value of the first `d` attribute of an SVG document: the text after
/// its `d="` up to the next `"`.
pub open spec fn spec_path_d(svg: Seq<char>) -> Option<Seq<char>> {
    let k = find_d_attr_from(svg, 0);
    if k < 0 {
        None
    } else {
        let rest = svg.skip(k + 3);
        let e = find_char(rest, '"');
        if e < 0 {
            None
        } else {
            Some(rest.take(e))
        }
    }
}

proof fn lemma_find_d_attr_bounds(s: Seq<char>, k: int)
    requires
        0 <= k,
    ensures
        find_d_attr_from(s, k) == -1 || (k <= find_d_attr_from(s, k) <= s.len() && d_attr_at(
            s,
            find_d_attr_from(s, k),
        )),
    decreases s.len() + 1 - k,
{
    if k <= s.len() && !d_attr_at(s, k) {
        lemma_find_d_attr_bounds(s, k + 1);
    }
}

/// Whether a `d` attribute starts at position `k` of `v`.
fn d_attr_in(v: &Vec<char>, k: usize) -> (b: bool)
    requires
        k <= v.len(),
    ensures
        b == d_attr_at(v@, k as int),
{
    if !matches_at(v, k, "d=\"") {
        return false;
    }
    if k == 0 {
        return true;
    }
    let c = v[k - 1];
    c == ' ' || c == '\t' || c == '\n' || c == '\r'
}

/// The first position where a `d` attribute starts in `v`.
fn find_d_attr_in(v: &Vec<char>) -> (r: Option<usize>)
    ensures
        match r {
            Some(k) => find_d_attr_from(v@, 0) == k,
            None => find_d_attr_from(v@, 0) == -1,
        },
{
    let mut k: usize = 0;
    while k < v.len()
        invariant
            k <= v.len(),
            find_d_attr_from(v@, 0) == find_d_attr_from(v@, k as int),
        decreases v.len() - k,
    {
        if d_attr_in(v, k) {
            return Some(k);
        }
        k += 1;
    }
    if d_attr_in(v, k) {
        return Some(k);
    }
    assert(find_d_attr_from(v@, k + 1) == -1);
    None
}

/// Extracts the value of the first `d="..."` attribute (an attribute named
/// exactly `d`) from an SVG document.
pub fn extract_path_d(svg: &str) -> (r: Option<&str>)
    ensures
        match spec_path_d(svg@) {
            Some(d) => r matches Some(t) && t@ == d,
            None => r is None,
        },
{
    proof {
        reveal_strlit("d=\"");
    }
    let v = chars_of(svg);
    let k = match find_d_attr_in(&v) {
        Some(k) => k,
        None => {
            return None;
        },
    };
    proof {
        lemma_find_d_attr_bounds(v@, 0);
    }
    assert(occurs_at(v@, "d=\""@, k as int));
    let start = k + 3;
    match find_char_in(&v, start, v.len(), '"') {
        None => {
            assert(v@.subrange(start as int, v.len() as int) =~= v@.skip(start as int));
            None
        },
        Some(e) => {
            assert(v@.subrange(start as int, v.len() as int) =~= v@.skip(start as int));
            let t = svg.substring_char(start, e);
            assert(t@ =~= v@.skip(start as int).take(e - start));
            Some(t)
        },
    }
}

// ─────────────────────────────────────────────────────────────────
//  Path data tokens
// ─────────────────────────────────────────────────────────────────

/// A token of SVG path data: a command letter, or a number given by the
/// range `[lo, hi)` of character positions of its text.
#[derive(Clone, Copy, Debug, PartialEq, Eq, Structural)]
pub enum PathToken {
    Cmd(char),
    Num(usize, usize),
}

/// ASCII whitespace as `u8::is_ascii_whitespace` defines it, or a comma:
/// the characters that separate tokens.
pub open spec fn is_separator(c: char) -> bool {
    c == ' ' || c == '\t' || c == '\n' || c == '\x0C' || c == '\r' || c == ','
}

/// An ASCII letter.
pub open spec fn is_ascii_letter(c: char) -> bool {
    ('a' <= c <= 'z') || ('A' <= c <= 'Z')
}

/// An ASCII digit.
pub open spec fn is_ascii_digit(c: char) -> bool {
    '0' <= c <= '9'
}

/// A sign.
pub open spec fn is_sign(c: char) -> bool {
    c == '-' || c == '+'
}

/// The end of the run of digits of `s` that starts at `i`.
pub open spec fn digits_end(s: Seq<char>, i: int) -> int
    decreases s.len() - i,
{
    if i < 0 || i >= s.len() || !is_ascii_digit(s[i]) {
        i
    } else {
        digits_end(s, i + 1)
    }
}

/// The text of a number starting at `i`: an optional sign, digits, an
/// optional fraction and an optional exponent; its end, and whether the
/// text reads as an `f32` (the mantissa has a digit and an exponent has
/// one, as the grammar of `f32::from_str` asks).
pub open spec fn number_scan(s: Seq<char>, i: int) -> (int, bool) {
    let a = if i < s.len() && is_sign(s[i]) {
        i + 1
    } else {
        i
    };
    let b = digits_end(s, a);
    let c = if b < s.len() && s[b] == '.' {
        digits_end(s, b + 1)
    } else {
        b
    };
    let frac = if b < s.len() && s[b] == '.' {
        c - (b + 1)
    } else {
        0
    };
    let (e, exp_ok) = if c < s.len() && (s[c] == 'e' || s[c] == 'E') {
        let c1 = c + 1;
        let c2 = if c1 < s.len() && is_sign(s[c1]) {
            c1 + 1
        } else {
            c1
        };
        (digits_end(s, c2), digits_end(s, c2) > c2)
    } else {
        (c, true)
    };
    (e, (b - a) + frac > 0 && exp_ok)
}

/// The tokens of `s` from position `i`: separators are skipped, a letter
/// is a command, a number that reads is a number; anything else is skipped
/// together with the character after it.
pub open spec fn path_tokens_from(s: Seq<char>, i: int) -> Seq<PathToken>
    decreases s.len() - i,
{
    if i < 0 || i >= s.len() {
        seq![]
    } else if is_separator(s[i]) {
        path_tokens_from(s, i + 1)
    } else if is_ascii_letter(s[i]) {
        seq![PathToken::Cmd(s[i])] + path_tokens_from(s, i + 1)
    } else {
        let (e, ok) = number_scan(s, i);
        if i < e <= s.len() && ok {
            seq![PathToken::Num(i as usize, e as usize)] + path_tokens_from(s, e)
        } else {
            path_tokens_from(s, if i <= e < s.len() {
                e + 1
            } else {
                s.len() as int
            })
        }
    }
}

/// The tokens of SVG path data `d`.
pub open spec fn spec_path_tokens(d: Seq<char>) -> Seq<PathToken> {
    path_tokens_from(d, 0)
}

proof fn lemma_digits_end(s: Seq<char>, i: int)
    requires
        0 <= i <= s.len(),
    ensures
        i <= digits_end(s, i) <= s.len(),
    decreases s.len() - i,
{
    if i < s.len() && is_ascii_digit(s[i]) {
        lemma_digits_end(s, i + 1);
    }
}

/// The end of the run of digits of `v` that starts at `i`.
fn digits_end_in(v: &Vec<char>, i: usize) -> (e: usize)
    requires
        i <= v.len(),
    ensures
        e == digits_end(v@, i as int),
        i <= e <= v.len(),
{
    let mut j = i;
    while j < v.len() && '0' <= v[j] && v[j] <= '9'
        invariant
            i <= j <= v.len(),
            digits_end(v@, i as int) == digits_end(v@, j as int),
        decreases v.len() - j,
    {
        j += 1;
    }
    j
}

/// The end of the number text at `i` in `v` and whether it reads.
fn number_scan_in(v: &Vec<char>, i: usize) -> (r: (usize, bool))
    requires
        i < v.len(),
    ensures
        r.0 as int == number_scan(v@, i as int).0,
        r.1 == number_scan(v@, i as int).1,
        i <= r.0 <= v.len(),
{
    let n = v.len();
    let a = if v[i] == '-' || v[i] == '+' {
        i + 1
    } else {
        i
    };
    let b = digits_end_in(v, a);
    let dot = b < n && v[b] == '.';
    let c = if dot {
        digits_end_in(v, b + 1)
    } else {
        b
    };
    let frac = if dot {
        c - (b + 1)
    } else {
        0
    };
    let (e, exp_ok) = if c < n && (v[c] == 'e' || v[c] == 'E') {
        let c1 = c + 1;
        let c2 = if c1 < n && (v[c1] == '-' || v[c1] == '+') {
            c1 + 1
        } else {
            c1
        };
        let c3 = digits_end_in(v, c2);
        (c3, c3 > c2)
    } else {
        (c, true)
    };
    (e, (b - a) + frac > 0 && exp_ok)
}

/// The tokens of SVG path data `d`.
pub fn tokenize_path(d: &str) -> (r: Vec<PathToken>)
    ensures
        r@ == spec_path_tokens(d@),
{
    let v = chars_of(d);
    let mut out: Vec<PathToken> = Vec::new();
    let mut i: usize = 0;
    while i < v.len()
        invariant
            i <= v.len(),
            v@ == d@,
            out@ + path_tokens_from(v@, i as int) == spec_path_tokens(d@),
        decreases v.len() - i,
    {
        let c = v[i];
        if c == ' ' || c == '\t' || c == '\n' || c == '\x0C' || c == '\r' || c == ',' {
            i += 1;
        } else if ('a' <= c && c <= 'z') || ('A' <= c && c <= 'Z') {
            let ghost prev = out@;
            out.push(PathToken::Cmd(c));
            assert(out@ + path_tokens_from(v@, i + 1) =~= prev + path_tokens_from(v@, i as int));
            i += 1;
        } else {
            let (e, ok) = number_scan_in(&v, i);
            if e > i && ok {
                let ghost prev = out@;
                out.push(PathToken::Num(i, e));
                assert(out@ + path_tokens_from(v@, e as int) =~= prev + path_tokens_from(
                    v@,
                    i as int,
                ));
                i = e;
            } else if e < v.len() {
                i = e + 1;
            } else {
                i = v.len();
            }
        }
    }
    assert(path_tokens_from(v@, i as int) =~= Seq::<PathToken>::empty());
    assert(out@ =~= out@ + Seq::<PathToken>::empty());
    out
}


// ─────────────────────────────────────────────────────────────────
//  Path commands
// ─────────────────────────────────────────────────────────────────

/// A drawing step of SVG path data; its numbers are given by the positions
/// of their tokens, and `rel` marks the relative (lower-case) form.
#[derive(Clone, Copy, Debug, PartialEq, Eq, Structural)]
pub enum PathOp {
    MoveTo { rel: bool, x: usize, y: usize },
    LineTo { rel: bool, x: usize, y: usize },
    Horizontal { rel: bool, x: usize },
    Vertical { rel: bool, y: usize },
    Cubic { rel: bool, x1: usize, y1: usize, x2: usize, y2: usize, x: usize, y: usize },
    Close,
}

/// The `k` tokens from position `j` are all numbers.
pub open spec fn numbers_at(toks: Seq<PathToken>, j: int, k: int) -> bool {
    &&& 0 <= j
    &&& j + k <= toks.len()
    &&& forall|t: int| j <= t < j + k ==> (#[trigger] toks[t]) is Num
}

/// The command a number repeats after command `last`: a move repeats as a
/// line, any other command as itself.
pub open spec fn implicit_command(last: char) -> char {
    if last == 'M' {
        'L'
    } else if last == 'm' {
        'l'
    } else {
        last
    }
}

/// `op` followed by `rest`, where the rest ends.
pub open spec fn then_op(op: PathOp, rest: Option<Seq<PathOp>>) -> Option<Seq<PathOp>> {
    match rest {
        Some(r) => Some(seq![op] + r),
        None => None,
    }
}

/// The steps of the tokens from position `i`, after command `last`: a
/// command letter starts a step, a number repeats the last command. A step
/// whose numbers run out, or an unsupported command, ends the path. A
/// close command repeated by a number never ends: `None`.
pub open spec fn ops_from(toks: Seq<PathToken>, i: int, last: char) -> Option<Seq<PathOp>>
    decreases toks.len() - i,
{
    if i < 0 || i >= toks.len() {
        Some(seq![])
    } else {
        let cmd = match toks[i] {
            PathToken::Cmd(c) => c,
            PathToken::Num(_, _) => implicit_command(last),
        };
        let j = match toks[i] {
            PathToken::Cmd(_) => i + 1,
            PathToken::Num(_, _) => i,
        };
        if cmd == 'M' || cmd == 'm' {
            if numbers_at(toks, j, 2) {
                then_op(
                    PathOp::MoveTo { rel: cmd == 'm', x: j as usize, y: (j + 1) as usize },
                    ops_from(toks, j + 2, cmd),
                )
            } else {
                Some(seq![])
            }
        } else if cmd == 'L' || cmd == 'l' {
            if numbers_at(toks, j, 2) {
                then_op(
                    PathOp::LineTo { rel: cmd == 'l', x: j as usize, y: (j + 1) as usize },
                    ops_from(toks, j + 2, cmd),
                )
            } else {
                Some(seq![])
            }
        } else if cmd == 'H' || cmd == 'h' {
            if numbers_at(toks, j, 1) {
                then_op(PathOp::Horizontal { rel: cmd == 'h', x: j as usize }, ops_from(toks, j + 1, cmd))
            } else {
                Some(seq![])
            }
        } else if cmd == 'V' || cmd == 'v' {
            if numbers_at(toks, j, 1) {
                then_op(PathOp::Vertical { rel: cmd == 'v', y: j as usize }, ops_from(toks, j + 1, cmd))
            } else {
                Some(seq![])
            }
        } else if cmd == 'C' || cmd == 'c' {
            if numbers_at(toks, j, 6) {
                then_op(
                    PathOp::Cubic {
                        rel: cmd == 'c',
                        x1: j as usize,
                        y1: (j + 1) as usize,
                        x2: (j + 2) as usize,
                        y2: (j + 3) as usize,
                        x: (j + 4) as usize,
                        y: (j + 5) as usize,
                    },
                    ops_from(toks, j + 6, cmd),
                )
            } else {
                Some(seq![])
            }
        } else if cmd == 'Z' || cmd == 'z' {
            if j > i {
                then_op(PathOp::Close, ops_from(toks, j, cmd))
            } else {
                None
            }
        } else {
            Some(seq![])
        }
    }
}

/// The drawing steps of path tokens, or `None` where reading them never
/// ends.
pub open spec fn spec_path_ops(toks: Seq<PathToken>) -> Option<Seq<PathOp>> {
    ops_from(toks, 0, ' ')
}

/// Whether the `k` tokens from position `j` are all numbers.
fn numbers_at_in(toks: &Vec<PathToken>, j: usize, k: usize) -> (b: bool)
    requires
        k <= 6,
    ensures
        b == numbers_at(toks@, j as int, k as int),
{
    if j > toks.len() || k > toks.len() - j {
        return false;
    }
    let mut t = j;
    while t < j + k
        invariant
            j <= t <= j + k <= toks.len(),
            forall|u: int| j <= u < t ==> (#[trigger] toks@[u]) is Num,
        decreases j + k - t,
    {
        match toks[t] {
            PathToken::Num(_, _) => {},
            PathToken::Cmd(_) => {
                return false;
            },
        }
        t += 1;
    }
    true
}

/// The steps so far followed by the steps that remain, where they end.
pub open spec fn ops_after(done: Seq<PathOp>, rest: Option<Seq<PathOp>>) -> Option<Seq<PathOp>> {
    match rest {
        Some(r) => Some(done + r),
        None => None,
    }
}

/// The drawing steps of path tokens; `None` where reading them never ends
/// (a close command repeated by a number).
pub fn path_ops(toks: &Vec<PathToken>) -> (r: Option<Vec<PathOp>>)
    ensures
        match spec_path_ops(toks@) {
            Some(ops) => r matches Some(v) && v@ == ops,
            None => r is None,
        },
{
    let mut out: Vec<PathOp> = Vec::new();
    let mut i: usize = 0;
    let mut last: char = ' ';
    assert(ops_after(out@, ops_from(toks@, 0, ' ')) =~= spec_path_ops(toks@)) by {
        assert(out@ =~= Seq::<PathOp>::empty());
        match ops_from(toks@, 0, ' ') {
            Some(r) => assert(out@ + r =~= r),
            None => {},
        }
    }
    while i < toks.len()
        invariant
            i <= toks.len(),
            ops_after(out@, ops_from(toks@, i as int, last)) == spec_path_ops(toks@),
        ensures
            spec_path_ops(toks@) == Some(out@),
        decreases toks.len() - i,
    {
        let ghost before = out@;
        let (cmd, j) = match toks[i] {
            PathToken::Cmd(c) => (c, i + 1),
            PathToken::Num(_, _) => (
                if last == 'M' {
                    'L'
                } else if last == 'm' {
                    'l'
                } else {
                    last
                },
                i,
            ),
        };
        let step: Option<(PathOp, usize)> = if cmd == 'M' || cmd == 'm' {
            if numbers_at_in(toks, j, 2) {
                Some((PathOp::MoveTo { rel: cmd == 'm', x: j, y: j + 1 }, 2))
            } else {
                None
            }
        } else if cmd == 'L' || cmd == 'l' {
            if numbers_at_in(toks, j, 2) {
                Some((PathOp::LineTo { rel: cmd == 'l', x: j, y: j + 1 }, 2))
            } else {
                None
            }
        } else if cmd == 'H' || cmd == 'h' {
            if numbers_at_in(toks, j, 1) {
                Some((PathOp::Horizontal { rel: cmd == 'h', x: j }, 1))
            } else {
                None
            }
        } else if cmd == 'V' || cmd == 'v' {
            if numbers_at_in(toks, j, 1) {
                Some((PathOp::Vertical { rel: cmd == 'v', y: j }, 1))
            } else {
                None
            }
        } else if cmd == 'C' || cmd == 'c' {
            if numbers_at_in(toks, j, 6) {
                Some(
                    (
                        PathOp::Cubic {
                            rel: cmd == 'c',
                            x1: j,
                            y1: j + 1,
                            x2: j + 2,
                            y2: j + 3,
                            x: j + 4,
                            y: j + 5,
                        },
                        6,
                    ),
                )
            } else {
                None
            }
        } else if cmd == 'Z' || cmd == 'z' {
            if j == i {
                return None;
            }
            Some((PathOp::Close, 0))
        } else {
            None
        };
        let (op, k) = match step {
            Some(st) => st,
            None => {
                assert(out@ + Seq::<PathOp>::empty() =~= out@);
                break;
            },
        };
        out.push(op);
        proof {
            match ops_from(toks@, (j + k) as int, cmd) {
                Some(r) => {
                    assert(out@ + r =~= before + (seq![op] + r));
                },
                None => {},
            }
        }
        i = j + k;
        last = cmd;
        if i >= toks.len() {
            assert(out@ + Seq::<PathOp>::empty() =~= out@);
        }
    }
    Some(out)
}

/// The drawing steps of SVG path data `d`, with its tokens; `None` where
/// reading the steps never ends.
pub fn parse_path_ops(d: &str) -> (r: (Vec<PathToken>, Option<Vec<PathOp>>))
    ensures
        r.0@ == spec_path_tokens(d@),
        match spec_path_ops(r.0@) {
            Some(ops) => r.1 matches Some(v) && v@ == ops,
            None => r.1 is None,
        },
{
    let toks = tokenize_path(d);
    let ops = path_ops(&toks);
    (toks, ops)
}

// ─────────────────────────────────────────────────────────────────
//  Subpaths
// ─────────────────────────────────────────────────────────────────

/// The subpaths so far, with the one in progress added where it has a step.
pub open spec fn flush_subpath(done: Seq<Seq<int>>, cur: Seq<int>) -> Seq<Seq<int>> {
    if cur.len() > 0 {
        done.push(cur)
    } else {
        done
    }
}

/// After the first `i` steps: the finished subpaths, and the one in
/// progress, each as the positions of its drawing steps. A move finishes
/// the subpath in progress and starts another at itself; a close finishes
/// it; any other step joins it.
pub open spec fn subpath_scan(ops: Seq<PathOp>, i: int) -> (Seq<Seq<int>>, Seq<int>)
    decreases i,
{
    if i <= 0 {
        (seq![], seq![])
    } else {
        let s = subpath_scan(ops, i - 1);
        match ops[i - 1] {
            PathOp::MoveTo { .. } => (flush_subpath(s.0, s.1), seq![i - 1]),
            PathOp::Close => (flush_subpath(s.0, s.1), seq![]),
            _ => (s.0, s.1.push(i - 1)),
        }
    }
}

/// The subpaths of a sequence of steps, each as the positions of its
/// drawing steps; the one in progress at the end is kept.
pub open spec fn spec_subpaths(ops: Seq<PathOp>) -> Seq<Seq<int>> {
    let s = subpath_scan(ops, ops.len() as int);
    flush_subpath(s.0, s.1)
}

/// The positions, in order, of the steps among the first `i` that draw
/// (all but the closes).
pub open spec fn drawing_steps(ops: Seq<PathOp>, i: int) -> Seq<int>
    decreases i,
{
    if i <= 0 {
        seq![]
    } else if ops[i - 1] is Close {
        drawing_steps(ops, i - 1)
    } else {
        drawing_steps(ops, i - 1).push(i - 1)
    }
}

/// The subpaths one after another.
pub open spec fn concat_subpaths(ss: Seq<Seq<int>>) -> Seq<int>
    decreases ss.len(),
{
    if ss.len() == 0 {
        seq![]
    } else {
        concat_subpaths(ss.drop_last()) + ss.last()
    }
}

/// The positions form a run of consecutive steps.
pub open spec fn is_run(s: Seq<int>) -> bool {
    forall|j: int| 0 <= j < s.len() ==> #[trigger] s[j] == s[0] + j
}

/// Only the first step of the subpath may be a move.
pub open spec fn moves_only_first(ops: Seq<PathOp>, s: Seq<int>) -> bool {
    forall|j: int| 0 < j < s.len() ==> !(ops[#[trigger] s[j]] is MoveTo)
}

/// A subpath ending at step `a` and the next one starting at step `b` are
/// apart because `b` is a move or a close stands between them.
pub open spec fn split_between(ops: Seq<PathOp>, a: int, b: int) -> bool {
    ops[b] is MoveTo || exists|t: int| a < t < b && #[trigger] ops[t] is Close
}

proof fn lemma_concat_push(ss: Seq<Seq<int>>, s: Seq<int>)
    ensures
        concat_subpaths(ss.push(s)) == concat_subpaths(ss) + s,
{
    assert(ss.push(s).drop_last() =~= ss);
}

proof fn lemma_concat_flush(ss: Seq<Seq<int>>, s: Seq<int>)
    ensures
        concat_subpaths(flush_subpath(ss, s)) == concat_subpaths(ss) + s,
{
    if s.len() > 0 {
        lemma_concat_push(ss, s);
    } else {
        assert(concat_subpaths(ss) + s =~= concat_subpaths(ss));
    }
}

/// What holds of the subpaths after the first `i` steps.
proof fn lemma_subpath_scan(ops: Seq<PathOp>, i: int)
    requires
        0 <= i <= ops.len(),
    ensures
        ({
            let (d, c) = subpath_scan(ops, i);
            &&& forall|k: int|
                0 <= k < d.len() ==> (#[trigger] d[k]).len() > 0 && is_run(d[k])
                    && moves_only_first(ops, d[k])
            &&& forall|k: int|
                0 < k < d.len() ==> split_between(ops, d[k - 1].last(), (#[trigger] d[k])[0])
            &&& is_run(c) && moves_only_first(ops, c)
            &&& c.len() > 0 ==> c.last() == i - 1
            &&& c.len() > 0 && d.len() > 0 ==> split_between(ops, d.last().last(), c[0])
            &&& c.len() == 0 && d.len() > 0 ==> exists|t: int|
                d.last().last() < t < i && #[trigger] ops[t] is Close
            &&& d.len() > 0 ==> d.last().last() < i
            &&& concat_subpaths(d) + c == drawing_steps(ops, i)
        }),
    decreases i,
{
    if i > 0 {
        lemma_subpath_scan(ops, i - 1);
        let (d, c) = subpath_scan(ops, i - 1);
        let p = i - 1;
        lemma_concat_flush(d, c);
        match ops[p] {
            PathOp::MoveTo { .. } => {
                let d2 = flush_subpath(d, c);
                assert(concat_subpaths(d2) + seq![p] =~= drawing_steps(ops, i));
                assert forall|k: int| 0 < k < d2.len() implies split_between(
                    ops,
                    d2[k - 1].last(),
                    (#[trigger] d2[k])[0],
                ) by {
                    if k == d.len() {
                        assert(d2[k] == c);
                    }
                };
            },
            PathOp::Close => {
                let d2 = flush_subpath(d, c);
                assert(concat_subpaths(d2) + seq![] =~= drawing_steps(ops, i));
                assert forall|k: int| 0 < k < d2.len() implies split_between(
                    ops,
                    d2[k - 1].last(),
                    (#[trigger] d2[k])[0],
                ) by {
                    if k == d.len() {
                        assert(d2[k] == c);
                    }
                };
                if d2.len() > 0 {
                    assert(d2.last().last() < p);
                    assert(ops[p] is Close);
                }
            },
            _ => {
                let c2 = c.push(p);
                assert(concat_subpaths(d) + c2 =~= drawing_steps(ops, i));
                assert(is_run(c2)) by {
                    assert forall|j: int| 0 <= j < c2.len() implies #[trigger] c2[j] == c2[0] + j by {
                        if j < c.len() {
                            assert(c2[j] == c[j]);
                        } else if c.len() > 0 {
                            assert(c[c.len() - 1] == c[0] + c.len() - 1);
                        }
                    };
                };
                assert(moves_only_first(ops, c2)) by {
                    assert forall|j: int| 0 < j < c2.len() implies !(ops[#[trigger] c2[j]] is MoveTo) by {
                        if j < c.len() {
                            assert(c2[j] == c[j]);
                        }
                    };
                };
                if c.len() == 0 && d.len() > 0 {
                    let t = choose|t: int| d.last().last() < t < i - 1 && #[trigger] ops[t] is Close;
                    assert(split_between(ops, d.last().last(), c2[0]));
                }
            },
        }
    }
}

/// Every subpath has a step, and the subpaths together are the drawing
/// steps in order, none dropped, the one in progress at the end included.
/// Within a subpath the steps are consecutive and only the first may be a
/// move; two subpaths are apart only where a move starts the second or a
/// close stands between them.
pub proof fn lemma_subpaths_cover_drawing(ops: Seq<PathOp>)
    ensures
        ({
            let ss = spec_subpaths(ops);
            &&& forall|k: int|
                0 <= k < ss.len() ==> (#[trigger] ss[k]).len() > 0 && is_run(ss[k])
                    && moves_only_first(ops, ss[k])
            &&& forall|k: int|
                0 < k < ss.len() ==> split_between(ops, ss[k - 1].last(), (#[trigger] ss[k])[0])
            &&& concat_subpaths(ss) == drawing_steps(ops, ops.len() as int)
        }),
{
    let n = ops.len() as int;
    lemma_subpath_scan(ops, n);
    let (d, c) = subpath_scan(ops, n);
    lemma_concat_flush(d, c);
    let ss = flush_subpath(d, c);
    assert forall|k: int| 0 < k < ss.len() implies split_between(
        ops,
        ss[k - 1].last(),
        (#[trigger] ss[k])[0],
    ) by {
        if k == d.len() {
            assert(ss[k] == c);
        }
    };
}

/// The positions read as integers.
pub open spec fn positions_view(v: Seq<usize>) -> Seq<int> {
    v.map_values(|x: usize| x as int)
}

/// The subpaths read as integers.
pub open spec fn subpaths_view(v: Seq<Vec<usize>>) -> Seq<Seq<int>> {
    v.map_values(|w: Vec<usize>| positions_view(w@))
}

/// The subpaths of the drawing steps `ops`, each as the positions of its
/// steps: a move starts a subpath, a close ends one, and the subpath in
/// progress when the steps end is kept.
pub fn subpath_plan(ops: &Vec<PathOp>) -> (r: Vec<Vec<usize>>)
    ensures
        subpaths_view(r@) == spec_subpaths(ops@),
{
    let mut done: Vec<Vec<usize>> = Vec::new();
    let mut cur: Vec<usize> = Vec::new();
    let mut i: usize = 0;
    assert(subpaths_view(done@) =~= seq![]);
    assert(positions_view(cur@) =~= seq![]);
    while i < ops.len()
        invariant
            i <= ops.len(),
            subpaths_view(done@) == subpath_scan(ops@, i as int).0,
            positions_view(cur@) == subpath_scan(ops@, i as int).1,
        decreases ops.len() - i,
    {
        let ghost d0 = done@;
        let ghost c0 = cur@;
        match ops[i] {
            PathOp::MoveTo { .. } => {
                if cur.len() > 0 {
                    done.push(cur);
                    assert(subpaths_view(done@) =~= subpaths_view(d0).push(positions_view(c0)));
                }
                cur = Vec::new();
                cur.push(i);
                assert(positions_view(cur@) =~= seq![i as int]);
            },
            PathOp::Close => {
                if cur.len() > 0 {
                    done.push(cur);
                    assert(subpaths_view(done@) =~= subpaths_view(d0).push(positions_view(c0)));
                }
                cur = Vec::new();
                assert(positions_view(cur@) =~= seq![]);
            },
            _ => {
                cur.push(i);
                assert(positions_view(cur@) =~= positions_view(c0).push(i as int));
            },
        }
        i += 1;
    }
    if cur.len() > 0 {
        let ghost d0 = done@;
        let ghost c0 = cur@;
        done.push(cur);
        assert(subpaths_view(done@) =~= subpaths_view(d0).push(positions_view(c0)));
    }
    done
}

} // verus!
