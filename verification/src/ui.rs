//! The decisions of the user interface: the status line, the input modes
//! and the keys each of them takes, the list pickers, the toolbar's
//! buttons, and the messages shown for each step. The window, drawing and
//! the work each step starts stay with the application.

use vstd::prelude::*;

use crate::git_model::{GroupedGitViewMeta, GroupedStatusSection};
use crate::models::{FocusPane, ToolbarAction, ToolbarGroup};
use crate::theme::{byte_boundary, byte_boundary_of, lemma_boundary_in_range};
use crate::text::{
    chars_of, compact_text, copy_str, decimal, push_decimal, push_str_chars, slice_chars, spec_compact,
    same_text, string_of, trim, trim_str, trimmed,
};

verus! {

broadcast use vstd::string::group_string_axioms;

// ─────────────────────────────────────────────────────────────────
//  Status line
// ─────────────────────────────────────────────────────────────────

/// The kind of message on the status line.
#[derive(Clone, Copy, Debug, PartialEq, Eq, Structural)]
pub enum StatusKind {
    Neutral,
    Success,
    Error,
    Prompt,
}

/// The status line: its kind and message.
#[derive(Clone, Debug)]
pub struct AppStatus {
    pub kind: StatusKind,
    pub message: String,
}

impl AppStatus {
    /// A status line of the given kind and message.
    pub fn new(kind: StatusKind, message: String) -> (s: Self)
        ensures
            s.kind == kind,
            s.message == message,
    {
        AppStatus { kind, message }
    }
}

/// `text` on one line in at most `max_chars` characters: runs of
/// whitespace become single spaces, and a longer text is cut, ending in
/// `...` where there is room for it.
pub fn compact_status_message(text: &str, max_chars: usize) -> (r: String)
    ensures
        r@ == spec_compact(text@, max_chars as nat),
        r@.len() <= max_chars,
{
    compact_text(text, max_chars)
}

/// The length a status message is compacted to.
pub const STATUS_MAX_CHARS: usize = 180;

/// The status line for a message: compacted to `STATUS_MAX_CHARS`
/// characters.
pub fn status_line(kind: StatusKind, message: &str) -> (s: AppStatus)
    ensures
        s.kind == kind,
        s.message@ == spec_compact(message@, STATUS_MAX_CHARS as nat),
{
    AppStatus::new(kind, compact_status_message(message, STATUS_MAX_CHARS))
}

// ─────────────────────────────────────────────────────────────────
//  Input modes and keys
// ─────────────────────────────────────────────────────────────────

/// What the keyboard currently edits or picks.
#[derive(Clone, Copy, Debug, PartialEq, Eq, Structural)]
pub enum InputMode {
    Normal,
    CommitSummary,
    CommitBody,
    RepoPicker,
    DiscardConfirm,
    FolderBrowser,
    BranchSwitcher,
}

/// A key press, as far as the interface tells keys apart.
#[derive(Clone, Debug)]
pub enum KeyInput {
    Escape,
    Enter,
    Tab,
    Backspace,
    ArrowUp,
    ArrowDown,
    PageUp,
    PageDown,
    Home,
    End,
    /// A key that produces text.
    Character(String),
    /// Any other key.
    Other,
}

/// `s` is `t` up to ASCII case.
pub open spec fn eq_ignore_ascii_case(s: Seq<char>, t: Seq<char>) -> bool {
    s.len() == t.len() && forall|i: int| 0 <= i < s.len() ==> lower_ascii(#[trigger] s[i]) == lower_ascii(
        t[i],
    )
}

/// `c` in lower case when it is an ASCII capital letter.
pub open spec fn lower_ascii(c: char) -> char {
    if 'A' <= c <= 'Z' {
        ((c as u32) + 32) as char
    } else {
        c
    }
}

/// Whether `s` is `t` up to ASCII case.
pub fn eq_ascii_case(s: &str, t: &str) -> (r: bool)
    ensures
        r == eq_ignore_ascii_case(s@, t@),
{
    let a = chars_of(s);
    let b = chars_of(t);
    if a.len() != b.len() {
        return false;
    }
    let mut i: usize = 0;
    while i < a.len()
        invariant
            i <= a.len() == b.len(),
            a@ == s@,
            b@ == t@,
            forall|j: int| 0 <= j < i ==> lower_ascii(#[trigger] a@[j]) == lower_ascii(b@[j]),
        decreases a.len() - i,
    {
        let x = if 'A' <= a[i] && a[i] <= 'Z' {
            ((a[i] as u8) + 32) as char
        } else {
            a[i]
        };
        let y = if 'A' <= b[i] && b[i] <= 'Z' {
            ((b[i] as u8) + 32) as char
        } else {
            b[i]
        };
        if x != y {
            return false;
        }
        i += 1;
    }
    true
}

/// What a key does in normal mode.
#[derive(Clone, Copy, Debug, PartialEq, Eq, Structural)]
pub enum KeyEffect {
    /// The key does nothing.
    Ignored,
    /// Quit the application.
    Quit,
    /// Move the focus to the other pane.
    ToggleFocus,
    /// Focus the given pane.
    Focus(FocusPane),
    /// Move the file selection by this many rows.
    MoveSelection(isize),
    /// Scroll the diff by three lines, down when `true`.
    ScrollDiff(bool),
    /// Scroll the focused pane by a page, down when `true`.
    ScrollPage(FocusPane, bool),
    /// Run a toolbar action.
    Toolbar(ToolbarAction),
}

/// The effect of moving down (`down`) or up in the focused pane: the file
/// selection moves, the diff scrolls.
pub open spec fn move_effect(focus: FocusPane, down: bool) -> KeyEffect {
    match focus {
        FocusPane::Files => KeyEffect::MoveSelection(if down {
            1isize
        } else {
            -1isize
        }),
        FocusPane::Diff => KeyEffect::ScrollDiff(down),
    }
}

/// The toolbar action of a shifted letter: `P` push, `U` unstage all, `A`
/// stage all, `X` discard, `B` branch switcher.
pub open spec fn shifted_action(raw: Seq<char>) -> Option<ToolbarAction> {
    if raw == "P"@ {
        Some(ToolbarAction::Push)
    } else if raw == "U"@ {
        Some(ToolbarAction::UnstageAll)
    } else if raw == "A"@ {
        Some(ToolbarAction::StageAll)
    } else if raw == "X"@ {
        Some(ToolbarAction::Discard)
    } else if raw == "B"@ {
        Some(ToolbarAction::BranchSwitch)
    } else {
        None
    }
}

/// The effect of a letter in either case: `h`/`l` focus a pane, `j`/`k`
/// move down and up, `o` repositories, `b` browse, `r` refresh, `s`
/// stage, `u` unstage, `c` commit, `a` stage all, `f` fetch, `p` pull,
/// `x` discard.
pub open spec fn letter_effect(c: Seq<char>, focus: FocusPane) -> KeyEffect {
    if c == "h"@ {
        KeyEffect::Focus(FocusPane::Files)
    } else if c == "l"@ {
        KeyEffect::Focus(FocusPane::Diff)
    } else if c == "o"@ {
        KeyEffect::Toolbar(ToolbarAction::RepoSwitch)
    } else if c == "b"@ {
        KeyEffect::Toolbar(ToolbarAction::Browse)
    } else if c == "j"@ {
        move_effect(focus, true)
    } else if c == "k"@ {
        move_effect(focus, false)
    } else if c == "r"@ {
        KeyEffect::Toolbar(ToolbarAction::Refresh)
    } else if c == "s"@ {
        KeyEffect::Toolbar(ToolbarAction::Stage)
    } else if c == "u"@ {
        KeyEffect::Toolbar(ToolbarAction::Unstage)
    } else if c == "c"@ {
        KeyEffect::Toolbar(ToolbarAction::Commit)
    } else if c == "a"@ {
        KeyEffect::Toolbar(ToolbarAction::StageAll)
    } else if c == "f"@ {
        KeyEffect::Toolbar(ToolbarAction::Fetch)
    } else if c == "p"@ {
        KeyEffect::Toolbar(ToolbarAction::Pull)
    } else if c == "x"@ {
        KeyEffect::Toolbar(ToolbarAction::Discard)
    } else {
        KeyEffect::Ignored
    }
}

/// What a key does in normal mode with `focus` focused: `q` in any case
/// quits; Tab switches panes; the arrows (and `j`/`k`) move the selection
/// in the file list or scroll the diff; the page keys scroll the focused
/// pane; the shifted letters, then the letters in either case, run their
/// actions.
pub open spec fn spec_normal_key(key: KeyInput, focus: FocusPane) -> KeyEffect {
    match key {
        KeyInput::Tab => KeyEffect::ToggleFocus,
        KeyInput::ArrowUp => move_effect(focus, false),
        KeyInput::ArrowDown => move_effect(focus, true),
        KeyInput::PageUp => KeyEffect::ScrollPage(focus, false),
        KeyInput::PageDown => KeyEffect::ScrollPage(focus, true),
        KeyInput::Character(ch) => if eq_ignore_ascii_case(ch@, "q"@) {
            KeyEffect::Quit
        } else {
            match shifted_action(ch@) {
                Some(a) => KeyEffect::Toolbar(a),
                None => letter_effect(ascii_lowercase(ch@), focus),
            }
        },
        _ => KeyEffect::Ignored,
    }
}

/// `s` with ASCII letters in lower case.
pub open spec fn ascii_lowercase(s: Seq<char>) -> Seq<char> {
    s.map_values(|c: char| lower_ascii(c))
}

/// `s` with ASCII letters in lower case.
fn lowercase_ascii(s: &str) -> (r: Vec<char>)
    ensures
        r@ == ascii_lowercase(s@),
{
    let v = chars_of(s);
    let mut r: Vec<char> = Vec::new();
    let mut i: usize = 0;
    while i < v.len()
        invariant
            i <= v.len(),
            v@ == s@,
            r@ == ascii_lowercase(v@.take(i as int)),
        decreases v.len() - i,
    {
        let c = v[i];
        let l = if 'A' <= c && c <= 'Z' {
            ((c as u8) + 32) as char
        } else {
            c
        };
        r.push(l);
        i += 1;
        assert(r@ =~= ascii_lowercase(v@.take(i as int)));
    }
    assert(v@.take(v.len() as int) =~= v@);
    r
}

/// Whether `v` is exactly `s`.
fn is(v: &Vec<char>, s: &str) -> (b: bool)
    ensures
        b == (v@ == s@),
{
    let w = chars_of(s);
    if v.len() != w.len() {
        return false;
    }
    let mut i: usize = 0;
    while i < v.len()
        invariant
            i <= v.len() == w.len(),
            w@ == s@,
            forall|j: int| 0 <= j < i ==> v@[j] == w@[j],
        decreases v.len() - i,
    {
        if v[i] != w[i] {
            return false;
        }
        i += 1;
    }
    assert(v@ =~= w@);
    true
}

/// The effect of moving down or up in the focused pane.
fn move_in(focus: FocusPane, down: bool) -> (e: KeyEffect)
    ensures
        e == move_effect(focus, down),
{
    match focus {
        FocusPane::Files => KeyEffect::MoveSelection(if down {
            1
        } else {
            -1
        }),
        FocusPane::Diff => KeyEffect::ScrollDiff(down),
    }
}

/// A one-letter key in lower case.
proof fn lemma_lower_letter(ch: Seq<char>, c: char)
    requires
        ch == seq![c],
    ensures
        ascii_lowercase(ch) == seq![lower_ascii(c)],
        eq_ignore_ascii_case(ch, "q"@) <==> lower_ascii(c) == 'q',
{
    reveal_strlit("q");
    assert(ascii_lowercase(ch) =~= seq![lower_ascii(c)]);
    if lower_ascii(c) == 'q' {
        assert(eq_ignore_ascii_case(ch, "q"@));
    }
    if eq_ignore_ascii_case(ch, "q"@) {
        assert(lower_ascii(ch[0]) == lower_ascii("q"@[0]));
    }
}

/// The effect of the one-letter key `k`, spelled out.
proof fn lemma_one_key(ch: String, focus: FocusPane, k: char)
    requires
        ch@ == seq![k],
    ensures
        spec_normal_key(KeyInput::Character(ch), focus) == if lower_ascii(k) == 'q' {
            KeyEffect::Quit
        } else {
            match shifted_action(seq![k]) {
                Some(a) => KeyEffect::Toolbar(a),
                None => letter_effect(seq![lower_ascii(k)], focus),
            }
        },
{
    lemma_lower_letter(ch@, k);
}

/// In normal mode, whichever pane is focused, each letter key runs its own
/// action: `u` unstages the selected file while `U` unstages every change,
/// `s` and `S` stage the selected file while `A` (like `a`) stages every
/// change, `p` pulls while `P` pushes, `b` browses while `B` switches
/// branches, `x` and `X` discard, `c` commits, `f` fetches, `r` refreshes,
/// `o` opens the repository picker, `q` quits, `h` and `l` focus the file
/// list and the diff; case does not matter but for the shifted letters.
#[verifier::rlimit(40)]
pub proof fn lemma_letter_keys(ch: String, focus: FocusPane)
    ensures
        ch@ == "u"@ ==> spec_normal_key(KeyInput::Character(ch), focus) == KeyEffect::Toolbar(ToolbarAction::Unstage),
        ch@ == "U"@ ==> spec_normal_key(KeyInput::Character(ch), focus) == KeyEffect::Toolbar(ToolbarAction::UnstageAll),
        ch@ == "s"@ ==> spec_normal_key(KeyInput::Character(ch), focus) == KeyEffect::Toolbar(ToolbarAction::Stage),
        ch@ == "S"@ ==> spec_normal_key(KeyInput::Character(ch), focus) == KeyEffect::Toolbar(ToolbarAction::Stage),
        ch@ == "a"@ ==> spec_normal_key(KeyInput::Character(ch), focus) == KeyEffect::Toolbar(ToolbarAction::StageAll),
        ch@ == "A"@ ==> spec_normal_key(KeyInput::Character(ch), focus) == KeyEffect::Toolbar(ToolbarAction::StageAll),
        ch@ == "p"@ ==> spec_normal_key(KeyInput::Character(ch), focus) == KeyEffect::Toolbar(ToolbarAction::Pull),
        ch@ == "P"@ ==> spec_normal_key(KeyInput::Character(ch), focus) == KeyEffect::Toolbar(ToolbarAction::Push),
        ch@ == "b"@ ==> spec_normal_key(KeyInput::Character(ch), focus) == KeyEffect::Toolbar(ToolbarAction::Browse),
        ch@ == "B"@ ==> spec_normal_key(KeyInput::Character(ch), focus) == KeyEffect::Toolbar(ToolbarAction::BranchSwitch),
        ch@ == "x"@ ==> spec_normal_key(KeyInput::Character(ch), focus) == KeyEffect::Toolbar(ToolbarAction::Discard),
        ch@ == "X"@ ==> spec_normal_key(KeyInput::Character(ch), focus) == KeyEffect::Toolbar(ToolbarAction::Discard),
        ch@ == "c"@ || ch@ == "C"@ ==> spec_normal_key(KeyInput::Character(ch), focus) == KeyEffect::Toolbar(ToolbarAction::Commit),
        ch@ == "f"@ || ch@ == "F"@ ==> spec_normal_key(KeyInput::Character(ch), focus) == KeyEffect::Toolbar(ToolbarAction::Fetch),
        ch@ == "r"@ || ch@ == "R"@ ==> spec_normal_key(KeyInput::Character(ch), focus) == KeyEffect::Toolbar(ToolbarAction::Refresh),
        ch@ == "o"@ || ch@ == "O"@ ==> spec_normal_key(KeyInput::Character(ch), focus) == KeyEffect::Toolbar(ToolbarAction::RepoSwitch),
        ch@ == "q"@ || ch@ == "Q"@ ==> spec_normal_key(KeyInput::Character(ch), focus) == KeyEffect::Quit,
        ch@ == "h"@ || ch@ == "H"@ ==> spec_normal_key(KeyInput::Character(ch), focus) == KeyEffect::Focus(FocusPane::Files),
        ch@ == "l"@ || ch@ == "L"@ ==> spec_normal_key(KeyInput::Character(ch), focus) == KeyEffect::Focus(FocusPane::Diff),
{
    reveal_strlit("u");
    reveal_strlit("U");
    reveal_strlit("s");
    reveal_strlit("S");
    reveal_strlit("a");
    reveal_strlit("A");
    reveal_strlit("p");
    reveal_strlit("P");
    reveal_strlit("b");
    reveal_strlit("B");
    reveal_strlit("x");
    reveal_strlit("X");
    reveal_strlit("c");
    reveal_strlit("C");
    reveal_strlit("f");
    reveal_strlit("F");
    reveal_strlit("r");
    reveal_strlit("R");
    reveal_strlit("o");
    reveal_strlit("O");
    reveal_strlit("q");
    reveal_strlit("Q");
    reveal_strlit("h");
    reveal_strlit("H");
    reveal_strlit("l");
    reveal_strlit("L");
    reveal_strlit("j");
    reveal_strlit("k");
    assert("u"@[0] == 'u');
    assert("U"@[0] == 'U');
    assert("s"@[0] == 's');
    assert("S"@[0] == 'S');
    assert("a"@[0] == 'a');
    assert("A"@[0] == 'A');
    assert("p"@[0] == 'p');
    assert("P"@[0] == 'P');
    assert("b"@[0] == 'b');
    assert("B"@[0] == 'B');
    assert("x"@[0] == 'x');
    assert("X"@[0] == 'X');
    assert("c"@[0] == 'c');
    assert("C"@[0] == 'C');
    assert("f"@[0] == 'f');
    assert("F"@[0] == 'F');
    assert("r"@[0] == 'r');
    assert("R"@[0] == 'R');
    assert("o"@[0] == 'o');
    assert("O"@[0] == 'O');
    assert("q"@[0] == 'q');
    assert("Q"@[0] == 'Q');
    assert("h"@[0] == 'h');
    assert("H"@[0] == 'H');
    assert("l"@[0] == 'l');
    assert("L"@[0] == 'L');
    assert("j"@[0] == 'j');
    assert("k"@[0] == 'k');
    if ch@.len() == 1 {
        let c = ch@[0];
        assert(ch@ =~= seq![c]);
        lemma_lower_letter(ch@, c);
        if c == 'u' {
            lemma_one_key(ch, focus, 'u');
        }
        if c == 'U' {
            lemma_one_key(ch, focus, 'U');
            assert(lower_ascii('U') == 'u');
        }
        if c == 's' {
            lemma_one_key(ch, focus, 's');
        }
        if c == 'S' {
            lemma_one_key(ch, focus, 'S');
            assert(lower_ascii('S') == 's');
            assert(seq![lower_ascii('S')] =~= "s"@);
            assert(shifted_action(seq!['S']) is None);
        }
        if c == 'a' {
            lemma_one_key(ch, focus, 'a');
        }
        if c == 'A' {
            lemma_one_key(ch, focus, 'A');
            assert(lower_ascii('A') == 'a');
        }
        if c == 'p' {
            lemma_one_key(ch, focus, 'p');
        }
        if c == 'P' {
            lemma_one_key(ch, focus, 'P');
            assert(lower_ascii('P') == 'p');
        }
        if c == 'b' {
            lemma_one_key(ch, focus, 'b');
        }
        if c == 'B' {
            lemma_one_key(ch, focus, 'B');
            assert(lower_ascii('B') == 'b');
        }
        if c == 'x' {
            lemma_one_key(ch, focus, 'x');
        }
        if c == 'X' {
            lemma_one_key(ch, focus, 'X');
            assert(lower_ascii('X') == 'x');
        }
        if c == 'c' {
            lemma_one_key(ch, focus, 'c');
        }
        if c == 'C' {
            lemma_one_key(ch, focus, 'C');
            assert(lower_ascii('C') == 'c');
            assert(seq![lower_ascii('C')] =~= "c"@);
        }
        if c == 'f' {
            lemma_one_key(ch, focus, 'f');
        }
        if c == 'F' {
            lemma_one_key(ch, focus, 'F');
            assert(lower_ascii('F') == 'f');
            assert(seq![lower_ascii('F')] =~= "f"@);
        }
        if c == 'r' {
            lemma_one_key(ch, focus, 'r');
        }
        if c == 'R' {
            lemma_one_key(ch, focus, 'R');
            assert(lower_ascii('R') == 'r');
            assert(seq![lower_ascii('R')] =~= "r"@);
        }
        if c == 'o' {
            lemma_one_key(ch, focus, 'o');
        }
        if c == 'O' {
            lemma_one_key(ch, focus, 'O');
            assert(lower_ascii('O') == 'o');
            assert(seq![lower_ascii('O')] =~= "o"@);
        }
        if c == 'q' {
            lemma_one_key(ch, focus, 'q');
        }
        if c == 'Q' {
            lemma_one_key(ch, focus, 'Q');
            assert(lower_ascii('Q') == 'q');
            assert(seq![lower_ascii('Q')] =~= "q"@);
        }
        if c == 'h' {
            lemma_one_key(ch, focus, 'h');
        }
        if c == 'H' {
            lemma_one_key(ch, focus, 'H');
            assert(lower_ascii('H') == 'h');
            assert(seq![lower_ascii('H')] =~= "h"@);
        }
        if c == 'l' {
            lemma_one_key(ch, focus, 'l');
        }
        if c == 'L' {
            lemma_one_key(ch, focus, 'L');
            assert(lower_ascii('L') == 'l');
            assert(seq![lower_ascii('L')] =~= "l"@);
        }
    }
}

/// In normal mode the motion keys act on the focused pane: the down arrow
/// and `j` (either case) move the file selection one row down in the file
/// list and scroll the diff down in the diff pane; the up arrow and `k` do
/// the opposite; the page keys scroll the focused pane by a page; Tab
/// switches panes.
pub proof fn lemma_motion_keys(ch: String, focus: FocusPane)
    ensures
        (ch@ == "j"@ || ch@ == "J"@) && focus == FocusPane::Files ==> spec_normal_key(KeyInput::Character(ch), focus)
            == KeyEffect::MoveSelection(1isize),
        (ch@ == "j"@ || ch@ == "J"@) && focus == FocusPane::Diff ==> spec_normal_key(KeyInput::Character(ch), focus)
            == KeyEffect::ScrollDiff(true),
        (ch@ == "k"@ || ch@ == "K"@) && focus == FocusPane::Files ==> spec_normal_key(KeyInput::Character(ch), focus)
            == KeyEffect::MoveSelection(-1isize),
        (ch@ == "k"@ || ch@ == "K"@) && focus == FocusPane::Diff ==> spec_normal_key(KeyInput::Character(ch), focus)
            == KeyEffect::ScrollDiff(false),
        focus == FocusPane::Files ==> spec_normal_key(KeyInput::ArrowDown, focus) == KeyEffect::MoveSelection(1isize)
            && spec_normal_key(KeyInput::ArrowUp, focus) == KeyEffect::MoveSelection(-1isize),
        focus == FocusPane::Diff ==> spec_normal_key(KeyInput::ArrowDown, focus) == KeyEffect::ScrollDiff(true)
            && spec_normal_key(KeyInput::ArrowUp, focus) == KeyEffect::ScrollDiff(false),
        spec_normal_key(KeyInput::PageDown, focus) == KeyEffect::ScrollPage(focus, true),
        spec_normal_key(KeyInput::PageUp, focus) == KeyEffect::ScrollPage(focus, false),
        spec_normal_key(KeyInput::Tab, focus) == KeyEffect::ToggleFocus,
{
    reveal_strlit("j");
    reveal_strlit("J");
    reveal_strlit("k");
    reveal_strlit("K");
    reveal_strlit("h");
    reveal_strlit("l");
    reveal_strlit("o");
    reveal_strlit("b");
    reveal_strlit("e");
    reveal_strlit("r");
    reveal_strlit("s");
    reveal_strlit("c");
    reveal_strlit("a");
    reveal_strlit("f");
    reveal_strlit("p");
    reveal_strlit("x");
    reveal_strlit("u");
    reveal_strlit("P");
    reveal_strlit("U");
    reveal_strlit("A");
    reveal_strlit("X");
    reveal_strlit("B");
    assert("j"@[0] == 'j');
    assert("J"@[0] == 'J');
    assert("k"@[0] == 'k');
    assert("K"@[0] == 'K');
    assert("h"@[0] == 'h');
    assert("l"@[0] == 'l');
    assert("o"@[0] == 'o');
    assert("b"@[0] == 'b');
    assert("e"@[0] == 'e');
    assert("r"@[0] == 'r');
    assert("s"@[0] == 's');
    assert("c"@[0] == 'c');
    assert("a"@[0] == 'a');
    assert("f"@[0] == 'f');
    assert("p"@[0] == 'p');
    assert("x"@[0] == 'x');
    assert("u"@[0] == 'u');
    assert("P"@[0] == 'P');
    assert("U"@[0] == 'U');
    assert("A"@[0] == 'A');
    assert("X"@[0] == 'X');
    assert("B"@[0] == 'B');
    if ch@.len() == 1 {
        let c = ch@[0];
        assert(ch@ =~= seq![c]);
        lemma_lower_letter(ch@, c);
        if c == 'j' {
            lemma_one_key(ch, focus, 'j');
        }
        if c == 'J' {
            lemma_one_key(ch, focus, 'J');
            assert(lower_ascii('J') == 'j');
            assert(seq![lower_ascii('J')] =~= "j"@);
        }
        if c == 'k' {
            lemma_one_key(ch, focus, 'k');
        }
        if c == 'K' {
            lemma_one_key(ch, focus, 'K');
            assert(lower_ascii('K') == 'k');
            assert(seq![lower_ascii('K')] =~= "k"@);
        }
    }
}

/// What `key` does in normal mode with `focus` focused.
pub fn normal_key_effect(key: &KeyInput, focus: FocusPane) -> (e: KeyEffect)
    ensures
        e == spec_normal_key(*key, focus),
{
    match key {
        KeyInput::Tab => KeyEffect::ToggleFocus,
        KeyInput::ArrowUp => move_in(focus, false),
        KeyInput::ArrowDown => move_in(focus, true),
        KeyInput::PageUp => KeyEffect::ScrollPage(focus, false),
        KeyInput::PageDown => KeyEffect::ScrollPage(focus, true),
        KeyInput::Character(ch) => {
            let raw = ch.as_str();
            if eq_ascii_case(raw, "q") {
                return KeyEffect::Quit;
            }
            let v = chars_of(raw);
            if is(&v, "P") {
                return KeyEffect::Toolbar(ToolbarAction::Push);
            }
            if is(&v, "U") {
                return KeyEffect::Toolbar(ToolbarAction::UnstageAll);
            }
            if is(&v, "A") {
                return KeyEffect::Toolbar(ToolbarAction::StageAll);
            }
            if is(&v, "X") {
                return KeyEffect::Toolbar(ToolbarAction::Discard);
            }
            if is(&v, "B") {
                return KeyEffect::Toolbar(ToolbarAction::BranchSwitch);
            }
            let c = lowercase_ascii(raw);
            if is(&c, "h") {
                KeyEffect::Focus(FocusPane::Files)
            } else if is(&c, "l") {
                KeyEffect::Focus(FocusPane::Diff)
            } else if is(&c, "o") {
                KeyEffect::Toolbar(ToolbarAction::RepoSwitch)
            } else if is(&c, "b") {
                KeyEffect::Toolbar(ToolbarAction::Browse)
            } else if is(&c, "j") {
                move_in(focus, true)
            } else if is(&c, "k") {
                move_in(focus, false)
            } else if is(&c, "r") {
                KeyEffect::Toolbar(ToolbarAction::Refresh)
            } else if is(&c, "s") {
                KeyEffect::Toolbar(ToolbarAction::Stage)
            } else if is(&c, "u") {
                KeyEffect::Toolbar(ToolbarAction::Unstage)
            } else if is(&c, "c") {
                KeyEffect::Toolbar(ToolbarAction::Commit)
            } else if is(&c, "a") {
                KeyEffect::Toolbar(ToolbarAction::StageAll)
            } else if is(&c, "f") {
                KeyEffect::Toolbar(ToolbarAction::Fetch)
            } else if is(&c, "p") {
                KeyEffect::Toolbar(ToolbarAction::Pull)
            } else if is(&c, "x") {
                KeyEffect::Toolbar(ToolbarAction::Discard)
            } else {
                KeyEffect::Ignored
            }
        },
        _ => KeyEffect::Ignored,
    }
}


// ─────────────────────────────────────────────────────────────────
//  List pickers
// ─────────────────────────────────────────────────────────────────

/// The lists the interface picks from.
#[derive(Clone, Copy, Debug, PartialEq, Eq, Structural)]
pub enum PickerKind {
    Repos,
    Folders,
    Branches,
}

/// How many rows of a picker are shown: 8 folders, 6 repositories or
/// branches.
pub open spec fn spec_visible_rows(kind: PickerKind) -> nat {
    match kind {
        PickerKind::Folders => 8,
        _ => 6,
    }
}

/// How many rows of a picker are shown.
pub fn visible_rows(kind: PickerKind) -> (n: usize)
    ensures
        n == spec_visible_rows(kind),
{
    match kind {
        PickerKind::Folders => 8,
        _ => 6,
    }
}

/// The selected row of a list and the first row shown.
#[derive(Clone, Copy, Debug, PartialEq, Eq, Structural)]
pub struct ListPicker {
    pub index: usize,
    pub scroll: usize,
}

/// Selecting row `index` of a list of `len` rows, `visible` of them shown
/// from row `scroll`: the index is clamped to the last row, and the shown
/// rows move as little as needed to show it.
pub open spec fn spec_pick(len: nat, index: nat, scroll: nat, visible: nat) -> (nat, nat) {
    if len == 0 {
        (0, 0)
    } else {
        let i = if index < len - 1 {
            index
        } else {
            (len - 1) as nat
        };
        if i < scroll {
            (i, i)
        } else if i >= scroll + visible {
            (i, (i + 1 - visible) as nat)
        } else {
            (i, scroll)
        }
    }
}

impl ListPicker {
    /// The top of an empty list.
    pub fn new() -> (p: Self)
        ensures
            p.index == 0 && p.scroll == 0,
    {
        ListPicker { index: 0, scroll: 0 }
    }

    /// Selects row `index` of a list of `len` rows of which `visible` are
    /// shown.
    pub fn set_index(&mut self, len: usize, index: usize, visible: usize)
        ensures
            (final(self).index as nat, final(self).scroll as nat) == spec_pick(
                len as nat,
                index as nat,
                old(self).scroll as nat,
                visible as nat,
            ),
    {
        if len == 0 {
            self.index = 0;
            self.scroll = 0;
            return;
        }
        let last = len - 1;
        self.index = if index < last {
            index
        } else {
            last
        };
        if self.index < self.scroll {
            self.scroll = self.index;
        } else if self.index - self.scroll >= visible {
            self.scroll = self.index + 1 - visible;
        }
    }
}

/// Once a row is selected, it is among the rows shown.
pub proof fn lemma_pick_shows_selection(len: nat, index: nat, scroll: nat, visible: nat)
    requires
        len > 0,
        visible > 0,
    ensures
        ({
            let (i, s) = spec_pick(len, index, scroll, visible);
            i < len && s <= i < s + visible
        }),
{
}

/// What a key does in a picker.
#[derive(Clone, Copy, Debug, PartialEq, Eq, Structural)]
pub enum PickerEffect {
    /// The key does nothing.
    Ignored,
    /// The key is taken and nothing changes.
    Handled,
    /// The selection moved.
    Moved,
    /// Leave the picker.
    Cancel,
    /// Take the selected row.
    Confirm,
    /// Go to the parent folder.
    GoUp,
    /// Show or hide hidden folders.
    ToggleHidden,
}

/// What `key` does in picker `kind` over `len` rows with selection `p`, and
/// the selection after it. Escape leaves and Enter takes the row; the
/// arrows move by one row, Home and End to the ends. In the repository
/// picker a move that goes nowhere leaves the key unused; in the others it
/// is taken. Backspace goes up and `.` toggles hidden folders in the folder
/// browser.
pub open spec fn spec_picker_key(kind: PickerKind, key: KeyInput, p: (nat, nat), len: nat) -> (
    PickerEffect,
    (nat, nat),
) {
    let vis = spec_visible_rows(kind);
    let blocked = if kind == PickerKind::Repos {
        PickerEffect::Ignored
    } else {
        PickerEffect::Handled
    };
    match key {
        KeyInput::Escape => (PickerEffect::Cancel, p),
        KeyInput::Enter => (PickerEffect::Confirm, p),
        KeyInput::ArrowUp => if p.0 > 0 {
            (PickerEffect::Moved, spec_pick(len, (p.0 - 1) as nat, p.1, vis))
        } else {
            (blocked, p)
        },
        KeyInput::ArrowDown => if p.0 + 1 < len {
            (PickerEffect::Moved, spec_pick(len, p.0 + 1, p.1, vis))
        } else {
            (blocked, p)
        },
        KeyInput::Home => (PickerEffect::Moved, spec_pick(len, 0, p.1, vis)),
        KeyInput::End => if len > 0 {
            (PickerEffect::Moved, spec_pick(len, (len - 1) as nat, p.1, vis))
        } else {
            (blocked, p)
        },
        KeyInput::Backspace => if kind == PickerKind::Folders {
            (PickerEffect::GoUp, p)
        } else {
            (PickerEffect::Ignored, p)
        },
        KeyInput::Character(ch) => if kind == PickerKind::Folders && ch@ == "."@ {
            (PickerEffect::ToggleHidden, p)
        } else {
            (PickerEffect::Ignored, p)
        },
        _ => (PickerEffect::Ignored, p),
    }
}

impl ListPicker {
    /// Handles `key` in picker `kind` over `len` rows.
    pub fn handle_key(&mut self, kind: PickerKind, key: &KeyInput, len: usize) -> (e: PickerEffect)
        ensures
            (e, (final(self).index as nat, final(self).scroll as nat)) == spec_picker_key(
                kind,
                *key,
                (old(self).index as nat, old(self).scroll as nat),
                len as nat,
            ),
    {
        let vis = visible_rows(kind);
        let blocked = if kind == PickerKind::Repos {
            PickerEffect::Ignored
        } else {
            PickerEffect::Handled
        };
        match key {
            KeyInput::Escape => PickerEffect::Cancel,
            KeyInput::Enter => PickerEffect::Confirm,
            KeyInput::ArrowUp => {
                if self.index > 0 {
                    let i = self.index - 1;
                    self.set_index(len, i, vis);
                    PickerEffect::Moved
                } else {
                    blocked
                }
            },
            KeyInput::ArrowDown => {
                if len > 0 && self.index < len - 1 {
                    let i = self.index + 1;
                    self.set_index(len, i, vis);
                    PickerEffect::Moved
                } else {
                    blocked
                }
            },
            KeyInput::Home => {
                self.set_index(len, 0, vis);
                PickerEffect::Moved
            },
            KeyInput::End => {
                if len > 0 {
                    self.set_index(len, len - 1, vis);
                    PickerEffect::Moved
                } else {
                    blocked
                }
            },
            KeyInput::Backspace => {
                if kind == PickerKind::Folders {
                    PickerEffect::GoUp
                } else {
                    PickerEffect::Ignored
                }
            },
            KeyInput::Character(ch) => {
                proof {
                    reveal_strlit(".");
                }
                let v = chars_of(ch.as_str());
                if kind == PickerKind::Folders && v.len() == 1 && v[0] == '.' {
                    assert(v@ =~= "."@);
                    PickerEffect::ToggleHidden
                } else {
                    assert(kind == PickerKind::Folders ==> v@ != "."@);
                    PickerEffect::Ignored
                }
            },
            _ => PickerEffect::Ignored,
        }
    }
}

/// What a key does while a discard waits for confirmation: Escape
/// cancels; Enter or `y` in either case confirms.
pub open spec fn spec_confirm_key(key: KeyInput) -> PickerEffect {
    match key {
        KeyInput::Escape => PickerEffect::Cancel,
        KeyInput::Enter => PickerEffect::Confirm,
        KeyInput::Character(ch) => if eq_ignore_ascii_case(ch@, "y"@) {
            PickerEffect::Confirm
        } else {
            PickerEffect::Ignored
        },
        _ => PickerEffect::Ignored,
    }
}

/// What `key` does while a discard waits for confirmation.
pub fn confirm_key(key: &KeyInput) -> (e: PickerEffect)
    ensures
        e == spec_confirm_key(*key),
{
    match key {
        KeyInput::Escape => PickerEffect::Cancel,
        KeyInput::Enter => PickerEffect::Confirm,
        KeyInput::Character(ch) => {
            if eq_ascii_case(ch.as_str(), "y") {
                PickerEffect::Confirm
            } else {
                PickerEffect::Ignored
            }
        },
        _ => PickerEffect::Ignored,
    }
}


// ─────────────────────────────────────────────────────────────────
//  Commit messages
// ─────────────────────────────────────────────────────────────────

/// The commit message being typed: its summary and its body.
#[derive(Clone, Debug)]
pub struct CommitDraft {
    pub summary: String,
    pub body: String,
}

/// A control character (general category Cc), as `char::is_control`
/// tests.
pub open spec fn is_control_char(c: char) -> bool {
    (c as u32) <= 0x1f || (0x7f <= (c as u32) && (c as u32) <= 0x9f)
}

/// `s` with the characters of `t` that are not control characters added.
pub open spec fn typed_text(s: Seq<char>, t: Seq<char>) -> Seq<char>
    decreases t.len(),
{
    if t.len() == 0 {
        s
    } else if is_control_char(t.last()) {
        typed_text(s, t.drop_last())
    } else {
        typed_text(s, t.drop_last()).push(t.last())
    }
}

/// Some character of `t` is not a control character.
pub open spec fn has_printable(t: Seq<char>) -> bool {
    exists|i: int| 0 <= i < t.len() && !is_control_char(#[trigger] t[i])
}

/// What a key did to the commit message being typed.
#[derive(Clone, Copy, Debug, PartialEq, Eq, Structural)]
pub enum CommitEffect {
    /// The key does nothing.
    Ignored,
    /// The message or the field being typed changed.
    Changed,
    /// Leave without committing.
    Cancel,
    /// Commit the message.
    Submit,
}

/// The field that typing goes to: the body in body mode, the summary
/// otherwise.
pub open spec fn types_body(mode: InputMode) -> bool {
    mode == InputMode::CommitBody
}

/// A key while a commit message is typed: Escape cancels; Enter moves from
/// the summary to the body, and submits from the body; Tab switches field;
/// Backspace deletes the last character of the field; text keys add their
/// characters that are not control characters. Gives the mode, summary,
/// body and effect after the key.
pub open spec fn spec_commit_key(mode: InputMode, summary: Seq<char>, body: Seq<char>, key: KeyInput) -> (
    InputMode,
    Seq<char>,
    Seq<char>,
    CommitEffect,
) {
    match key {
        KeyInput::Escape => (mode, summary, body, CommitEffect::Cancel),
        KeyInput::Enter => if mode == InputMode::CommitSummary {
            (InputMode::CommitBody, summary, body, CommitEffect::Changed)
        } else {
            (mode, summary, body, CommitEffect::Submit)
        },
        KeyInput::Tab => (
            if mode == InputMode::CommitSummary {
                InputMode::CommitBody
            } else {
                InputMode::CommitSummary
            },
            summary,
            body,
            CommitEffect::Changed,
        ),
        KeyInput::Backspace => if types_body(mode) {
            (mode, summary, drop_last_char(body), CommitEffect::Changed)
        } else {
            (mode, drop_last_char(summary), body, CommitEffect::Changed)
        },
        KeyInput::Character(ch) => if has_printable(ch@) {
            if types_body(mode) {
                (mode, summary, typed_text(body, ch@), CommitEffect::Changed)
            } else {
                (mode, typed_text(summary, ch@), body, CommitEffect::Changed)
            }
        } else {
            (mode, summary, body, CommitEffect::Ignored)
        },
        _ => (mode, summary, body, CommitEffect::Ignored),
    }
}

/// `s` without its last character, if it has one.
pub open spec fn drop_last_char(s: Seq<char>) -> Seq<char> {
    if s.len() == 0 {
        s
    } else {
        s.drop_last()
    }
}

/// Whether `c` is a control character.
fn control_char(c: char) -> (b: bool)
    ensures
        b == is_control_char(c),
{
    let u = c as u32;
    u <= 0x1f || (0x7f <= u && u <= 0x9f)
}

/// `s` without its last character.
fn without_last(s: &String) -> (r: String)
    ensures
        r@ == drop_last_char(s@),
{
    let v = chars_of(s.as_str());
    if v.len() == 0 {
        return string_of(&v);
    }
    let w = slice_chars(&v, 0, v.len() - 1);
    assert(w@ =~= v@.drop_last());
    string_of(&w)
}

/// Adds the characters of `t` that are not control characters to `s`;
/// whether any was added.
fn type_text(s: &mut String, t: &str) -> (any: bool)
    ensures
        final(s)@ == typed_text(old(s)@, t@),
        any == has_printable(t@),
{
    let v = chars_of(t);
    let ghost start = s@;
    let mut any = false;
    let mut i: usize = 0;
    assert(v@.take(0) =~= Seq::<char>::empty());
    while i < v.len()
        invariant
            i <= v.len(),
            v@ == t@,
            s@ == typed_text(start, v@.take(i as int)),
            any == has_printable(v@.take(i as int)),
        decreases v.len() - i,
    {
        let ghost pre = v@.take(i as int);
        assert(v@.take(i + 1).drop_last() =~= pre);
        assert(v@.take(i + 1).last() == v@[i as int]);
        if !control_char(v[i]) {
            s.push(v[i]);
            any = true;
            assert(has_printable(v@.take(i + 1))) by {
                assert(v@.take(i + 1)[i as int] == v@[i as int]);
            }
        } else {
            assert(has_printable(v@.take(i + 1)) == has_printable(pre)) by {
                if has_printable(v@.take(i + 1)) {
                    let k = choose|k: int|
                        0 <= k < v@.take(i + 1).len() && !is_control_char(
                            #[trigger] v@.take(i + 1)[k],
                        );
                    assert(k < i);
                    assert(pre[k] == v@.take(i + 1)[k]);
                }
                if has_printable(pre) {
                    let k = choose|k: int| 0 <= k < pre.len() && !is_control_char(#[trigger] pre[k]);
                    assert(v@.take(i + 1)[k] == pre[k]);
                }
            }
        }
        i += 1;
    }
    assert(v@.take(v.len() as int) =~= v@);
    any
}

impl CommitDraft {
    /// An empty message.
    pub fn new() -> (d: Self)
        ensures
            d.summary@.len() == 0,
            d.body@.len() == 0,
    {
        CommitDraft { summary: String::new(), body: String::new() }
    }

    /// Handles `key` while the message is typed in `mode`.
    pub fn handle_key(&mut self, mode: &mut InputMode, key: &KeyInput) -> (e: CommitEffect)
        ensures
            (*final(mode), final(self).summary@, final(self).body@, e) == spec_commit_key(
                *old(mode),
                old(self).summary@,
                old(self).body@,
                *key,
            ),
    {
        match key {
            KeyInput::Escape => CommitEffect::Cancel,
            KeyInput::Enter => {
                if *mode == InputMode::CommitSummary {
                    *mode = InputMode::CommitBody;
                    CommitEffect::Changed
                } else {
                    CommitEffect::Submit
                }
            },
            KeyInput::Tab => {
                *mode = if *mode == InputMode::CommitSummary {
                    InputMode::CommitBody
                } else {
                    InputMode::CommitSummary
                };
                CommitEffect::Changed
            },
            KeyInput::Backspace => {
                if *mode == InputMode::CommitBody {
                    self.body = without_last(&self.body);
                } else {
                    self.summary = without_last(&self.summary);
                }
                CommitEffect::Changed
            },
            KeyInput::Character(ch) => {
                let any = if *mode == InputMode::CommitBody {
                    type_text(&mut self.body, ch.as_str())
                } else {
                    type_text(&mut self.summary, ch.as_str())
                };
                if any {
                    CommitEffect::Changed
                } else {
                    proof {
                        assert(typed_text(old(self).summary@, ch@) == old(self).summary@) by {
                            lemma_typed_nothing(old(self).summary@, ch@);
                        }
                        assert(typed_text(old(self).body@, ch@) == old(self).body@) by {
                            lemma_typed_nothing(old(self).body@, ch@);
                        }
                    }
                    CommitEffect::Ignored
                }
            },
            _ => CommitEffect::Ignored,
        }
    }
}

/// Typing one printable character into the commit message and then
/// pressing Backspace leaves the message and the field as they were.
pub proof fn lemma_backspace_undoes_typing(
    mode: InputMode,
    summary: Seq<char>,
    body: Seq<char>,
    ch: String,
)
    requires
        mode == InputMode::CommitSummary || mode == InputMode::CommitBody,
        ch@.len() == 1,
        !is_control_char(ch@[0]),
    ensures
        ({
            let (m1, s1, b1, e1) = spec_commit_key(mode, summary, body, KeyInput::Character(ch));
            let (m2, s2, b2, e2) = spec_commit_key(m1, s1, b1, KeyInput::Backspace);
            &&& e1 == CommitEffect::Changed
            &&& m2 == mode
            &&& s2 == summary
            &&& b2 == body
        }),
{
    let t = ch@;
    assert(t.drop_last() =~= Seq::<char>::empty());
    assert(has_printable(t)) by {
        assert(!is_control_char(t[0]));
    }
    assert(t.last() == t[0]);
    assert(typed_text(summary, t.drop_last()) == summary);
    assert(typed_text(body, t.drop_last()) == body);
    assert(typed_text(summary, t) == summary.push(t[0]));
    assert(typed_text(body, t) == body.push(t[0]));
    assert(summary.push(t[0]).drop_last() =~= summary);
    assert(body.push(t[0]).drop_last() =~= body);
}

/// Pressing Tab twice while typing a commit message comes back to the same
/// field, with the message unchanged.
pub proof fn lemma_tab_twice_returns(mode: InputMode, summary: Seq<char>, body: Seq<char>)
    requires
        mode == InputMode::CommitSummary || mode == InputMode::CommitBody,
    ensures
        ({
            let (m1, s1, b1, e1) = spec_commit_key(mode, summary, body, KeyInput::Tab);
            let (m2, s2, b2, e2) = spec_commit_key(m1, s1, b1, KeyInput::Tab);
            &&& m1 != mode
            &&& m2 == mode
            &&& s2 == summary
            &&& b2 == body
        }),
{
}

/// Typing only control characters adds nothing.
proof fn lemma_typed_nothing(s: Seq<char>, t: Seq<char>)
    requires
        !has_printable(t),
    ensures
        typed_text(s, t) == s,
    decreases t.len(),
{
    if t.len() > 0 {
        assert(is_control_char(t[t.len() - 1]));
        assert(!has_printable(t.drop_last())) by {
            if has_printable(t.drop_last()) {
                let k = choose|k: int|
                    0 <= k < t.drop_last().len() && !is_control_char(#[trigger] t.drop_last()[k]);
                assert(t[k] == t.drop_last()[k]);
            }
        }
        lemma_typed_nothing(s, t.drop_last());
    }
}

/// The message a draft commits: the trimmed summary, then a blank line and
/// the trimmed body when there is one; an empty summary is an error.
pub open spec fn spec_commit_message(summary: Seq<char>, body: Seq<char>) -> Result<Seq<char>, Seq<char>> {
    let s = trim(summary);
    let b = trim(body);
    if s.len() == 0 {
        Err("commit summary cannot be empty"@)
    } else if b.len() == 0 {
        Ok(s)
    } else {
        Ok(s + "\n\n"@ + b)
    }
}

impl CommitDraft {
    /// The message this draft commits.
    pub fn message(&self) -> (r: Result<String, String>)
        ensures
            match spec_commit_message(self.summary@, self.body@) {
                Ok(m) => r matches Ok(s) && s@ == m,
                Err(e) => r matches Err(s) && s@ == e,
            },
    {
        let s = trim_str(self.summary.as_str());
        let b = trim_str(self.body.as_str());
        if s.as_str().is_empty() {
            return Err(copy_str("commit summary cannot be empty"));
        }
        if b.as_str().is_empty() {
            return Ok(s);
        }
        let mut m = s;
        push_str_chars(&mut m, "\n\n");
        push_str_chars(&mut m, b.as_str());
        Ok(m)
    }
}

/// The prompt shown while a commit message is typed in `mode`.
pub open spec fn spec_commit_prompt(mode: InputMode, summary: Seq<char>, body: Seq<char>) -> Seq<char> {
    match mode {
        InputMode::CommitSummary => if summary.len() == 0 {
            "Commit summary: type a subject, Enter for body, Esc to cancel"@
        } else {
            "Commit summary: "@ + summary + "  [Enter] next  [Esc] cancel"@
        },
        InputMode::CommitBody => if body.len() == 0 {
            "Commit body: optional details, Enter to submit, Tab back, Esc cancel"@
        } else {
            "Commit body: "@ + body + "  [Enter] submit  [Tab] back  [Esc] cancel"@
        },
        _ => "Commit: type a subject, Enter for body, Esc to cancel"@,
    }
}

/// Three texts joined.
fn concat3(a: &str, b: &str, c: &str) -> (r: String)
    ensures
        r@ == a@ + b@ + c@,
{
    let mut r = copy_str(a);
    push_str_chars(&mut r, b);
    push_str_chars(&mut r, c);
    r
}

impl CommitDraft {
    /// The prompt shown while this message is typed in `mode`.
    pub fn prompt(&self, mode: InputMode) -> (r: String)
        ensures
            r@ == spec_commit_prompt(mode, self.summary@, self.body@),
    {
        match mode {
            InputMode::CommitSummary => {
                if self.summary.as_str().is_empty() {
                    copy_str("Commit summary: type a subject, Enter for body, Esc to cancel")
                } else {
                    concat3(
                        "Commit summary: ",
                        self.summary.as_str(),
                        "  [Enter] next  [Esc] cancel",
                    )
                }
            },
            InputMode::CommitBody => {
                if self.body.as_str().is_empty() {
                    copy_str("Commit body: optional details, Enter to submit, Tab back, Esc cancel")
                } else {
                    concat3(
                        "Commit body: ",
                        self.body.as_str(),
                        "  [Enter] submit  [Tab] back  [Esc] cancel",
                    )
                }
            },
            _ => copy_str("Commit: type a subject, Enter for body, Esc to cancel"),
        }
    }
}

// ─────────────────────────────────────────────────────────────────
//  Prompts and messages
// ─────────────────────────────────────────────────────────────────

/// The prompt of the repository picker, naming the selected repository.
pub open spec fn spec_repo_prompt(path: Option<Seq<char>>) -> Seq<char> {
    match path {
        Some(p) => "Repo switcher: "@ + spec_compact(p, 64) + "  [Enter] open  [Esc] cancel"@,
        None => "Repo switcher: use arrows, Enter to open, Esc to cancel"@,
    }
}

/// The prompt of the repository picker.
pub fn repo_prompt(path: Option<&str>) -> (r: String)
    ensures
        r@ == spec_repo_prompt(match path {
            Some(p) => Some(p@),
            None => None,
        }),
{
    match path {
        Some(p) => concat3(
            "Repo switcher: ",
            compact_status_message(p, 64).as_str(),
            "  [Enter] open  [Esc] cancel",
        ),
        None => copy_str("Repo switcher: use arrows, Enter to open, Esc to cancel"),
    }
}

/// The prompt of the folder browser at `path`.
pub open spec fn spec_folder_prompt(path: Seq<char>) -> Seq<char> {
    "Browse: "@ + spec_compact(path, 48) + "  [Enter] open  [Backspace] up  [.] toggle hidden  [Esc] cancel"@
}

/// The prompt of the folder browser.
pub fn folder_prompt(path: &str) -> (r: String)
    ensures
        r@ == spec_folder_prompt(path@),
{
    concat3(
        "Browse: ",
        compact_status_message(path, 48).as_str(),
        "  [Enter] open  [Backspace] up  [.] toggle hidden  [Esc] cancel",
    )
}

/// The prompt of the branch switcher, naming the selected branch.
pub open spec fn spec_branch_prompt(name: Option<Seq<char>>) -> Seq<char> {
    match name {
        Some(n) => "Branch: "@ + spec_compact(n, 48) + "  [Enter] checkout  [Esc] cancel"@,
        None => "Branch switcher: use arrows, Enter to checkout, Esc to cancel"@,
    }
}

/// The prompt of the branch switcher.
pub fn branch_prompt(name: Option<&str>) -> (r: String)
    ensures
        r@ == spec_branch_prompt(match name {
            Some(n) => Some(n@),
            None => None,
        }),
{
    match name {
        Some(n) => concat3(
            "Branch: ",
            compact_status_message(n, 48).as_str(),
            "  [Enter] checkout  [Esc] cancel",
        ),
        None => copy_str("Branch switcher: use arrows, Enter to checkout, Esc to cancel"),
    }
}

/// The prompt asking to confirm discarding the selected file.
pub open spec fn spec_discard_prompt(path: Option<Seq<char>>) -> Seq<char> {
    match path {
        Some(p) => "Discard selected file? "@ + p + "  [y/Enter] confirm  [Esc] cancel"@,
        None => "Discard selected file? [y/Enter] confirm  [Esc] cancel"@,
    }
}

/// The prompt asking to confirm discarding the selected file.
pub fn discard_prompt(path: Option<&str>) -> (r: String)
    ensures
        r@ == spec_discard_prompt(match path {
            Some(p) => Some(p@),
            None => None,
        }),
{
    match path {
        Some(p) => concat3("Discard selected file? ", p, "  [y/Enter] confirm  [Esc] cancel"),
        None => copy_str("Discard selected file? [y/Enter] confirm  [Esc] cancel"),
    }
}

/// The status line in normal mode: the focused pane, then either the clean
/// tree and the branch, or the selected file's position among `count` and
/// the keys that act on it.
pub open spec fn spec_selection_status(focus: FocusPane, count: nat, selected: nat, branch: Seq<char>) -> Seq<
    char,
> {
    let pane = match focus {
        FocusPane::Files => "FILES"@,
        FocusPane::Diff => "DIFF"@,
    };
    if count == 0 {
        "["@ + pane + "]  Working tree clean  \u{2502}  "@ + branch
            + "  \u{2502}  Tab switch pane  c commit  o repos  q quit"@
    } else {
        "["@ + pane + "]  "@ + decimal(selected + 1) + "/"@ + decimal(count)
            + "  \u{2502}  s stage  u unstage  x discard  c commit  Tab switch pane  j/k scroll"@
    }
}

/// The status line in normal mode.
pub fn selection_status_message(focus: FocusPane, count: usize, selected: usize, branch: &str) -> (r:
    String)
    requires
        count == 0 || selected < count,
    ensures
        r@ == spec_selection_status(focus, count as nat, selected as nat, branch@),
{
    let pane = match focus {
        FocusPane::Files => "FILES",
        FocusPane::Diff => "DIFF",
    };
    let mut r = copy_str("[");
    push_str_chars(&mut r, pane);
    if count == 0 {
        push_str_chars(&mut r, "]  Working tree clean  \u{2502}  ");
        push_str_chars(&mut r, branch);
        push_str_chars(&mut r, "  \u{2502}  Tab switch pane  c commit  o repos  q quit");
    } else {
        push_str_chars(&mut r, "]  ");
        push_decimal(&mut r, (selected + 1) as u64);
        push_str_chars(&mut r, "/");
        push_decimal(&mut r, count as u64);
        push_str_chars(
            &mut r,
            "  \u{2502}  s stage  u unstage  x discard  c commit  Tab switch pane  j/k scroll",
        );
    }
    r
}

/// What the status line says when handling a key fails in `mode`.
pub open spec fn spec_mode_error_label(mode: InputMode) -> Seq<char> {
    match mode {
        InputMode::CommitSummary | InputMode::CommitBody => "Commit entry failed"@,
        InputMode::RepoPicker => "Repo switch failed"@,
        InputMode::DiscardConfirm => "Discard failed"@,
        InputMode::FolderBrowser => "Folder browser failed"@,
        InputMode::BranchSwitcher => "Branch switch failed"@,
        InputMode::Normal => "Input handling failed"@,
    }
}

/// What the status line says when handling a key fails in `mode`.
pub fn mode_error_label(mode: InputMode) -> (r: &'static str)
    ensures
        r@ == spec_mode_error_label(mode),
{
    match mode {
        InputMode::CommitSummary | InputMode::CommitBody => "Commit entry failed",
        InputMode::RepoPicker => "Repo switch failed",
        InputMode::DiscardConfirm => "Discard failed",
        InputMode::FolderBrowser => "Folder browser failed",
        InputMode::BranchSwitcher => "Branch switch failed",
        InputMode::Normal => "Input handling failed",
    }
}

/// What the status line says after a toolbar action that runs a Git
/// command succeeds; `None` for the actions that open a prompt instead.
pub open spec fn spec_action_label(a: ToolbarAction) -> Option<Seq<char>> {
    match a {
        ToolbarAction::Refresh => Some("Repository refreshed"@),
        ToolbarAction::Stage => Some("Selected file staged"@),
        ToolbarAction::StageAll => Some("All changes staged"@),
        ToolbarAction::Unstage => Some("Selected file unstaged"@),
        ToolbarAction::UnstageAll => Some("All changes unstaged"@),
        ToolbarAction::Fetch => Some("Repository fetched"@),
        ToolbarAction::Pull => Some("Repository pulled"@),
        ToolbarAction::Push => Some("Repository pushed"@),
        _ => None,
    }
}

/// What the status line says after a toolbar action succeeds.
pub fn action_label(a: ToolbarAction) -> (r: Option<&'static str>)
    ensures
        match spec_action_label(a) {
            Some(l) => r matches Some(s) && s@ == l,
            None => r is None,
        },
{
    match a {
        ToolbarAction::Refresh => Some("Repository refreshed"),
        ToolbarAction::Stage => Some("Selected file staged"),
        ToolbarAction::StageAll => Some("All changes staged"),
        ToolbarAction::Unstage => Some("Selected file unstaged"),
        ToolbarAction::UnstageAll => Some("All changes unstaged"),
        ToolbarAction::Fetch => Some("Repository fetched"),
        ToolbarAction::Pull => Some("Repository pulled"),
        ToolbarAction::Push => Some("Repository pushed"),
        _ => None,
    }
}

/// A message made of a label and a detail: `label: detail`.
pub fn labelled(label: &str, detail: &str) -> (r: String)
    ensures
        r@ == label@ + ": "@ + detail@,
{
    concat3(label, ": ", detail)
}


// ─────────────────────────────────────────────────────────────────
//  Toolbar
// ─────────────────────────────────────────────────────────────────

/// The colour family of a toolbar button.
#[derive(Clone, Copy, Debug, PartialEq, Eq, Structural)]
pub enum ButtonTone {
    Green,
    Yellow,
    Blue,
    Purple,
    Red,
    Gray,
}

/// A toolbar button: its label, action, group and colour family.
#[derive(Clone, Copy, Debug)]
pub struct ButtonSpec {
    pub label: &'static str,
    pub action: ToolbarAction,
    pub group: ToolbarGroup,
    pub tone: ButtonTone,
}

/// The plain value of a button.
pub open spec fn button_view(b: ButtonSpec) -> (Seq<char>, ToolbarAction, ToolbarGroup, ButtonTone) {
    (b.label@, b.action, b.group, b.tone)
}

/// The toolbar, left to right: staging (stage, stage all, unstage,
/// unstage all), Git operations (commit, fetch, pull, push), the
/// dangerous discard, and the application's buttons (repositories, browse,
/// branch, refresh, quit).
pub open spec fn spec_toolbar() -> Seq<(Seq<char>, ToolbarAction, ToolbarGroup, ButtonTone)> {
    seq![
        ("s stage"@, ToolbarAction::Stage, ToolbarGroup::Staging, ButtonTone::Green),
        ("a all"@, ToolbarAction::StageAll, ToolbarGroup::Staging, ButtonTone::Green),
        ("u unstage"@, ToolbarAction::Unstage, ToolbarGroup::Staging, ButtonTone::Yellow),
        ("U all"@, ToolbarAction::UnstageAll, ToolbarGroup::Staging, ButtonTone::Yellow),
        ("c commit"@, ToolbarAction::Commit, ToolbarGroup::GitOps, ButtonTone::Blue),
        ("f fetch"@, ToolbarAction::Fetch, ToolbarGroup::GitOps, ButtonTone::Purple),
        ("p pull"@, ToolbarAction::Pull, ToolbarGroup::GitOps, ButtonTone::Purple),
        ("P push"@, ToolbarAction::Push, ToolbarGroup::GitOps, ButtonTone::Purple),
        ("x discard"@, ToolbarAction::Discard, ToolbarGroup::Danger, ButtonTone::Red),
        ("o repos"@, ToolbarAction::RepoSwitch, ToolbarGroup::App, ButtonTone::Gray),
        ("b browse"@, ToolbarAction::Browse, ToolbarGroup::App, ButtonTone::Gray),
        ("B branch"@, ToolbarAction::BranchSwitch, ToolbarGroup::App, ButtonTone::Gray),
        ("r refresh"@, ToolbarAction::Refresh, ToolbarGroup::App, ButtonTone::Gray),
        ("q quit"@, ToolbarAction::Quit, ToolbarGroup::App, ButtonTone::Gray),
    ]
}

/// Adds a button to the toolbar.
fn add_button(
    v: &mut Vec<ButtonSpec>,
    label: &'static str,
    action: ToolbarAction,
    group: ToolbarGroup,
    tone: ButtonTone,
)
    ensures
        final(v)@ == old(v)@.push(ButtonSpec { label, action, group, tone }),
{
    v.push(ButtonSpec { label, action, group, tone });
}

/// The toolbar's buttons, left to right.
pub fn toolbar_buttons() -> (r: Vec<ButtonSpec>)
    ensures
        r@.map_values(|b: ButtonSpec| button_view(b)) == spec_toolbar(),
{
    let mut v: Vec<ButtonSpec> = Vec::new();
    add_button(&mut v, "s stage", ToolbarAction::Stage, ToolbarGroup::Staging, ButtonTone::Green);
    add_button(&mut v, "a all", ToolbarAction::StageAll, ToolbarGroup::Staging, ButtonTone::Green);
    add_button(&mut v, "u unstage", ToolbarAction::Unstage, ToolbarGroup::Staging, ButtonTone::Yellow);
    add_button(&mut v, "U all", ToolbarAction::UnstageAll, ToolbarGroup::Staging, ButtonTone::Yellow);
    add_button(&mut v, "c commit", ToolbarAction::Commit, ToolbarGroup::GitOps, ButtonTone::Blue);
    add_button(&mut v, "f fetch", ToolbarAction::Fetch, ToolbarGroup::GitOps, ButtonTone::Purple);
    add_button(&mut v, "p pull", ToolbarAction::Pull, ToolbarGroup::GitOps, ButtonTone::Purple);
    add_button(&mut v, "P push", ToolbarAction::Push, ToolbarGroup::GitOps, ButtonTone::Purple);
    add_button(&mut v, "x discard", ToolbarAction::Discard, ToolbarGroup::Danger, ButtonTone::Red);
    add_button(&mut v, "o repos", ToolbarAction::RepoSwitch, ToolbarGroup::App, ButtonTone::Gray);
    add_button(&mut v, "b browse", ToolbarAction::Browse, ToolbarGroup::App, ButtonTone::Gray);
    add_button(&mut v, "B branch", ToolbarAction::BranchSwitch, ToolbarGroup::App, ButtonTone::Gray);
    add_button(&mut v, "r refresh", ToolbarAction::Refresh, ToolbarGroup::App, ButtonTone::Gray);
    add_button(&mut v, "q quit", ToolbarAction::Quit, ToolbarGroup::App, ButtonTone::Gray);
    assert(v@.map_values(|b: ButtonSpec| button_view(b)) =~= spec_toolbar());
    v
}

// ─────────────────────────────────────────────────────────────────
//  The file list
// ─────────────────────────────────────────────────────────────────

/// The file rows of section `s` that lie within a document of `n` lines:
/// the lines after its heading, one per file.
pub open spec fn section_file_lines(s: GroupedStatusSection, n: nat) -> Seq<nat> {
    let first = s.start_line + 1;
    let k = if first < n {
        if s.item_count < n - first {
            s.item_count as nat
        } else {
            (n - first) as nat
        }
    } else {
        0
    };
    Seq::new(k, |o: int| (first + o) as nat)
}

/// The file rows of the first `m` sections, in order.
pub open spec fn file_rows(secs: Seq<GroupedStatusSection>, n: nat, m: nat) -> Seq<nat>
    decreases m,
{
    if m == 0 || m > secs.len() {
        seq![]
    } else {
        file_rows(secs, n, (m - 1) as nat) + section_file_lines(secs[m - 1], n)
    }
}

/// Which file each line of a document of `n` lines shows, given the file
/// rows in file order: the last file shown on it, if any.
pub open spec fn line_files(rows: Seq<nat>, n: nat) -> Seq<Option<nat>>
    decreases rows.len(),
{
    if rows.len() == 0 {
        Seq::new(n, |l: int| None::<nat>)
    } else {
        let prev = line_files(rows.drop_last(), n);
        prev.update(rows.last() as int, Some((rows.len() - 1) as nat))
    }
}

/// The plain value of a line-to-file map.
pub open spec fn opt_nats(v: Seq<Option<usize>>) -> Seq<Option<nat>> {
    v.map_values(
        |o: Option<usize>|
            match o {
                Some(k) => Some(k as nat),
                None => None,
            },
    )
}

/// The plain value of a list of line numbers.
pub open spec fn nats(v: Seq<usize>) -> Seq<nat> {
    v.map_values(|k: usize| k as nat)
}

/// Maps between the lines of a file list of `line_count` lines and the
/// files: the file each line shows, and the line of each file. The files
/// are the rows after each section's heading, in section order.
pub fn build_grouped_file_maps(line_count: usize, meta: &GroupedGitViewMeta) -> (r: (
    Vec<Option<usize>>,
    Vec<usize>,
))
    ensures
        nats(r.1@) == file_rows(meta.sections@, line_count as nat, meta.sections@.len()),
        opt_nats(r.0@) == line_files(nats(r.1@), line_count as nat),
{
    let n = line_count;
    let mut to_index: Vec<Option<usize>> = Vec::new();
    let mut k: usize = 0;
    while k < n
        invariant
            k <= n,
            to_index@.len() == k,
            forall|j: int| 0 <= j < k ==> (#[trigger] to_index@[j]) is None,
        decreases n - k,
    {
        to_index.push(None);
        k += 1;
    }
    assert(opt_nats(to_index@) =~= line_files(Seq::<nat>::empty(), n as nat));
    let mut to_line: Vec<usize> = Vec::new();
    let secs = &meta.sections;
    let mut si: usize = 0;
    assert(nats(to_line@) =~= file_rows(secs@, n as nat, 0));
    while si < secs.len()
        invariant
            si <= secs.len(),
            to_index@.len() == n,
            nats(to_line@) == file_rows(secs@, n as nat, si as nat),
            opt_nats(to_index@) == line_files(nats(to_line@), n as nat),
            forall|j: int| 0 <= j < to_line@.len() ==> #[trigger] to_line@[j] < n,
        decreases secs.len() - si,
    {
        let s = &secs[si];
        let ghost lines = section_file_lines(*s, n as nat);
        let ghost base = nats(to_line@);
        let count: usize = if s.start_line < n && n - s.start_line > 1 {
            let room = n - s.start_line - 1;
            if s.item_count < room {
                s.item_count
            } else {
                room
            }
        } else {
            0
        };
        assert(count == lines.len());
        let mut o: usize = 0;
        while o < count
            invariant
                o <= count == lines.len(),
                count > 0 ==> s.start_line + 1 + count <= n,
                to_index@.len() == n,
                lines == section_file_lines(*s, n as nat),
                nats(to_line@) == base + lines.take(o as int),
                opt_nats(to_index@) == line_files(nats(to_line@), n as nat),
                forall|j: int| 0 <= j < to_line@.len() ==> #[trigger] to_line@[j] < n,
            decreases count - o,
        {
            let line = s.start_line + 1 + o;
            let idx = to_line.len();
            let ghost prev = nats(to_line@);
            to_index.set(line, Some(idx));
            to_line.push(line);
            assert(nats(to_line@) =~= prev.push(line as nat));
            assert(nats(to_line@).drop_last() =~= prev);
            assert(opt_nats(to_index@) =~= line_files(nats(to_line@), n as nat));
            assert(lines.take(o + 1) =~= lines.take(o as int).push(lines[o as int]));
            o += 1;
        }
        assert(lines.take(count as int) =~= lines);
        si += 1;
    }
    (to_index, to_line)
}

/// The path a file row shows: the text after its five-byte badge column,
/// trimmed; none when byte 5 is not the start of a character.
pub open spec fn spec_row_path(text: Seq<char>) -> Option<Seq<char>> {
    let j = byte_boundary(text, 5);
    if j < 0 {
        None
    } else {
        Some(trim(text.skip(j)))
    }
}

/// The path a file row shows.
pub fn row_path(text: &str) -> (r: Option<String>)
    ensures
        match spec_row_path(text@) {
            Some(p) => r matches Some(s) && s@ == p,
            None => r is None,
        },
{
    let v = chars_of(text);
    match byte_boundary_of(&v, 5) {
        None => None,
        Some(j) => {
            proof {
                lemma_boundary_in_range(v@, 5, 0);
            }
            let rest = slice_chars(&v, j, v.len());
            assert(rest@ =~= v@.skip(j as int));
            let t = trimmed(&rest);
            Some(string_of(&t))
        },
    }
}


// ─────────────────────────────────────────────────────────────────
//  The folder browser
// ─────────────────────────────────────────────────────────────────

/// A folder listed by the folder browser: its name and whether it holds a
/// Git repository.
#[derive(Clone, Debug)]
pub struct FolderEntry {
    pub name: String,
    pub is_git: bool,
}

/// The plain value of a folder entry.
pub open spec fn entry_view(e: FolderEntry) -> (Seq<char>, bool) {
    (e.name@, e.is_git)
}

/// The plain values of folder entries.
pub open spec fn entries_view(v: Seq<FolderEntry>) -> Seq<(Seq<char>, bool)> {
    v.map_values(|e: FolderEntry| entry_view(e))
}

/// The lower-case form of a text by Unicode's rules, as `str::to_lowercase`
/// gives it.
pub uninterp spec fn unicode_lowercase(s: Seq<char>) -> Seq<char>;

/// `str::to_lowercase`: the lower-case form of `s` by the Unicode
/// `Lowercase` property. The contract names the result and states nothing
/// more of it.
#[verifier::external_body]
fn to_lowercase(s: &str) -> (r: String)
    ensures
        r@ == unicode_lowercase(s@),
{
    s.to_lowercase()
}

/// `a` comes before `b` in the order of code points, a prefix first (the
/// order of `str`, whose UTF-8 bytes sort the same way).
pub open spec fn text_lt(a: Seq<char>, b: Seq<char>) -> bool
    decreases a.len(),
{
    if a.len() == 0 {
        b.len() > 0
    } else if b.len() == 0 {
        false
    } else if a[0] != b[0] {
        (a[0] as u32) < (b[0] as u32)
    } else {
        text_lt(a.drop_first(), b.drop_first())
    }
}

/// Whether `a` comes before `b` in the order of code points.
fn chars_lt(a: &Vec<char>, b: &Vec<char>) -> (r: bool)
    ensures
        r == text_lt(a@, b@),
{
    let mut i: usize = 0;
    assert(a@.skip(0) =~= a@);
    assert(b@.skip(0) =~= b@);
    while i < a.len() && i < b.len()
        invariant
            i <= a.len(),
            i <= b.len(),
            text_lt(a@, b@) == text_lt(a@.skip(i as int), b@.skip(i as int)),
        decreases a.len() - i,
    {
        let ghost sa = a@.skip(i as int);
        let ghost sb = b@.skip(i as int);
        assert(sa[0] == a@[i as int] && sb[0] == b@[i as int]);
        if a[i] != b[i] {
            return (a[i] as u32) < (b[i] as u32);
        }
        assert(sa.drop_first() =~= a@.skip(i + 1));
        assert(sb.drop_first() =~= b@.skip(i + 1));
        i += 1;
    }
    i == a.len() && i < b.len()
}

/// Entry `a` sorts before entry `b`: repositories first, then by name in
/// lower case.
pub open spec fn entry_before(a: (Seq<char>, bool), b: (Seq<char>, bool)) -> bool {
    (a.1 && !b.1) || (a.1 == b.1 && text_lt(unicode_lowercase(a.0), unicode_lowercase(b.0)))
}

/// `s` with `x` inserted after the last entry that `x` does not sort
/// before.
pub open spec fn insert_entry(s: Seq<(Seq<char>, bool)>, x: (Seq<char>, bool)) -> Seq<
    (Seq<char>, bool),
>
    decreases s.len(),
{
    if s.len() == 0 || !entry_before(x, s.last()) {
        s.push(x)
    } else {
        insert_entry(s.drop_last(), x).push(s.last())
    }
}

/// `s` sorted, repositories first and then by lower-case name, entries
/// that compare equal kept in their order (a stable sort).
pub open spec fn sort_entries(s: Seq<(Seq<char>, bool)>) -> Seq<(Seq<char>, bool)>
    decreases s.len(),
{
    if s.len() == 0 {
        s
    } else {
        insert_entry(sort_entries(s.drop_last()), s.last())
    }
}

/// A folder is listed: hidden folders (whose names start with `.`) only
/// when they are shown.
pub open spec fn listed(name: Seq<char>, show_hidden: bool) -> bool {
    show_hidden || !(name.len() > 0 && name[0] == '.')
}

/// The entries of `s` that are listed.
pub open spec fn listed_entries(s: Seq<(Seq<char>, bool)>, show_hidden: bool) -> Seq<(Seq<char>, bool)>
    decreases s.len(),
{
    if s.len() == 0 {
        s
    } else if listed(s.last().0, show_hidden) {
        listed_entries(s.drop_last(), show_hidden).push(s.last())
    } else {
        listed_entries(s.drop_last(), show_hidden)
    }
}

/// An entry with its sort key.
struct Keyed {
    entry: FolderEntry,
    key: Vec<char>,
}

/// Inserts `x` into `v` after the last entry that `x` does not sort
/// before.
fn insert_keyed(v: &mut Vec<Keyed>, x: Keyed)
    requires
        x.key@ == unicode_lowercase(x.entry.name@),
        forall|j: int| 0 <= j < old(v)@.len() ==> (#[trigger] old(v)@[j]).key@ == unicode_lowercase(
            old(v)@[j].entry.name@,
        ),
    ensures
        keyed_view(final(v)@) == insert_entry(keyed_view(old(v)@), entry_view(x.entry)),
        forall|j: int| 0 <= j < final(v)@.len() ==> (#[trigger] final(v)@[j]).key@ == unicode_lowercase(
            final(v)@[j].entry.name@,
        ),
{
    let ghost xv = entry_view(x.entry);
    let mut tail: Vec<Keyed> = Vec::new();
    let mut done = false;
    while !done
        invariant
            x.key@ == unicode_lowercase(x.entry.name@),
            xv == entry_view(x.entry),
            forall|j: int| 0 <= j < v@.len() ==> (#[trigger] v@[j]).key@ == unicode_lowercase(
                v@[j].entry.name@,
            ),
            forall|j: int| 0 <= j < tail@.len() ==> (#[trigger] tail@[j]).key@ == unicode_lowercase(
                tail@[j].entry.name@,
            ),
            insert_entry(keyed_view(old(v)@), xv) == insert_entry(keyed_view(v@), xv) + keyed_view(
                tail@,
            ),
            done ==> (v@.len() == 0 || !entry_before(xv, keyed_view(v@).last())),
        decreases v@.len() + (if done {
            0int
        } else {
            1int
        }),
    {
        if v.len() == 0 {
            done = true;
        } else {
            let last = v.len() - 1;
            let before = (x.entry.is_git && !v[last].entry.is_git) || (x.entry.is_git
                == v[last].entry.is_git && chars_lt(&x.key, &v[last].key));
            assert(keyed_view(v@).last() == entry_view(v@[last as int].entry));
            assert(before == entry_before(xv, keyed_view(v@).last()));
            if !before {
                done = true;
            } else {
                let ghost pre = v@;
                let y = v.pop().unwrap();
                assert(keyed_view(pre).drop_last() =~= keyed_view(v@));
                assert(keyed_view(pre).last() == entry_view(y.entry));
                let ghost t = tail@;
                tail.insert(0, y);
                assert(keyed_view(tail@) =~= seq![entry_view(y.entry)] + keyed_view(t));
                assert(insert_entry(keyed_view(pre), xv) == insert_entry(keyed_view(v@), xv).push(
                    entry_view(y.entry),
                ));
                assert(insert_entry(keyed_view(v@), xv).push(entry_view(y.entry)) + keyed_view(t)
                    =~= insert_entry(keyed_view(v@), xv) + keyed_view(tail@));
            }
        }
    }
    let ghost mid_v = v@;
    assert(insert_entry(keyed_view(mid_v), xv) == keyed_view(mid_v).push(xv));
    v.push(x);
    assert(keyed_view(v@) =~= keyed_view(mid_v).push(xv));
    let ghost mid = v@;
    while tail.len() > 0
        invariant
            forall|j: int| 0 <= j < v@.len() ==> (#[trigger] v@[j]).key@ == unicode_lowercase(
                v@[j].entry.name@,
            ),
            forall|j: int| 0 <= j < tail@.len() ==> (#[trigger] tail@[j]).key@ == unicode_lowercase(
                tail@[j].entry.name@,
            ),
            insert_entry(keyed_view(old(v)@), xv) == keyed_view(v@) + keyed_view(tail@),
        decreases tail@.len(),
    {
        let ghost pv = v@;
        let ghost pt = tail@;
        let y = tail.remove(0);
        v.push(y);
        assert(keyed_view(v@) =~= keyed_view(pv).push(entry_view(y.entry)));
        assert(keyed_view(pt) =~= seq![entry_view(y.entry)] + keyed_view(tail@));
        assert(keyed_view(v@) + keyed_view(tail@) =~= keyed_view(pv) + keyed_view(pt));
    }
    assert(keyed_view(v@) + keyed_view(tail@) =~= keyed_view(v@));
}

/// The plain values of keyed entries.
spec fn keyed_view(v: Seq<Keyed>) -> Seq<(Seq<char>, bool)> {
    v.map_values(|k: Keyed| entry_view(k.entry))
}

/// The entries of a folder listing as the folder browser shows them:
/// hidden folders only when `show_hidden`, repositories first, then by
/// lower-case name.
pub fn arrange_folder_entries(entries: Vec<FolderEntry>, show_hidden: bool) -> (r: Vec<FolderEntry>)
    ensures
        entries_view(r@) == sort_entries(listed_entries(entries_view(entries@), show_hidden)),
{
    let ghost ev = entries_view(entries@);
    let mut sorted: Vec<Keyed> = Vec::new();
    let mut i: usize = 0;
    assert(ev.take(0) =~= Seq::<(Seq<char>, bool)>::empty());
    while i < entries.len()
        invariant
            i <= entries.len(),
            ev == entries_view(entries@),
            keyed_view(sorted@) == sort_entries(listed_entries(ev.take(i as int), show_hidden)),
            forall|j: int| 0 <= j < sorted@.len() ==> (#[trigger] sorted@[j]).key@ == unicode_lowercase(
                sorted@[j].entry.name@,
            ),
        decreases entries.len() - i,
    {
        let ghost pre = ev.take(i as int);
        assert(ev.take(i + 1).drop_last() =~= pre);
        assert(ev.take(i + 1).last() == entry_view(entries@[i as int]));
        let e = &entries[i];
        let name = chars_of(e.name.as_str());
        let hidden = name.len() > 0 && name[0] == '.';
        if show_hidden || !hidden {
            let key = chars_of(to_lowercase(e.name.as_str()).as_str());
            let entry = FolderEntry { name: copy_str(e.name.as_str()), is_git: e.is_git };
            let ghost ls = listed_entries(pre, show_hidden);
            assert(listed_entries(ev.take(i + 1), show_hidden) == ls.push(entry_view(entry)));
            assert(ls.push(entry_view(entry)).drop_last() =~= ls);
            insert_keyed(&mut sorted, Keyed { entry, key });
        } else {
            assert(listed_entries(ev.take(i + 1), show_hidden) == listed_entries(pre, show_hidden));
        }
        i += 1;
    }
    assert(ev.take(entries.len() as int) =~= ev);
    let mut out: Vec<FolderEntry> = Vec::new();
    let mut j: usize = 0;
    while j < sorted.len()
        invariant
            j <= sorted.len(),
            entries_view(out@) == keyed_view(sorted@).take(j as int),
        decreases sorted.len() - j,
    {
        let k = &sorted[j];
        assert(keyed_view(sorted@)[j as int] == entry_view(sorted@[j as int].entry));
        let ghost prev = out@;
        let f = FolderEntry { name: copy_str(k.entry.name.as_str()), is_git: k.entry.is_git };
        out.push(f);
        assert(entries_view(out@) =~= entries_view(prev).push(entry_view(f)));
        assert(keyed_view(sorted@).take(j + 1) =~= keyed_view(sorted@).take(j as int).push(
            keyed_view(sorted@)[j as int],
        ));
        j += 1;
        assert(entries_view(out@) =~= keyed_view(sorted@).take(j as int));
    }
    assert(keyed_view(sorted@).take(sorted.len() as int) =~= keyed_view(sorted@));
    out
}


/// The picker over a list that is now `len` rows long: the selection
/// clamped to the last row, the first shown row to the selection.
pub open spec fn spec_clamp_picker(p: (nat, nat), len: nat) -> (nat, nat) {
    let last = if len > 0 {
        (len - 1) as nat
    } else {
        0
    };
    let i = if p.0 < last {
        p.0
    } else {
        last
    };
    (i, if p.1 < i {
        p.1
    } else {
        i
    })
}

impl ListPicker {
    /// Keeps the picker within a list that is now `len` rows long.
    pub fn clamp_to(&mut self, len: usize)
        ensures
            (final(self).index as nat, final(self).scroll as nat) == spec_clamp_picker(
                (old(self).index as nat, old(self).scroll as nat),
                len as nat,
            ),
    {
        let last = if len > 0 {
            len - 1
        } else {
            0
        };
        if self.index > last {
            self.index = last;
        }
        if self.scroll > self.index {
            self.scroll = self.index;
        }
    }
}

/// The position of the first entry of `names` equal to `name`, or 0.
pub open spec fn spec_position_or_first(names: Seq<Seq<char>>, name: Seq<char>) -> nat
    decreases names.len(),
{
    if names.len() == 0 {
        0
    } else if names.drop_last().contains(name) {
        spec_position_or_first(names.drop_last(), name)
    } else if names.last() == name {
        (names.len() - 1) as nat
    } else {
        0
    }
}

/// The position of the first entry of `names` equal to `name`, or 0 when
/// there is none: where the branch switcher starts.
pub fn position_or_first(names: &Vec<String>, name: &str) -> (r: usize)
    ensures
        r == spec_position_or_first(names@.map_values(|s: String| s@), name@),
{
    let ghost nv = names@.map_values(|s: String| s@);
    let mut i: usize = 0;
    while i < names.len()
        invariant
            i <= names.len(),
            nv == names@.map_values(|s: String| s@),
            forall|j: int| 0 <= j < i ==> nv[j] != name@,
        decreases names.len() - i,
    {
        if same_text(names[i].as_str(), name) {
            proof {
                lemma_position_first(nv, name@, i as int);
            }
            return i;
        }
        i += 1;
    }
    proof {
        lemma_position_absent(nv, name@);
    }
    0
}

/// The position found is that of the first equal entry.
proof fn lemma_position_first(names: Seq<Seq<char>>, name: Seq<char>, i: int)
    requires
        0 <= i < names.len(),
        names[i] == name,
        forall|j: int| 0 <= j < i ==> names[j] != name,
    ensures
        spec_position_or_first(names, name) == i,
    decreases names.len(),
{
    if i < names.len() - 1 {
        let p = names.drop_last();
        assert(p[i] == name);
        assert(p.contains(name));
        lemma_position_first(p, name, i);
    } else {
        assert(!names.drop_last().contains(name)) by {
            if names.drop_last().contains(name) {
                let j = choose|j: int| 0 <= j < names.drop_last().len() && names.drop_last()[j] == name;
                assert(names[j] == name);
            }
        }
    }
}

/// Without an equal entry the position is 0.
proof fn lemma_position_absent(names: Seq<Seq<char>>, name: Seq<char>)
    requires
        forall|j: int| 0 <= j < names.len() ==> names[j] != name,
    ensures
        spec_position_or_first(names, name) == 0,
    decreases names.len(),
{
    if names.len() > 0 {
        assert(!names.drop_last().contains(name)) by {
            if names.drop_last().contains(name) {
                let j = choose|j: int| 0 <= j < names.drop_last().len() && names.drop_last()[j] == name;
                assert(names[j] == name);
            }
        }
        assert(names.last() == names[names.len() - 1]);
    }
}

} // verus!
