//! Syntax highlighting of diff hunks: the colour role of each token kind,
//! the source text a hunk hands to the parser, and the column spans that
//! the parser's tokens give each diff line. Parsing itself is tree-sitter's.

use vstd::prelude::*;

use tree_sitter::{Language, Node, Parser, Tree, TreeCursor};

use crate::git_model::{normalize_chars, spans_view, spec_normalize};
use crate::models::{ColorSpan, LineStyle, SpanColor};
use crate::text::{
    char_utf8_len, chars_of, copy_str, has_prefix, lemma_utf8_len_bounds, lemma_utf8_len_concat,
    lemma_utf8_len_subrange, matches_at, occurs_at, push_str_chars, starts_with, utf8_len,
    utf8_len_fits, utf8_len_of, views,
};
use crate::theme::{ascii_lower, lower_chars};

verus! {

broadcast use vstd::string::group_string_axioms;

// ─────────────────────────────────────────────────────────────────
//  tree-sitter
// ─────────────────────────────────────────────────────────────────

/// tree-sitter's parser.
#[verifier::external_type_specification]
#[verifier::external_body]
pub struct ExParser(Parser);

/// A tree-sitter syntax tree.
#[verifier::external_type_specification]
#[verifier::external_body]
pub struct ExTree(Tree);

/// A node of a tree-sitter syntax tree.
#[verifier::external_type_specification]
#[verifier::external_body]
pub struct ExNode<'tree>(Node<'tree>);

/// A cursor walking a tree-sitter syntax tree.
#[verifier::external_type_specification]
#[verifier::external_body]
pub struct ExTreeCursor<'cursor>(TreeCursor<'cursor>);

/// `Parser::new`: a parser with no grammar assigned. Nothing is stated.
#[verifier::external_body]
pub(crate) fn new_parser() -> Parser {
    Parser::new()
}

/// The plain value of a syntax node: its kind, start byte, end byte and
/// number of children.
pub type NodeView = (Seq<char>, nat, nat, nat);

/// The nodes of a tree: its root and every node below it, in the order of
/// their descendant indices (the root is index 0).
pub uninterp spec fn tree_nodes(t: Tree) -> Seq<NodeView>;

/// The nodes of the subtree under a node: the node itself (index 0) and
/// every node below it, in the order of their descendant indices.
pub uninterp spec fn node_subtree(n: Node) -> Seq<NodeView>;

/// The nodes of the subtree a cursor was made from, in the order of their
/// descendant indices.
pub uninterp spec fn cursor_subtree(c: TreeCursor) -> Seq<NodeView>;

/// The descendant index of the node a cursor stands on.
pub uninterp spec fn cursor_at(c: TreeCursor) -> nat;

/// The nodes of the tree that parsing `source` with the grammar of `lang`
/// gives.
pub uninterp spec fn parsed_nodes(lang: SyntaxLang, source: Seq<char>) -> Seq<NodeView>;

/// `Parser::set_language` with the bundled grammar of `lang`
/// (`tree_sitter_rust::LANGUAGE` or `tree_sitter_toml_ng::LANGUAGE`), then
/// `Parser::parse` of `source` with no earlier tree. Both grammars have an
/// ABI version the library accepts (15 and 14, within 13..=15), so the
/// grammar is set; the parser has no timeout or cancellation flag, so the
/// parse gives a tree, and the tree depends on the grammar and the source
/// alone.
#[verifier::external_body]
fn parse_in(parser: &mut Parser, lang: SyntaxLang, source: &str) -> (r: Option<Tree>)
    ensures
        r is Some,
        tree_nodes(r->0) == parsed_nodes(lang, source@),
{
    let language: Language = match lang {
        SyntaxLang::Rust => tree_sitter_rust::LANGUAGE.into(),
        SyntaxLang::Toml => tree_sitter_toml_ng::LANGUAGE.into(),
    };
    parser.set_language(&language).ok()?;
    parser.parse(source, None)
}

/// `Tree::root_node`: the root, whose subtree is the whole tree.
#[verifier::external_body]
fn tree_root(tree: &Tree) -> (r: Node<'_>)
    ensures
        node_subtree(r) == tree_nodes(*tree),
{
    tree.root_node()
}

/// `Node::descendant_count`: the number of nodes in the subtree, the node
/// itself included.
#[verifier::external_body]
fn node_descendant_count(node: &Node) -> (n: usize)
    ensures
        n == node_subtree(*node).len(),
{
    node.descendant_count()
}

/// `Node::walk`: a cursor made from `node`, standing on it.
#[verifier::external_body]
fn node_walk<'tree>(node: &Node<'tree>) -> (c: TreeCursor<'tree>)
    ensures
        cursor_subtree(c) == node_subtree(*node),
        cursor_at(c) == 0,
{
    node.walk()
}

/// `TreeCursor::goto_descendant`: moves the cursor to the descendant with
/// the given index of the node it was made from (0 being that node).
#[verifier::external_body]
fn cursor_goto_descendant(cursor: &mut TreeCursor, index: usize)
    requires
        index < cursor_subtree(*old(cursor)).len(),
    ensures
        cursor_subtree(*final(cursor)) == cursor_subtree(*old(cursor)),
        cursor_at(*final(cursor)) == index,
{
    cursor.goto_descendant(index)
}

/// `TreeCursor::node`: the node the cursor stands on.
#[verifier::external_body]
fn cursor_node<'tree>(cursor: &TreeCursor<'tree>) -> (n: Node<'tree>)
    ensures
        cursor_at(*cursor) < cursor_subtree(*cursor).len() ==> node_subtree(n)[0]
            == cursor_subtree(*cursor)[cursor_at(*cursor) as int],
{
    cursor.node()
}

/// `Node::child_count`: the node's number of children.
#[verifier::external_body]
fn node_child_count(node: &Node) -> (n: usize)
    ensures
        n == node_subtree(*node)[0].3,
{
    node.child_count()
}

/// `Node::kind`: the grammar's name for the node's type.
#[verifier::external_body]
fn node_kind(node: &Node) -> (k: &'static str)
    ensures
        k@ == node_subtree(*node)[0].0,
{
    node.kind()
}

/// `Node::start_byte`: where the node starts in the source.
#[verifier::external_body]
fn node_start_byte(node: &Node) -> (b: usize)
    ensures
        b == node_subtree(*node)[0].1,
{
    node.start_byte()
}

/// `Node::end_byte`: where the node ends in the source.
#[verifier::external_body]
fn node_end_byte(node: &Node) -> (b: usize)
    ensures
        b == node_subtree(*node)[0].2,
{
    node.end_byte()
}


// ─────────────────────────────────────────────────────────────────
//  Languages and token colours
// ─────────────────────────────────────────────────────────────────

/// The languages whose diffs are highlighted.
#[derive(Clone, Copy, Debug, PartialEq, Eq, Structural)]
pub enum SyntaxLang {
    Rust,
    Toml,
}

/// `p` occurs somewhere in `s`.
pub open spec fn contains(s: Seq<char>, p: Seq<char>) -> bool {
    exists|k: int| occurs_at(s, p, k)
}

/// Whether `p` occurs somewhere in `v`.
pub fn contains_str(v: &Vec<char>, p: &str) -> (b: bool)
    ensures
        b == contains(v@, p@),
{
    let mut k: usize = 0;
    while k < v.len()
        invariant
            k <= v.len(),
            forall|j: int| 0 <= j < k ==> !occurs_at(v@, p@, j),
        decreases v.len() - k,
    {
        if matches_at(v, k, p) {
            return true;
        }
        k += 1;
    }
    if matches_at(v, k, p) {
        return true;
    }
    assert forall|j: int| !occurs_at(v@, p@, j) by {
        if 0 <= j <= k {
        }
    }
    false
}

/// The Rust keywords that are highlighted.
pub open spec fn is_rust_keyword(k: Seq<char>) -> bool {
    ||| k == "fn"@
    ||| k == "let"@
    ||| k == "pub"@
    ||| k == "impl"@
    ||| k == "struct"@
    ||| k == "enum"@
    ||| k == "use"@
    ||| k == "mod"@
    ||| k == "if"@
    ||| k == "else"@
    ||| k == "match"@
    ||| k == "for"@
    ||| k == "while"@
    ||| k == "loop"@
    ||| k == "return"@
    ||| k == "async"@
    ||| k == "await"@
    ||| k == "const"@
    ||| k == "static"@
    ||| k == "trait"@
    ||| k == "where"@
    ||| k == "mut"@
    ||| k == "in"@
    ||| k == "as"@
    ||| k == "move"@
    ||| k == "crate"@
    ||| k == "super"@
    ||| k == "self"@
    ||| k == "Self"@
}

/// The colour role of a token of the given kind: for Rust, comments,
/// string and character literals, numbers, the keywords above, type names
/// and booleans; for TOML, comments, strings, numbers, keys and booleans.
/// Other kinds are not highlighted.
pub open spec fn spec_syntax_color(lang: SyntaxLang, kind: Seq<char>) -> Option<SpanColor> {
    match lang {
        SyntaxLang::Rust => if contains(kind, "comment"@) {
            Some(SpanColor::Comment)
        } else if kind == "string_literal"@ || kind == "raw_string_literal"@ || kind
            == "char_literal"@ {
            Some(SpanColor::Str)
        } else if kind == "integer_literal"@ || kind == "float_literal"@ {
            Some(SpanColor::Number)
        } else if is_rust_keyword(kind) {
            Some(SpanColor::Keyword)
        } else if kind == "type_identifier"@ || kind == "primitive_type"@ {
            Some(SpanColor::Type)
        } else if kind == "true"@ || kind == "false"@ {
            Some(SpanColor::Number)
        } else {
            None
        },
        SyntaxLang::Toml => if contains(kind, "comment"@) {
            Some(SpanColor::Comment)
        } else if contains(kind, "string"@) {
            Some(SpanColor::Str)
        } else if kind == "integer"@ || kind == "float"@ {
            Some(SpanColor::Number)
        } else if contains(kind, "key"@) {
            Some(SpanColor::Type)
        } else if kind == "boolean"@ || kind == "true"@ || kind == "false"@ {
            Some(SpanColor::Number)
        } else {
            None
        },
    }
}

/// Where `p` occurs in `s`, some position of `s` starts with the first two
/// characters of `p`.
proof fn lemma_occurs_starts(s: Seq<char>, p: Seq<char>)
    requires
        p.len() >= 2,
        contains(s, p),
    ensures
        exists|i: int| 0 <= i && i + 1 < s.len() && #[trigger] s[i] == p[0] && s[i + 1] == p[1],
{
    let k = choose|k: int| occurs_at(s, p, k);
    assert(s.subrange(k, k + p.len())[0] == p[0]);
    assert(s.subrange(k, k + p.len())[1] == p[1]);
    assert(s[k] == p[0] && s[k + 1] == p[1]);
}

/// `p` does not occur in `s` where no position of `s` starts with the
/// first two characters of `p`.
proof fn lemma_absent(s: Seq<char>, p: Seq<char>)
    requires
        p.len() >= 2,
        !exists|i: int| 0 <= i && i + 1 < s.len() && #[trigger] s[i] == p[0] && s[i + 1] == p[1],
    ensures
        !contains(s, p),
{
    if contains(s, p) {
        lemma_occurs_starts(s, p);
    }
}

/// Every highlighted Rust keyword is at most six characters long.
proof fn lemma_keyword_len(k: Seq<char>)
    ensures
        is_rust_keyword(k) ==> k.len() <= 6,
{
    reveal_strlit("fn");
    reveal_strlit("let");
    reveal_strlit("pub");
    reveal_strlit("impl");
    reveal_strlit("struct");
    reveal_strlit("enum");
    reveal_strlit("use");
    reveal_strlit("mod");
    reveal_strlit("if");
    reveal_strlit("else");
    reveal_strlit("match");
    reveal_strlit("for");
    reveal_strlit("while");
    reveal_strlit("loop");
    reveal_strlit("return");
    reveal_strlit("async");
    reveal_strlit("await");
    reveal_strlit("const");
    reveal_strlit("static");
    reveal_strlit("trait");
    reveal_strlit("where");
    reveal_strlit("mut");
    reveal_strlit("in");
    reveal_strlit("as");
    reveal_strlit("move");
    reveal_strlit("crate");
    reveal_strlit("super");
    reveal_strlit("self");
    reveal_strlit("Self");
}

/// How Rust tokens are coloured, whatever their kind: a kind that names a
/// comment is a comment; string, raw string and character literals, and
/// only they, are strings; integer and float literals and the booleans, and
/// only they, are numbers; `type_identifier` and `primitive_type`, and only
/// they, are types; the highlighted keywords are keywords.
pub proof fn lemma_rust_token_roles(kind: Seq<char>)
    ensures
        contains(kind, "comment"@) ==> spec_syntax_color(SyntaxLang::Rust, kind) == Some(SpanColor::Comment),
        spec_syntax_color(SyntaxLang::Rust, kind) == Some(SpanColor::Str) <==> kind == "string_literal"@
            || kind == "raw_string_literal"@ || kind == "char_literal"@,
        spec_syntax_color(SyntaxLang::Rust, kind) == Some(SpanColor::Number) <==> kind == "integer_literal"@
            || kind == "float_literal"@ || kind == "true"@ || kind == "false"@,
        spec_syntax_color(SyntaxLang::Rust, kind) == Some(SpanColor::Type) <==> kind == "type_identifier"@
            || kind == "primitive_type"@,
        is_rust_keyword(kind) ==> spec_syntax_color(SyntaxLang::Rust, kind) == Some(SpanColor::Keyword),
{
    reveal_strlit("comment");
    reveal_strlit("string_literal");
    reveal_strlit("raw_string_literal");
    reveal_strlit("char_literal");
    reveal_strlit("integer_literal");
    reveal_strlit("float_literal");
    reveal_strlit("type_identifier");
    reveal_strlit("primitive_type");
    reveal_strlit("true");
    reveal_strlit("false");
    lemma_keyword_len(kind);
    assert("string_literal"@[0] == 's');
    assert("raw_string_literal"@[0] == 'r');
    assert("char_literal"@[0] == 'c');
    assert("integer_literal"@[0] == 'i');
    assert("float_literal"@[0] == 'f');
    assert("type_identifier"@[0] == 't');
    assert("primitive_type"@[0] == 'p');
    assert("true"@[0] == 't');
    assert("false"@[0] == 'f');
    if kind.len() > 0 {
        assert(kind[0] == kind[0]);
    }
    if kind == "string_literal"@ || kind == "raw_string_literal"@ || kind == "char_literal"@
        || kind == "integer_literal"@ || kind == "float_literal"@ || kind == "type_identifier"@
        || kind == "primitive_type"@ || kind == "true"@ || kind == "false"@ {
        lemma_absent(kind, "comment"@);
    }
    if kind == "true"@ || kind == "false"@ {
        reveal_strlit("fn");
        reveal_strlit("let");
        reveal_strlit("pub");
        reveal_strlit("impl");
        reveal_strlit("struct");
        reveal_strlit("enum");
        reveal_strlit("use");
        reveal_strlit("mod");
        reveal_strlit("if");
        reveal_strlit("else");
        reveal_strlit("match");
        reveal_strlit("for");
        reveal_strlit("while");
        reveal_strlit("loop");
        reveal_strlit("return");
        reveal_strlit("async");
        reveal_strlit("await");
        reveal_strlit("const");
        reveal_strlit("static");
        reveal_strlit("trait");
        reveal_strlit("where");
        reveal_strlit("mut");
        reveal_strlit("in");
        reveal_strlit("as");
        reveal_strlit("move");
        reveal_strlit("crate");
        reveal_strlit("super");
        reveal_strlit("self");
        reveal_strlit("Self");
        assert("fn"@[0] == 'f');
        assert("let"@[0] == 'l');
        assert("pub"@[0] == 'p');
        assert("impl"@[0] == 'i');
        assert("struct"@[0] == 's');
        assert("enum"@[0] == 'e');
        assert("use"@[0] == 'u');
        assert("mod"@[0] == 'm');
        assert("if"@[0] == 'i');
        assert("else"@[0] == 'e');
        assert("match"@[0] == 'm');
        assert("for"@[0] == 'f');
        assert("while"@[0] == 'w');
        assert("loop"@[0] == 'l');
        assert("return"@[0] == 'r');
        assert("async"@[0] == 'a');
        assert("await"@[0] == 'a');
        assert("const"@[0] == 'c');
        assert("static"@[0] == 's');
        assert("trait"@[0] == 't');
        assert("where"@[0] == 'w');
        assert("mut"@[0] == 'm');
        assert("in"@[0] == 'i');
        assert("as"@[0] == 'a');
        assert("move"@[0] == 'm');
        assert("crate"@[0] == 'c');
        assert("super"@[0] == 's');
        assert("self"@[0] == 's');
        assert("Self"@[0] == 'S');
        assert(kind[0] == 't' || kind[0] == 'f');
    }
    if is_rust_keyword(kind) {
        reveal_strlit("fn");
        reveal_strlit("let");
        reveal_strlit("pub");
        reveal_strlit("impl");
        reveal_strlit("struct");
        reveal_strlit("enum");
        reveal_strlit("use");
        reveal_strlit("mod");
        reveal_strlit("if");
        reveal_strlit("else");
        reveal_strlit("match");
        reveal_strlit("for");
        reveal_strlit("while");
        reveal_strlit("loop");
        reveal_strlit("return");
        reveal_strlit("async");
        reveal_strlit("await");
        reveal_strlit("const");
        reveal_strlit("static");
        reveal_strlit("trait");
        reveal_strlit("where");
        reveal_strlit("mut");
        reveal_strlit("in");
        reveal_strlit("as");
        reveal_strlit("move");
        reveal_strlit("crate");
        reveal_strlit("super");
        reveal_strlit("self");
        reveal_strlit("Self");
        assert(!contains(kind, "comment"@)) by {
            if contains(kind, "comment"@) {
                let k = choose|k: int| occurs_at(kind, "comment"@, k);
                assert(occurs_at(kind, "comment"@, k));
            }
        };
    }
}

/// How TOML tokens are coloured, whatever their kind: a kind that names a
/// comment is a comment; any other that names a string is a string;
/// integers, floats and booleans are numbers; any other kind that names a
/// key is a key.
pub proof fn lemma_toml_token_roles(kind: Seq<char>)
    ensures
        contains(kind, "comment"@) ==> spec_syntax_color(SyntaxLang::Toml, kind) == Some(SpanColor::Comment),
        !contains(kind, "comment"@) && contains(kind, "string"@) ==> spec_syntax_color(SyntaxLang::Toml, kind)
            == Some(SpanColor::Str),
        kind == "integer"@ || kind == "float"@ || kind == "boolean"@ || kind == "true"@ || kind == "false"@
            ==> spec_syntax_color(SyntaxLang::Toml, kind) == Some(SpanColor::Number),
        !contains(kind, "comment"@) && !contains(kind, "string"@) && contains(kind, "key"@) ==> spec_syntax_color(
            SyntaxLang::Toml,
            kind,
        ) == Some(SpanColor::Type),
{
    reveal_strlit("comment");
    reveal_strlit("string");
    reveal_strlit("key");
    reveal_strlit("integer");
    reveal_strlit("float");
    reveal_strlit("boolean");
    reveal_strlit("true");
    reveal_strlit("false");
    if kind == "integer"@ || kind == "float"@ || kind == "boolean"@ || kind == "true"@ || kind == "false"@ {
        lemma_absent(kind, "comment"@);
        lemma_absent(kind, "string"@);
    }
    if kind == "integer"@ || kind == "float"@ || kind == "boolean"@ || kind == "true"@ || kind == "false"@ {
        lemma_absent(kind, "key"@);
    }
}

/// Whether `v` is exactly `s`.
fn is(v: &Vec<char>, s: &str) -> (b: bool)
    ensures
        b == (v@ == s@),
{
    let w = chars_of(s);
    if v.len() != w.len() {
        return false;
    }
    let mut i: usize = 0;
    while i < v.len()
        invariant
            i <= v.len() == w.len(),
            w@ == s@,
            forall|j: int| 0 <= j < i ==> v@[j] == w@[j],
        decreases v.len() - i,
    {
        if v[i] != w[i] {
            return false;
        }
        i += 1;
    }
    assert(v@ =~= w@);
    true
}

/// Whether `k` is one of the highlighted Rust keywords.
fn rust_keyword(k: &Vec<char>) -> (b: bool)
    ensures
        b == is_rust_keyword(k@),
{
    is(k, "fn") || is(k, "let") || is(k, "pub") || is(k, "impl") || is(k, "struct") || is(k, "enum")
        || is(k, "use") || is(k, "mod") || is(k, "if") || is(k, "else") || is(k, "match") || is(
        k,
        "for",
    ) || is(k, "while") || is(k, "loop") || is(k, "return") || is(k, "async") || is(k, "await")
        || is(k, "const") || is(k, "static") || is(k, "trait") || is(k, "where") || is(k, "mut")
        || is(k, "in") || is(k, "as") || is(k, "move") || is(k, "crate") || is(k, "super") || is(
        k,
        "self",
    ) || is(k, "Self")
}

/// The colour role of a token of kind `kind` in `lang`.
pub fn syntax_color(lang: SyntaxLang, kind: &str) -> (r: Option<SpanColor>)
    ensures
        r == spec_syntax_color(lang, kind@),
{
    let k = chars_of(kind);
    match lang {
        SyntaxLang::Rust => {
            if contains_str(&k, "comment") {
                Some(SpanColor::Comment)
            } else if is(&k, "string_literal") || is(&k, "raw_string_literal") || is(
                &k,
                "char_literal",
            ) {
                Some(SpanColor::Str)
            } else if is(&k, "integer_literal") || is(&k, "float_literal") {
                Some(SpanColor::Number)
            } else if rust_keyword(&k) {
                Some(SpanColor::Keyword)
            } else if is(&k, "type_identifier") || is(&k, "primitive_type") {
                Some(SpanColor::Type)
            } else if is(&k, "true") || is(&k, "false") {
                Some(SpanColor::Number)
            } else {
                None
            }
        },
        SyntaxLang::Toml => {
            if contains_str(&k, "comment") {
                Some(SpanColor::Comment)
            } else if contains_str(&k, "string") {
                Some(SpanColor::Str)
            } else if is(&k, "integer") || is(&k, "float") {
                Some(SpanColor::Number)
            } else if contains_str(&k, "key") {
                Some(SpanColor::Type)
            } else if is(&k, "boolean") || is(&k, "true") || is(&k, "false") {
                Some(SpanColor::Number)
            } else {
                None
            }
        },
    }
}


/// `s` ends with `p`.
pub open spec fn has_suffix(s: Seq<char>, p: Seq<char>) -> bool {
    p.len() <= s.len() && s.skip(s.len() - p.len()) == p
}

/// Whether `v` ends with `p`.
fn ends_with(v: &Vec<char>, p: &str) -> (b: bool)
    ensures
        b == has_suffix(v@, p@),
{
    let n = chars_of(p).len();
    if n > v.len() {
        return false;
    }
    let b = matches_at(v, v.len() - n, p);
    assert(b == has_suffix(v@, p@));
    b
}

/// The language of a file, by its extension in any ASCII case: `.rs` is
/// Rust, `.toml` is TOML.
pub open spec fn spec_language(path: Seq<char>) -> Option<SyntaxLang> {
    let p = ascii_lower(path);
    if has_suffix(p, ".rs"@) {
        Some(SyntaxLang::Rust)
    } else if has_suffix(p, ".toml"@) {
        Some(SyntaxLang::Toml)
    } else {
        None
    }
}

/// The language of the file at `path`.
pub fn language_for_path(path: &str) -> (r: Option<SyntaxLang>)
    ensures
        r == spec_language(path@),
{
    let p = lower_chars(&chars_of(path));
    if ends_with(&p, ".rs") {
        Some(SyntaxLang::Rust)
    } else if ends_with(&p, ".toml") {
        Some(SyntaxLang::Toml)
    } else {
        None
    }
}

// ─────────────────────────────────────────────────────────────────
//  Byte offsets and columns
// ─────────────────────────────────────────────────────────────────

/// The largest `k <= n` whose first `k` characters fit in `b` bytes.
pub open spec fn col_from(s: Seq<char>, b: nat, n: nat) -> nat
    decreases n,
{
    if n == 0 {
        0
    } else if utf8_len(s.take(n as int)) <= b {
        n
    } else {
        col_from(s, b, (n - 1) as nat)
    }
}

/// The column of byte `b` of `s`: the number of characters that lie
/// wholly within its first `b` bytes (all of them when `b` is past the
/// end).
pub open spec fn byte_col(s: Seq<char>, b: nat) -> nat {
    col_from(s, b, s.len())
}

/// A longer prefix is no shorter in UTF-8.
proof fn lemma_prefix_utf8_mono(s: Seq<char>, i: int, j: int)
    requires
        0 <= i <= j <= s.len(),
    ensures
        utf8_len(s.take(i)) <= utf8_len(s.take(j)),
{
    lemma_utf8_len_subrange(s.take(j), 0, i);
    assert(s.take(j).subrange(0, i) =~= s.take(i));
}

/// `col_from` finds `k` when the first `k` characters fit and the first
/// `k + 1` do not.
proof fn lemma_col_from(s: Seq<char>, b: nat, k: nat, n: nat)
    requires
        k <= n <= s.len(),
        utf8_len(s.take(k as int)) <= b,
        k == s.len() || utf8_len(s.take(k + 1 as int)) > b,
    ensures
        col_from(s, b, n) == k,
    decreases n,
{
    if n > k {
        lemma_prefix_utf8_mono(s, k + 1 as int, n as int);
        lemma_col_from(s, b, k, (n - 1) as nat);
    }
}

/// The column of byte `byte_offset` of `s`.
pub fn byte_to_col(s: &str, byte_offset: usize) -> (c: usize)
    ensures
        c == byte_col(s@, byte_offset as nat),
{
    let v = chars_of(s);
    col_of_byte(&v, byte_offset)
}

/// The column of byte `b` of `v`.
fn col_of_byte(v: &Vec<char>, b: usize) -> (c: usize)
    ensures
        c == byte_col(v@, b as nat),
{
    let mut acc: usize = 0;
    let mut k: usize = 0;
    assert(v@.take(0) =~= Seq::<char>::empty());
    while k < v.len() && char_utf8_len(v[k]) <= b - acc
        invariant
            k <= v.len(),
            acc <= b,
            acc == utf8_len(v@.take(k as int)),
        decreases v.len() - k,
    {
        assert(v@.take(k + 1).drop_last() =~= v@.take(k as int));
        acc = acc + char_utf8_len(v[k]);
        k += 1;
    }
    proof {
        if k < v.len() {
            assert(v@.take(k + 1).drop_last() =~= v@.take(k as int));
        }
        lemma_col_from(v@, b as nat, k as nat, v.len() as nat);
    }
    k
}

// ─────────────────────────────────────────────────────────────────
//  Token spans
// ─────────────────────────────────────────────────────────────────

/// A leaf token of a parsed source: its kind and byte range.
#[derive(Clone, Debug)]
pub struct SyntaxToken {
    pub kind: String,
    pub start: usize,
    pub end: usize,
}

/// The plain value of a token: kind, start byte, end byte.
pub type TokenView = (Seq<char>, nat, nat);

/// The plain values of tokens.
pub open spec fn tokens_view(v: Seq<SyntaxToken>) -> Seq<TokenView> {
    v.map_values(|t: SyntaxToken| (t.kind@, t.start as nat, t.end as nat))
}

/// The span that token `t` gives the code line `code`, whose text lies at
/// bytes `[ls, le)` of the parsed source: where the token has a colour role
/// and overlaps the line, its overlap in columns, shifted by one past the
/// diff marker; nothing where the overlap covers no whole character.
pub open spec fn token_span(lang: SyntaxLang, code: Seq<char>, ls: nat, le: nat, t: TokenView) -> Option<
    ColorSpan,
> {
    match spec_syntax_color(lang, t.0) {
        None => None,
        Some(color) => if t.2 <= t.1 || t.2 <= ls || t.1 >= le {
            None
        } else {
            let os = (if t.1 > ls {
                t.1
            } else {
                ls
            }) - ls;
            let oe = (if t.2 < le {
                t.2
            } else {
                le
            }) - ls;
            if oe <= os {
                None
            } else {
                let c0 = byte_col(code, os as nat);
                let c1 = byte_col(code, oe as nat);
                if c1 <= c0 {
                    None
                } else {
                    Some(ColorSpan { start_col: (1 + c0) as usize, end_col: (1 + c1) as usize, color })
                }
            }
        },
    }
}

/// The spans that `toks`, in order, give the code line `code` at bytes
/// `[ls, le)` of the source.
pub open spec fn token_spans(
    lang: SyntaxLang,
    code: Seq<char>,
    ls: nat,
    le: nat,
    toks: Seq<TokenView>,
) -> Seq<ColorSpan>
    decreases toks.len(),
{
    if toks.len() == 0 {
        seq![]
    } else {
        let prev = token_spans(lang, code, ls, le, toks.drop_last());
        match token_span(lang, code, ls, le, toks.last()) {
            Some(sp) => prev.push(sp),
            None => prev,
        }
    }
}

/// Every column is at most the length of the text.
proof fn lemma_col_from_le(s: Seq<char>, b: nat, n: nat)
    ensures
        col_from(s, b, n) <= n,
    decreases n,
{
    if n > 0 {
        lemma_col_from_le(s, b, (n - 1) as nat);
    }
}

/// Appends to `out` the span that token `t` gives the code line `code` at
/// bytes `[ls, le)`.
fn push_token_span(
    out: &mut Vec<ColorSpan>,
    lang: SyntaxLang,
    code: &Vec<char>,
    ls: usize,
    le: usize,
    t: &SyntaxToken,
)
    requires
        code@.len() < usize::MAX,
        ls <= le,
    ensures
        final(out)@ == match token_span(lang, code@, ls as nat, le as nat, (t.kind@, t.start as nat, t.end as nat)) {
            Some(sp) => old(out)@.push(sp),
            None => old(out)@,
        },
{
    let color = match syntax_color(lang, t.kind.as_str()) {
        Some(c) => c,
        None => {
            return;
        },
    };
    if t.end <= t.start || t.end <= ls || t.start >= le {
        return;
    }
    let os = (if t.start > ls {
        t.start
    } else {
        ls
    }) - ls;
    let oe = (if t.end < le {
        t.end
    } else {
        le
    }) - ls;
    if oe <= os {
        return;
    }
    let c0 = col_of_byte(code, os);
    let c1 = col_of_byte(code, oe);
    if c1 <= c0 {
        return;
    }
    proof {
        lemma_col_from_le(code@, oe as nat, code@.len());
    }
    out.push(ColorSpan { start_col: 1 + c0, end_col: 1 + c1, color });
}

/// Appends to `out` the spans that `toks` give the code line `code` at
/// bytes `[ls, le)`.
fn push_token_spans(
    out: &mut Vec<ColorSpan>,
    lang: SyntaxLang,
    code: &Vec<char>,
    ls: usize,
    le: usize,
    toks: &Vec<SyntaxToken>,
)
    requires
        code@.len() < usize::MAX,
        ls <= le,
    ensures
        final(out)@ == old(out)@ + token_spans(lang, code@, ls as nat, le as nat, tokens_view(toks@)),
{
    let ghost start = out@;
    let ghost tv = tokens_view(toks@);
    let mut i: usize = 0;
    assert(tv.take(0) =~= Seq::<TokenView>::empty());
    while i < toks.len()
        invariant
            i <= toks.len(),
            tv == tokens_view(toks@),
            code@.len() < usize::MAX,
            ls <= le,
            out@ == start + token_spans(lang, code@, ls as nat, le as nat, tv.take(i as int)),
        decreases toks.len() - i,
    {
        assert(tv.take(i + 1).drop_last() =~= tv.take(i as int));
        push_token_span(out, lang, code, ls, le, &toks[i]);
        i += 1;
        assert(out@ =~= start + token_spans(lang, code@, ls as nat, le as nat, tv.take(i as int)));
    }
    assert(tv.take(toks.len() as int) =~= tv);
}

// ─────────────────────────────────────────────────────────────────
//  Ordering spans
// ─────────────────────────────────────────────────────────────────

/// `s` with `x` inserted after the last span that starts no later than it.
pub open spec fn insert_span(s: Seq<ColorSpan>, x: ColorSpan) -> Seq<ColorSpan>
    decreases s.len(),
{
    if s.len() == 0 || s.last().start_col <= x.start_col {
        s.push(x)
    } else {
        insert_span(s.drop_last(), x).push(s.last())
    }
}

/// `s` in order of starting column, spans that start at the same column
/// kept in their order (a stable sort).
pub open spec fn sort_spans(s: Seq<ColorSpan>) -> Seq<ColorSpan>
    decreases s.len(),
{
    if s.len() == 0 {
        s
    } else {
        insert_span(sort_spans(s.drop_last()), s.last())
    }
}

/// Inserts `x` into `v` after the last span that starts no later than it.
fn insert_span_into(v: &mut Vec<ColorSpan>, x: ColorSpan)
    ensures
        final(v)@ == insert_span(old(v)@, x),
{
    let mut tail: Vec<ColorSpan> = Vec::new();
    while v.len() > 0 && v[v.len() - 1].start_col > x.start_col
        invariant
            insert_span(old(v)@, x) == insert_span(v@, x) + tail@,
        decreases v.len(),
    {
        let ghost before = v@;
        let y = v.pop().unwrap();
        tail.insert(0, y);
        assert(before.drop_last() =~= v@);
        assert(insert_span(before, x) =~= insert_span(v@, x).push(y));
        assert(insert_span(v@, x).push(y) + tail@.drop_first() =~= insert_span(v@, x) + tail@);
    }
    v.push(x);
    let mut i: usize = 0;
    let ghost mid = v@;
    while i < tail.len()
        invariant
            i <= tail.len(),
            v@ == mid + tail@.take(i as int),
            insert_span(old(v)@, x) == mid + tail@,
        decreases tail.len() - i,
    {
        v.push(tail[i]);
        i += 1;
        assert(v@ =~= mid + tail@.take(i as int));
    }
    assert(tail@.take(tail.len() as int) =~= tail@);
}

/// Sorts `v` by starting column, keeping spans that start at the same
/// column in order.
pub fn sort_spans_by_start(v: &mut Vec<ColorSpan>)
    ensures
        final(v)@ == sort_spans(old(v)@),
{
    let ghost s = v@;
    let mut out: Vec<ColorSpan> = Vec::new();
    let mut i: usize = 0;
    assert(s.take(0) =~= Seq::<ColorSpan>::empty());
    while i < v.len()
        invariant
            i <= v.len(),
            v@ == s,
            out@ == sort_spans(s.take(i as int)),
        decreases v.len() - i,
    {
        assert(s.take(i + 1).drop_last() =~= s.take(i as int));
        insert_span_into(&mut out, v[i]);
        i += 1;
    }
    assert(s.take(s.len() as int) =~= s);
    *v = out;
}

// ─────────────────────────────────────────────────────────────────
//  Leaf tokens of a tree
// ─────────────────────────────────────────────────────────────────

/// The tokens of the leaves (the nodes without children) of `nodes`, in
/// order: each leaf's kind and byte range.
pub open spec fn leaves_of(nodes: Seq<NodeView>) -> Seq<TokenView>
    decreases nodes.len(),
{
    if nodes.len() == 0 {
        seq![]
    } else {
        let prev = leaves_of(nodes.drop_last());
        let n = nodes.last();
        if n.3 == 0 {
            prev.push((n.0, n.1, n.2))
        } else {
            prev
        }
    }
}

/// The leaves of `tree` (the nodes without children) in the order of their
/// descendant indices, each with its kind and byte range.
pub(crate) fn leaf_tokens(tree: &Tree) -> (r: Vec<SyntaxToken>)
    ensures
        tokens_view(r@) == leaves_of(tree_nodes(*tree)),
{
    let root = tree_root(tree);
    let count = node_descendant_count(&root);
    let mut cursor = node_walk(&root);
    let ghost nodes = tree_nodes(*tree);
    let mut out: Vec<SyntaxToken> = Vec::new();
    let mut i: usize = 0;
    assert(nodes.take(0) =~= Seq::<NodeView>::empty());
    while i < count
        invariant
            i <= count,
            count == nodes.len(),
            cursor_subtree(cursor) == nodes,
            tokens_view(out@) == leaves_of(nodes.take(i as int)),
        decreases count - i,
    {
        cursor_goto_descendant(&mut cursor, i);
        let node = cursor_node(&cursor);
        assert(nodes.take(i + 1).drop_last() =~= nodes.take(i as int));
        assert(nodes.take(i + 1).last() == nodes[i as int]);
        if node_child_count(&node) == 0 {
            out.push(
                SyntaxToken {
                    kind: copy_str(node_kind(&node)),
                    start: node_start_byte(&node),
                    end: node_end_byte(&node),
                },
            );
        }
        i += 1;
        assert(tokens_view(out@) =~= leaves_of(nodes.take(i as int)));
    }
    assert(nodes.take(count as int) =~= nodes);
    out
}


// ─────────────────────────────────────────────────────────────────
//  Hunks
// ─────────────────────────────────────────────────────────────────

/// A hunk header line: it starts with `@@`.
pub open spec fn is_hunk_start(l: Seq<char>) -> bool {
    has_prefix(l, "@@"@)
}

/// The header of the hunk that line `i` lies in: the last hunk header
/// before it, or -1 when there is none.
pub open spec fn hunk_header_before(dl: Seq<Seq<char>>, i: int) -> int
    decreases i,
{
    if i <= 0 || i > dl.len() {
        -1
    } else if is_hunk_start(dl[i - 1]) {
        i - 1
    } else {
        hunk_header_before(dl, i - 1)
    }
}

/// A line of code in a hunk: an added, removed or context line that starts
/// with its diff marker `+`, `-` or space.
pub open spec fn is_code_line(l: Seq<char>, st: LineStyle) -> bool {
    &&& (st == LineStyle::DiffAdd || st == LineStyle::DiffRemove || st == LineStyle::Normal)
    &&& l.len() > 0
    &&& (l[0] == '+' || l[0] == '-' || l[0] == ' ')
}

/// The code of a code line: the text after its marker, in display form.
pub open spec fn code_of(l: Seq<char>) -> Seq<char> {
    spec_normalize(l.skip(1))
}

/// The source text of the hunk whose header is line `h`, from its first
/// line up to line `i` (excluded): the code of each code line, each
/// followed by a newline.
pub open spec fn hunk_source(dl: Seq<Seq<char>>, sts: Seq<LineStyle>, h: int, i: int) -> Seq<char>
    decreases i - h,
{
    if i <= h + 1 {
        seq![]
    } else {
        hunk_source(dl, sts, h, i - 1) + (if is_code_line(dl[i - 1], sts[i - 1]) {
            code_of(dl[i - 1]).push('\n')
        } else {
            seq![]
        })
    }
}

/// The spans of line `i` of the hunk whose header is line `h`, given the
/// tokens of the hunk's source: those of its code at its byte range in the
/// source, in order of column; none for other lines.
pub open spec fn hunk_line_spans(
    lang: SyntaxLang,
    dl: Seq<Seq<char>>,
    sts: Seq<LineStyle>,
    h: int,
    toks: Seq<TokenView>,
    i: int,
) -> Seq<ColorSpan> {
    if !is_code_line(dl[i], sts[i]) {
        seq![]
    } else {
        let code = code_of(dl[i]);
        let ls = utf8_len(hunk_source(dl, sts, h, i));
        sort_spans(token_spans(lang, code, ls, ls + utf8_len(code), toks))
    }
}

/// The highlight spans of every diff line, given the tokens that parsing
/// each hunk's source gave (indexed by the hunk's header line): none when
/// no language applies or outside a hunk.
pub open spec fn spec_syntax_spans(
    lang: Option<SyntaxLang>,
    dl: Seq<Seq<char>>,
    sts: Seq<LineStyle>,
    toks: Seq<Seq<TokenView>>,
) -> Seq<Seq<ColorSpan>> {
    Seq::new(
        dl.len(),
        |i: int|
            match lang {
                None => seq![],
                Some(l) => {
                    let h = hunk_header_before(dl, i);
                    if h < 0 {
                        seq![]
                    } else {
                        hunk_line_spans(l, dl, sts, h, toks[h], i)
                    }
                },
            },
    )
}

/// The first hunk header at or after line `i`, or the number of lines when
/// there is none: where a hunk that started before `i` ends.
pub open spec fn next_hunk(dl: Seq<Seq<char>>, i: int) -> int
    decreases dl.len() - i,
{
    if i < 0 || i >= dl.len() {
        dl.len() as int
    } else if is_hunk_start(dl[i]) {
        i
    } else {
        next_hunk(dl, i + 1)
    }
}

/// The tokens of the hunk whose header is line `h`: the leaves of the tree
/// that parsing its whole source in `lang` gives, or none when the hunk has
/// no code lines.
pub open spec fn hunk_tokens(lang: SyntaxLang, dl: Seq<Seq<char>>, sts: Seq<LineStyle>, h: int) -> Seq<
    TokenView,
> {
    let source = hunk_source(dl, sts, h, next_hunk(dl, h + 1));
    if source.len() == 0 {
        seq![]
    } else {
        leaves_of(parsed_nodes(lang, source))
    }
}

/// The highlight spans of every diff line: each hunk's code lines, joined
/// into one source text and parsed in `lang`, coloured by the leaf tokens
/// of the parse; none when no language applies.
pub open spec fn spec_highlight(lang: Option<SyntaxLang>, dl: Seq<Seq<char>>, sts: Seq<LineStyle>) -> Seq<
    Seq<ColorSpan>,
> {
    match lang {
        None => spec_syntax_spans(lang, dl, sts, seq![]),
        Some(l) => spec_syntax_spans(
            lang,
            dl,
            sts,
            Seq::new(dl.len(), |h: int| hunk_tokens(l, dl, sts, h)),
        ),
    }
}

/// Whether `l` with style `st` is a code line.
fn code_line(l: &Vec<char>, st: LineStyle) -> (b: bool)
    ensures
        b == is_code_line(l@, st),
{
    (st == LineStyle::DiffAdd || st == LineStyle::DiffRemove || st == LineStyle::Normal) && l.len()
        > 0 && (l[0] == '+' || l[0] == '-' || l[0] == ' ')
}

/// The source text of a hunk only grows line by line.
proof fn lemma_hunk_source_grows(dl: Seq<Seq<char>>, sts: Seq<LineStyle>, h: int, i: int, j: int)
    requires
        h < i <= j,
    ensures
        utf8_len(hunk_source(dl, sts, h, i)) <= utf8_len(hunk_source(dl, sts, h, j)),
    decreases j - i,
{
    if i < j {
        lemma_hunk_source_grows(dl, sts, h, i, j - 1);
        let piece = if is_code_line(dl[j - 1], sts[j - 1]) {
            code_of(dl[j - 1]).push('\n')
        } else {
            seq![]
        };
        lemma_utf8_len_concat(hunk_source(dl, sts, h, j - 1), piece);
    }
}

/// Within a hunk, every line's hunk is the one whose header opened it.
proof fn lemma_header_before(dl: Seq<Seq<char>>, h: int, j: int)
    requires
        0 <= h < j <= dl.len(),
        is_hunk_start(dl[h]),
        forall|k: int| h < k < j ==> !is_hunk_start(#[trigger] dl[k]),
    ensures
        hunk_header_before(dl, j) == h,
    decreases j,
{
    if j > h + 1 {
        lemma_header_before(dl, h, j - 1);
    }
}

/// The spans of the lines of the hunk whose header is line `h` and which
/// ends before line `e`: its source is parsed, and each code line gets the
/// spans of the resulting tokens. Returns the tokens used.
fn highlight_hunk(
    parser: &mut Parser,
    lang: SyntaxLang,
    dl: &Vec<Vec<char>>,
    sts: &Vec<LineStyle>,
    h: usize,
    e: usize,
    spans: &mut Vec<Vec<ColorSpan>>,
) -> (toks: Ghost<Seq<TokenView>>)
    requires
        h < e <= dl.len(),
        e == next_hunk(views(dl@), h + 1),
        dl.len() == sts.len() == old(spans).len(),
        forall|j: int| h < j < e ==> (#[trigger] old(spans)@[j])@ == Seq::<ColorSpan>::empty(),
    ensures
        toks@ == hunk_tokens(lang, views(dl@), sts@, h as int),
        final(spans).len() == old(spans).len(),
        forall|j: int|
            0 <= j < old(spans).len() && !(h < j < e) ==> #[trigger] final(spans)@[j] == old(
                spans,
            )@[j],
        forall|j: int|
            h < j < e ==> (#[trigger] final(spans)@[j])@ == hunk_line_spans(
                lang,
                views(dl@),
                sts@,
                h as int,
                toks@,
                j,
            ),
{
    let ghost dlv = views(dl@);
    let mut source = String::new();
    let mut any = false;
    let mut i = h + 1;
    assert(source@ =~= hunk_source(dlv, sts@, h as int, i as int));
    while i < e
        invariant
            h < i <= e <= dl.len() == sts.len(),
            dlv == views(dl@),
            source@ == hunk_source(dlv, sts@, h as int, i as int),
            any <==> source@.len() > 0,
        decreases e - i,
    {
        let line = &dl[i];
        assert(dlv[i as int] == line@);
        if code_line(line, sts[i]) {
            let code = normalize_chars(line, 1, line.len());
            assert(line@.subrange(1, line@.len() as int) =~= line@.skip(1));
            push_str_chars(&mut source, code.as_str());
            source.push('\n');
            any = true;
        }
        i += 1;
        assert(source@ =~= hunk_source(dlv, sts@, h as int, i as int));
    }
    utf8_len_fits(source.as_str());
    let tokens: Vec<SyntaxToken> = if any {
        match parse_in(parser, lang, source.as_str()) {
            Some(tree) => leaf_tokens(&tree),
            None => Vec::new(),
        }
    } else {
        Vec::new()
    };
    assert(tokens_view(tokens@) == hunk_tokens(lang, dlv, sts@, h as int));
    let ghost tv = tokens_view(tokens@);
    let ghost full = hunk_source(dlv, sts@, h as int, e as int);
    let ghost start = spans@;
    let mut pos: usize = 0;
    i = h + 1;
    while i < e
        invariant
            h < i <= e <= dl.len() == sts.len() == spans.len(),
            dlv == views(dl@),
            tv == tokens_view(tokens@),
            utf8_len(full) <= usize::MAX,
            full == hunk_source(dlv, sts@, h as int, e as int),
            pos == utf8_len(hunk_source(dlv, sts@, h as int, i as int)),
            start.len() == spans.len(),
            forall|j: int| h < j < e ==> (#[trigger] start[j])@ == Seq::<ColorSpan>::empty(),
            forall|j: int| 0 <= j < spans.len() && !(h < j < i) ==> #[trigger] spans@[j] == start[j],
            forall|j: int|
                h < j < i ==> (#[trigger] spans@[j])@ == hunk_line_spans(
                    lang,
                    dlv,
                    sts@,
                    h as int,
                    tv,
                    j,
                ),
        decreases e - i,
    {
        let line = &dl[i];
        assert(dlv[i as int] == line@);
        if code_line(line, sts[i]) {
            let text = normalize_chars(line, 1, line.len());
            assert(line@.subrange(1, line@.len() as int) =~= line@.skip(1));
            let code = chars_of(text.as_str());
            let ghost piece = code@.push('\n');
            proof {
                lemma_hunk_source_grows(dlv, sts@, h as int, i + 1, e as int);
                lemma_utf8_len_concat(hunk_source(dlv, sts@, h as int, i as int), piece);
                lemma_utf8_len_concat(code@, seq!['\n']);
                assert(seq!['\n'].drop_last() =~= Seq::<char>::empty());
                assert(code@ + seq!['\n'] =~= piece);
                assert(code@.subrange(0, code@.len() as int) =~= code@);
                lemma_utf8_len_bounds(code@);
                assert(utf8_len(Seq::<char>::empty()) == 0);
                assert(utf8_len(seq!['\n']) == 1);
                assert(utf8_len(piece) == utf8_len(code@) + 1);
                assert(hunk_source(dlv, sts@, h as int, i + 1) =~= hunk_source(
                    dlv,
                    sts@,
                    h as int,
                    i as int,
                ) + piece);
            }
            let le = pos + utf8_len_of(&code, 0, code.len());
            let mut out: Vec<ColorSpan> = Vec::new();
            push_token_spans(&mut out, lang, &code, pos, le, &tokens);
            sort_spans_by_start(&mut out);
            assert(out@ =~= hunk_line_spans(lang, dlv, sts@, h as int, tv, i as int));
            std::mem::swap(&mut spans[i], &mut out);
            pos = le + 1;
            assert(hunk_source(dlv, sts@, h as int, i + 1) =~= hunk_source(dlv, sts@, h as int, i as int)
                + piece);
        } else {
            assert(hunk_source(dlv, sts@, h as int, i + 1) =~= hunk_source(dlv, sts@, h as int, i as int));
            assert(spans@[i as int] == start[i as int]);
        }
        i += 1;
    }
    Ghost(tv)
}

/// The highlight spans of the diff lines `dl` (in display form) with the
/// styles `sts`, in the language `lang`: each hunk's code lines are joined
/// into one source text, parsed with `parser`, and every leaf token that
/// has a colour role colours the columns it covers on each code line, in
/// order of starting column. No language gives no spans.
pub(crate) fn syntax_spans_for_lines(
    parser: &mut Parser,
    lang: Option<SyntaxLang>,
    dl: &Vec<Vec<char>>,
    sts: &Vec<LineStyle>,
) -> (r: Result<Vec<Vec<ColorSpan>>, String>)
    requires
        dl.len() == sts.len(),
    ensures
        r matches Ok(v) && spans_view(v@) == spec_highlight(lang, views(dl@), sts@),
{
    let ghost dlv = views(dl@);
    let n = dl.len();
    let mut spans: Vec<Vec<ColorSpan>> = Vec::new();
    let mut k: usize = 0;
    while k < n
        invariant
            k <= n,
            spans.len() == k,
            forall|j: int| 0 <= j < k ==> (#[trigger] spans@[j])@ == Seq::<ColorSpan>::empty(),
        decreases n - k,
    {
        spans.push(Vec::new());
        k += 1;
    }
    let l = match lang {
        None => {
            assert(spans_view(spans@) =~= spec_syntax_spans(lang, dlv, sts@, seq![]));
            return Ok(spans);
        },
        Some(l) => l,
    };
    proof {
        reveal_strlit("@@");
    }
    let ghost toks: Seq<Seq<TokenView>> = Seq::new(n as nat, |h: int| hunk_tokens(l, dlv, sts@, h));
    let mut idx: usize = 0;
    while idx < n
        invariant
            idx <= n == dl.len() == sts.len() == spans.len(),
            dlv == views(dl@),
            toks == Seq::new(n as nat, |h: int| hunk_tokens(l, dlv, sts@, h)),
            idx < n && !is_hunk_start(dlv[idx as int]) ==> hunk_header_before(dlv, idx as int) < 0,
            forall|j: int|
                0 <= j < idx ==> (#[trigger] spans@[j])@ == spec_syntax_spans(
                    Some(l),
                    dlv,
                    sts@,
                    toks,
                )[j],
            forall|j: int| idx <= j < n ==> (#[trigger] spans@[j])@ == Seq::<ColorSpan>::empty(),
        decreases n - idx,
    {
        assert(dlv[idx as int] == dl@[idx as int]@);
        if !starts_with(&dl[idx], "@@") {
            assert(hunk_header_before(dlv, idx + 1) == hunk_header_before(dlv, idx as int));
            idx += 1;
            continue;
        }
        assert(is_hunk_start(dlv[idx as int]));
        proof {
            reveal_strlit("@@");
        }
        assert(dlv[idx as int].subrange(0, 2)[0] == dlv[idx as int][0]);
        assert(!is_code_line(dlv[idx as int], sts@[idx as int]));
        let mut e = idx + 1;
        while e < n && !starts_with(&dl[e], "@@")
            invariant
                idx < e <= n == dl.len(),
                dlv == views(dl@),
                forall|k: int| idx < k < e ==> !is_hunk_start(#[trigger] dlv[k]),
                next_hunk(dlv, idx + 1) == next_hunk(dlv, e as int),
            decreases n - e,
        {
            assert(dlv[e as int] == dl@[e as int]@);
            e += 1;
        }
        if e < n {
            assert(dlv[e as int] == dl@[e as int]@);
        }
        assert(next_hunk(dlv, e as int) == e);
        let ghost before = spans@;
        let hunk_toks = highlight_hunk(parser, l, dl, sts, idx, e, &mut spans);
        proof {
            assert(toks[idx as int] == hunk_toks@);
            assert forall|j: int| 0 <= j < e implies (#[trigger] spans@[j])@ == spec_syntax_spans(
                Some(l),
                dlv,
                sts@,
                toks,
            )[j] by {
                if j < idx {
                    assert(spans@[j] == before[j]);
                } else if j == idx {
                    assert(spans@[j] == before[j]);
                    assert(!is_code_line(dlv[j], sts@[j]));
                } else {
                    lemma_header_before(dlv, idx as int, j);
                }
            }
            if e < n {
                lemma_header_before(dlv, idx as int, e as int);
            }
        }
        idx = e;
    }
    assert(spans_view(spans@) =~= spec_syntax_spans(lang, dlv, sts@, toks));
    Ok(spans)
}

/// A line's hunk header lies before it.
proof fn lemma_header_lt(dl: Seq<Seq<char>>, i: int)
    requires
        0 <= i,
    ensures
        hunk_header_before(dl, i) < i,
    decreases i,
{
    if i > 0 && i <= dl.len() && !is_hunk_start(dl[i - 1]) {
        lemma_header_lt(dl, i - 1);
    }
}

} // verus!
