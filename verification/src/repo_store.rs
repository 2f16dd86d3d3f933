//! The list of recently opened repositories: reading it from the text of
//! its storage file, putting a repository first, and the text written back.
//! Paths are compared as `Path` compares them, component by component.

use vstd::prelude::*;

use crate::text::{
    chars_of, utf8_len_fits, lemma_encode_utf8_len, lemma_utf8_len_bounds, lines_of, push_str_chars,
    is_ws, line_scan, strip_cr, trim_end, trim_start, slice_chars, spec_lines, string_of, trim, trim_bounds, views,
};

verus! {

broadcast use vstd::string::group_string_axioms;

/// The most repositories the list keeps.
pub const MAX_RECENT_REPOS: usize = 12;

// ─────────────────────────────────────────────────────────────────
//  Path components
// ─────────────────────────────────────────────────────────────────

/// A part of a path between separators that names a component: neither
/// empty nor `.`.
pub open spec fn is_component(part: Seq<char>) -> bool {
    part.len() > 0 && part != seq!['.']
}

/// Reading the first `n` characters of a path: the components completed so
/// far and the part in progress.
pub open spec fn part_scan(p: Seq<char>, n: nat) -> (Seq<Seq<char>>, Seq<char>)
    decreases n,
{
    if n == 0 || n > p.len() {
        (seq![], seq![])
    } else {
        let (done, cur) = part_scan(p, (n - 1) as nat);
        if p[n - 1] == '/' {
            if is_component(cur) {
                (done.push(cur), seq![])
            } else {
                (done, seq![])
            }
        } else {
            (done, cur.push(p[n - 1]))
        }
    }
}

/// The named components of a path: its parts between `/` separators, empty
/// parts and `.` parts left out.
pub open spec fn path_parts(p: Seq<char>) -> Seq<Seq<char>> {
    let (done, cur) = part_scan(p, p.len());
    if is_component(cur) {
        done.push(cur)
    } else {
        done
    }
}

/// What `Path` equality compares on Unix: whether the path starts at the
/// root, whether a relative path starts with a `.` directory, and its
/// named components.
pub open spec fn path_key(p: Seq<char>) -> (bool, bool, Seq<Seq<char>>) {
    let rooted = p.len() > 0 && p[0] == '/';
    let cur_dir = !rooted && p.len() > 0 && p[0] == '.' && (p.len() == 1 || p[1] == '/');
    (rooted, cur_dir, path_parts(p))
}

/// A one-character part is `.` exactly when its character is `.`.
proof fn lemma_one_dot(s: Seq<char>)
    ensures
        s.len() == 1 ==> (s == seq!['.'] <==> s[0] == '.'),
{
    if s.len() == 1 && s[0] == '.' {
        assert(s =~= seq!['.']);
    }
}

/// The named components of `v`.
fn path_parts_of(v: &Vec<char>) -> (r: Vec<Vec<char>>)
    ensures
        views(r@) == path_parts(v@),
{
    let mut done: Vec<Vec<char>> = Vec::new();
    let mut cur: Vec<char> = Vec::new();
    let mut i: usize = 0;
    while i < v.len()
        invariant
            i <= v.len(),
            (views(done@), cur@) == part_scan(v@, i as nat),
        decreases v.len() - i,
    {
        if v[i] == '/' {
            let keep = cur.len() > 0 && !(cur.len() == 1 && cur[0] == '.');
            proof {
                lemma_one_dot(cur@);
            }
            if keep {
                let w = cur;
                done.push(w);
                assert(views(done@) =~= part_scan(v@, i as nat).0.push(part_scan(v@, i as nat).1));
            }
            cur = Vec::new();
        } else {
            cur.push(v[i]);
        }
        i += 1;
        assert(cur@ =~= part_scan(v@, i as nat).1);
    }
    let keep = cur.len() > 0 && !(cur.len() == 1 && cur[0] == '.');
    proof {
        lemma_one_dot(cur@);
    }
    if keep {
        done.push(cur);
        assert(views(done@) =~= path_parts(v@));
    }
    done
}

/// Whether two character vectors are equal.
fn chars_equal(a: &Vec<char>, b: &Vec<char>) -> (r: bool)
    ensures
        r == (a@ == b@),
{
    if a.len() != b.len() {
        return false;
    }
    let mut i: usize = 0;
    while i < a.len()
        invariant
            i <= a.len() == b.len(),
            forall|j: int| 0 <= j < i ==> a@[j] == b@[j],
        decreases a.len() - i,
    {
        if a[i] != b[i] {
            return false;
        }
        i += 1;
    }
    assert(a@ =~= b@);
    true
}

/// The root and current-directory flags of `v`.
fn path_flags(v: &Vec<char>) -> (r: (bool, bool))
    ensures
        r.0 == path_key(v@).0,
        r.1 == path_key(v@).1,
{
    let rooted = v.len() > 0 && v[0] == '/';
    let cur_dir = !rooted && v.len() > 0 && v[0] == '.' && (v.len() == 1 || v[1] == '/');
    (rooted, cur_dir)
}

/// Whether `a` and `b` name the same path, as `Path` equality decides.
pub fn same_path(a: &str, b: &str) -> (r: bool)
    ensures
        r == (path_key(a@) == path_key(b@)),
{
    let av = chars_of(a);
    let bv = chars_of(b);
    let (ar, ac) = path_flags(&av);
    let (br, bc) = path_flags(&bv);
    if ar != br || ac != bc {
        return false;
    }
    let ap = path_parts_of(&av);
    let bp = path_parts_of(&bv);
    if ap.len() != bp.len() {
        assert(views(ap@).len() == ap.len());
        assert(views(bp@).len() == bp.len());
        assert(path_parts(a@).len() != path_parts(b@).len());
        return false;
    }
    let mut i: usize = 0;
    while i < ap.len()
        invariant
            i <= ap.len() == bp.len(),
            views(ap@) == path_parts(a@),
            views(bp@) == path_parts(b@),
            forall|j: int| 0 <= j < i ==> views(ap@)[j] == views(bp@)[j],
        decreases ap.len() - i,
    {
        assert(views(ap@)[i as int] == ap@[i as int]@);
        assert(views(bp@)[i as int] == bp@[i as int]@);
        if !chars_equal(&ap[i], &bp[i]) {
            assert(path_parts(a@)[i as int] != path_parts(b@)[i as int]);
            return false;
        }
        i += 1;
    }
    assert(views(ap@) =~= views(bp@));
    true
}

// ─────────────────────────────────────────────────────────────────
//  The list
// ─────────────────────────────────────────────────────────────────

/// The trimmed lines of `ls` that are not blank, in order.
pub open spec fn nonblank_lines(ls: Seq<Seq<char>>) -> Seq<Seq<char>>
    decreases ls.len(),
{
    if ls.len() == 0 {
        seq![]
    } else {
        let prev = nonblank_lines(ls.drop_last());
        if trim(ls.last()).len() == 0 {
            prev
        } else {
            prev.push(trim(ls.last()))
        }
    }
}

/// Some path of `ps` is the same path as `p`.
pub open spec fn has_path(ps: Seq<Seq<char>>, p: Seq<char>) -> bool {
    exists|i: int| 0 <= i < ps.len() && path_key(#[trigger] ps[i]) == path_key(p)
}

/// `ps` with every path that repeats an earlier one left out.
pub open spec fn dedup_paths(ps: Seq<Seq<char>>) -> Seq<Seq<char>>
    decreases ps.len(),
{
    if ps.len() == 0 {
        seq![]
    } else {
        let prev = dedup_paths(ps.drop_last());
        if has_path(prev, ps.last()) {
            prev
        } else {
            prev.push(ps.last())
        }
    }
}

/// The first `MAX_RECENT_REPOS` entries of `ps`.
pub open spec fn keep_recent(ps: Seq<Seq<char>>) -> Seq<Seq<char>> {
    if ps.len() <= MAX_RECENT_REPOS {
        ps
    } else {
        ps.take(MAX_RECENT_REPOS as int)
    }
}

/// The list stored in `contents`: one path per line, surrounding
/// whitespace ignored, blank lines skipped, later copies of a path
/// dropped, at most `MAX_RECENT_REPOS` kept.
pub open spec fn spec_recent_repos(contents: Seq<char>) -> Seq<Seq<char>> {
    keep_recent(dedup_paths(nonblank_lines(spec_lines(contents))))
}

/// The plain values of a list of strings.
pub open spec fn strings_of(v: Seq<String>) -> Seq<Seq<char>> {
    v.map_values(|s: String| s@)
}

/// Whether some entry of `v` is the same path as `p`.
fn contains_path(v: &Vec<String>, p: &str) -> (r: bool)
    ensures
        r == has_path(strings_of(v@), p@),
{
    let ghost sv = strings_of(v@);
    let mut i: usize = 0;
    while i < v.len()
        invariant
            i <= v.len(),
            sv == strings_of(v@),
            forall|j: int| 0 <= j < i ==> path_key(#[trigger] sv[j]) != path_key(p@),
        decreases v.len() - i,
    {
        if same_path(v[i].as_str(), p) {
            assert(path_key(sv[i as int]) == path_key(p@));
            return true;
        }
        i += 1;
    }
    false
}

/// The recently opened repositories stored in `stored`, the text of the
/// storage file; no text (an unreadable file) gives an empty list.
pub fn recent_repos(stored: Option<&str>) -> (r: Vec<String>)
    ensures
        strings_of(r@) == match stored {
            Some(s) => spec_recent_repos(s@),
            None => Seq::<Seq<char>>::empty(),
        },
{
    let contents = match stored {
        Some(s) => s,
        None => {
            let r: Vec<String> = Vec::new();
            assert(strings_of(r@) =~= Seq::<Seq<char>>::empty());
            return r;
        },
    };
    let lines = lines_of(contents);
    let ghost ls = spec_lines(contents@);
    let mut repos: Vec<String> = Vec::new();
    let mut i: usize = 0;
    assert(ls.take(0) =~= Seq::<Seq<char>>::empty());
    assert(strings_of(repos@) =~= Seq::<Seq<char>>::empty());
    while i < lines.len()
        invariant
            i <= lines.len(),
            views(lines@) == ls,
            strings_of(repos@) == dedup_paths(nonblank_lines(ls.take(i as int))),
        decreases lines.len() - i,
    {
        let line = &lines[i];
        assert(ls[i as int] == line@);
        assert(ls.take(i + 1).drop_last() =~= ls.take(i as int));
        let (a, b) = trim_bounds(line, 0, line.len());
        assert(line@.subrange(0, line@.len() as int) =~= line@);
        let ghost pre = nonblank_lines(ls.take(i as int));
        if a < b {
            let t = string_of(&slice_chars(line, a, b));
            assert(nonblank_lines(ls.take(i + 1)) == pre.push(t@));
            if !contains_path(&repos, t.as_str()) {
                let ghost prev = repos@;
                repos.push(t);
                assert(strings_of(repos@) =~= strings_of(prev).push(t@));
            }
            assert(pre.push(t@).drop_last() =~= pre);
        } else {
            assert(nonblank_lines(ls.take(i + 1)) == pre);
        }
        i += 1;
    }
    assert(ls.take(lines.len() as int) =~= ls);
    if repos.len() > MAX_RECENT_REPOS {
        repos.truncate(MAX_RECENT_REPOS);
        assert(strings_of(repos@) =~= keep_recent(dedup_paths(nonblank_lines(ls))));
    }
    repos
}

/// `ps` without the paths that are the same path as `p`.
pub open spec fn without_path(ps: Seq<Seq<char>>, p: Seq<char>) -> Seq<Seq<char>>
    decreases ps.len(),
{
    if ps.len() == 0 {
        seq![]
    } else {
        let prev = without_path(ps.drop_last(), p);
        if path_key(ps.last()) == path_key(p) {
            prev
        } else {
            prev.push(ps.last())
        }
    }
}

/// The list with `repo` first: any other copy of it removed, at most
/// `MAX_RECENT_REPOS` kept.
pub open spec fn spec_remember(repos: Seq<Seq<char>>, repo: Seq<char>) -> Seq<Seq<char>> {
    keep_recent(seq![repo] + without_path(repos, repo))
}

/// `repos` with `repo` put first.
pub fn remember_repo_in(repos: Vec<String>, repo: String) -> (r: Vec<String>)
    ensures
        strings_of(r@) == spec_remember(strings_of(repos@), repo@),
{
    let ghost rv = strings_of(repos@);
    let mut out: Vec<String> = Vec::new();
    out.push(copy_string(&repo));
    let mut i: usize = 0;
    assert(rv.take(0) =~= Seq::<Seq<char>>::empty());
    assert(strings_of(out@) =~= seq![repo@] + without_path(rv.take(0), repo@));
    while i < repos.len()
        invariant
            i <= repos.len(),
            rv == strings_of(repos@),
            strings_of(out@) == seq![repo@] + without_path(rv.take(i as int), repo@),
        decreases repos.len() - i,
    {
        assert(rv.take(i + 1).drop_last() =~= rv.take(i as int));
        assert(rv[i as int] == repos@[i as int]@);
        if !same_path(repos[i].as_str(), repo.as_str()) {
            let ghost prev = out@;
            out.push(copy_string(&repos[i]));
            assert(strings_of(out@) =~= strings_of(prev).push(repos@[i as int]@));
        }
        i += 1;
        assert(strings_of(out@) =~= seq![repo@] + without_path(rv.take(i as int), repo@));
    }
    assert(rv.take(repos.len() as int) =~= rv);
    if out.len() > MAX_RECENT_REPOS {
        out.truncate(MAX_RECENT_REPOS);
        assert(strings_of(out@) =~= spec_remember(rv, repo@));
    }
    out
}

/// A copy of `s`.
fn copy_string(s: &String) -> (r: String)
    ensures
        r@ == s@,
{
    string_of(&chars_of(s.as_str()))
}

/// The entries of `rs` joined with newlines.
pub open spec fn join_lines(rs: Seq<Seq<char>>) -> Seq<char>
    decreases rs.len(),
{
    if rs.len() == 0 {
        seq![]
    } else if rs.len() == 1 {
        rs[0]
    } else {
        join_lines(rs.drop_last()) + seq!['\n'] + rs.last()
    }
}

/// The text stored for the list `rs`: one entry per line, each line ended
/// by a newline; nothing for an empty text.
pub open spec fn spec_render_repos(rs: Seq<Seq<char>>) -> Seq<char> {
    let b = join_lines(rs);
    if b.len() == 0 {
        b
    } else {
        b.push('\n')
    }
}

/// The text stored for the list `repos`.
pub fn render_recent_repos(repos: &Vec<String>) -> (r: String)
    ensures
        r@ == spec_render_repos(strings_of(repos@)),
{
    let ghost rv = strings_of(repos@);
    let mut body = String::new();
    let mut i: usize = 0;
    assert(rv.take(0) =~= Seq::<Seq<char>>::empty());
    while i < repos.len()
        invariant
            i <= repos.len(),
            rv == strings_of(repos@),
            body@ == join_lines(rv.take(i as int)),
        decreases repos.len() - i,
    {
        assert(rv.take(i + 1).drop_last() =~= rv.take(i as int));
        assert(rv[i as int] == repos@[i as int]@);
        if i > 0 {
            body.push('\n');
        }
        push_str_chars(&mut body, repos[i].as_str());
        i += 1;
        assert(body@ =~= join_lines(rv.take(i as int)));
    }
    assert(rv.take(repos.len() as int) =~= rv);
    utf8_len_fits(body.as_str());
    proof {
        lemma_encode_utf8_len(body@);
        lemma_utf8_len_bounds(body@);
    }
    if body.as_str().len() > 0 {
        body.push('\n');
    }
    body
}


// ─────────────────────────────────────────────────────────────────
//  Laws
// ─────────────────────────────────────────────────────────────────

/// An entry that the storage file keeps as it is: not blank, without
/// surrounding whitespace, without line breaks.
pub open spec fn storable(r: Seq<char>) -> bool {
    r.len() > 0 && trim(r) == r && !r.contains('\n')
}

/// A list that reads back as it was written: at most `MAX_RECENT_REPOS`
/// storable entries naming distinct paths.
pub open spec fn storable_list(rs: Seq<Seq<char>>) -> bool {
    &&& rs.len() <= MAX_RECENT_REPOS
    &&& forall|i: int| 0 <= i < rs.len() ==> storable(#[trigger] rs[i])
    &&& forall|i: int, j: int|
        0 <= i < j < rs.len() ==> path_key(#[trigger] rs[i]) != path_key(#[trigger] rs[j])
}

/// Each entry followed by a newline.
spec fn line_body(rs: Seq<Seq<char>>) -> Seq<char>
    decreases rs.len(),
{
    if rs.len() == 0 {
        seq![]
    } else {
        line_body(rs.drop_last()) + rs.last() + seq!['\n']
    }
}

proof fn lemma_render_is_body(rs: Seq<Seq<char>>)
    requires
        forall|i: int| 0 <= i < rs.len() ==> (#[trigger] rs[i]).len() > 0,
    ensures
        rs.len() > 0 ==> join_lines(rs).len() > 0 && join_lines(rs).push('\n') == line_body(rs),
        spec_render_repos(rs) == line_body(rs),
    decreases rs.len(),
{
    if rs.len() > 0 {
        let p = rs.drop_last();
        lemma_render_is_body(p);
        assert(rs.last() == rs[rs.len() - 1]);
        if rs.len() == 1 {
            assert(p =~= Seq::<Seq<char>>::empty());
            assert(line_body(rs) =~= rs[0] + seq!['\n']);
        } else {
            assert(p[p.len() - 1] == rs[rs.len() - 2]);
            assert(join_lines(rs).push('\n') =~= join_lines(p).push('\n') + rs.last() + seq!['\n']);
        }
    }
}

/// `line_scan` reads only the characters before `n`.
proof fn lemma_line_scan_prefix(s: Seq<char>, t: Seq<char>, n: nat)
    requires
        n <= s.len(),
        n <= t.len(),
        s.take(n as int) == t.take(n as int),
    ensures
        line_scan(s, n) == line_scan(t, n),
    decreases n,
{
    if n > 0 {
        assert(s.take(n - 1) =~= s.take(n as int).take(n - 1));
        assert(t.take(n - 1) =~= t.take(n as int).take(n - 1));
        assert(s[n - 1] == s.take(n as int)[n - 1]);
        assert(t[n - 1] == t.take(n as int)[n - 1]);
        lemma_line_scan_prefix(s, t, (n - 1) as nat);
    }
}

/// Reading the characters of a line `w` (without a line break) after text
/// that ended a line leaves `w` in progress.
proof fn lemma_line_scan_line(s: Seq<char>, w: Seq<char>, j: nat)
    requires
        line_scan(s, s.len()).1 == Seq::<char>::empty(),
        !w.contains('\n'),
        j <= w.len(),
    ensures
        line_scan(s + w + seq!['\n'], s.len() + j) == (line_scan(s, s.len()).0, w.take(j as int)),
    decreases j,
{
    let big = s + w + seq!['\n'];
    if j == 0 {
        assert(big.take(s.len() as int) =~= s.take(s.len() as int));
        lemma_line_scan_prefix(big, s, s.len());
        assert(w.take(0) =~= Seq::<char>::empty());
    } else {
        lemma_line_scan_line(s, w, (j - 1) as nat);
        assert(big[s.len() + j - 1] == w[j - 1]);
        if w[j - 1] == '\n' {
            assert(w.contains('\n'));
        }
        assert(w.take(j - 1).push(w[j - 1]) =~= w.take(j as int));
    }
}

/// The lines of the stored text are its entries.
proof fn lemma_body_lines(rs: Seq<Seq<char>>)
    requires
        forall|i: int| 0 <= i < rs.len() ==> storable(#[trigger] rs[i]),
    ensures
        line_scan(line_body(rs), line_body(rs).len()) == (rs, Seq::<char>::empty()),
    decreases rs.len(),
{
    if rs.len() > 0 {
        let p = rs.drop_last();
        let w = rs.last();
        assert(storable(rs[rs.len() - 1]));
        assert forall|i: int| 0 <= i < p.len() implies storable(#[trigger] p[i]) by {
            assert(p[i] == rs[i]);
        }
        lemma_body_lines(p);
        let s = line_body(p);
        lemma_line_scan_line(s, w, w.len());
        let big = s + w + seq!['\n'];
        assert(w.take(w.len() as int) =~= w);
        assert(big[s.len() + w.len() as int] == '\n');
        assert(!is_ws(w.last())) by {
            if is_ws(w.last()) {
                assert(trim_end(w) == trim_end(w.drop_last()));
                lemma_trim_shorter(w);
            }
        }
        assert(strip_cr(w) == w);
        assert(p.push(w) =~= rs);
    }
}

/// Trimming never lengthens, and a trailing space is always removed.
proof fn lemma_trim_shorter(w: Seq<char>)
    requires
        w.len() > 0,
        is_ws(w.last()),
    ensures
        trim(w) != w,
{
    lemma_trim_end_len(trim_start(w));
    lemma_trim_start_len(w);
    if trim_start(w).len() == w.len() {
        assert(trim_start(w) == w) by {
            lemma_trim_start_suffix(w);
        }
        assert(trim_end(w) == trim_end(w.drop_last()));
        lemma_trim_end_len(w.drop_last());
    }
}

proof fn lemma_trim_start_len(s: Seq<char>)
    ensures
        trim_start(s).len() <= s.len(),
    decreases s.len(),
{
    if s.len() > 0 && is_ws(s[0]) {
        lemma_trim_start_len(s.drop_first());
    }
}

proof fn lemma_trim_end_len(s: Seq<char>)
    ensures
        trim_end(s).len() <= s.len(),
    decreases s.len(),
{
    if s.len() > 0 && is_ws(s.last()) {
        lemma_trim_end_len(s.drop_last());
    }
}

/// `trim_start(s)` is a suffix of `s`.
proof fn lemma_trim_start_suffix(s: Seq<char>)
    ensures
        trim_start(s) == s.skip(s.len() - trim_start(s).len()),
    decreases s.len(),
{
    if s.len() > 0 && is_ws(s[0]) {
        lemma_trim_start_suffix(s.drop_first());
        lemma_trim_start_len(s.drop_first());
        assert(s.drop_first().skip(s.drop_first().len() - trim_start(s).len()) =~= s.skip(
            s.len() - trim_start(s).len(),
        ));
    } else {
        assert(s.skip(0) =~= s);
    }
}

/// Storable entries are their own non-blank trimmed lines.
proof fn lemma_nonblank_storable(rs: Seq<Seq<char>>)
    requires
        forall|i: int| 0 <= i < rs.len() ==> storable(#[trigger] rs[i]),
    ensures
        nonblank_lines(rs) == rs,
    decreases rs.len(),
{
    if rs.len() > 0 {
        let p = rs.drop_last();
        assert forall|i: int| 0 <= i < p.len() implies storable(#[trigger] p[i]) by {
            assert(p[i] == rs[i]);
        }
        lemma_nonblank_storable(p);
        assert(storable(rs[rs.len() - 1]));
        assert(p.push(rs.last()) =~= rs);
    }
}

/// A list of distinct paths loses nothing to deduplication.
proof fn lemma_dedup_distinct(rs: Seq<Seq<char>>)
    requires
        forall|i: int, j: int|
            0 <= i < j < rs.len() ==> path_key(#[trigger] rs[i]) != path_key(#[trigger] rs[j]),
    ensures
        dedup_paths(rs) == rs,
    decreases rs.len(),
{
    if rs.len() > 0 {
        let p = rs.drop_last();
        assert forall|i: int, j: int| 0 <= i < j < p.len() implies path_key(#[trigger] p[i])
            != path_key(#[trigger] p[j]) by {
            assert(p[i] == rs[i] && p[j] == rs[j]);
        }
        lemma_dedup_distinct(p);
        assert(!has_path(p, rs.last())) by {
            if has_path(p, rs.last()) {
                let i = choose|i: int| 0 <= i < p.len() && path_key(#[trigger] p[i]) == path_key(
                    rs.last(),
                );
                assert(p[i] == rs[i]);
                assert(rs.last() == rs[rs.len() - 1]);
            }
        }
        assert(p.push(rs.last()) =~= rs);
    }
}

/// Reading back the text stored for a storable list gives the list.
pub proof fn lemma_recent_repos_roundtrip(rs: Seq<Seq<char>>)
    requires
        storable_list(rs),
    ensures
        spec_recent_repos(spec_render_repos(rs)) == rs,
{
    assert forall|i: int| 0 <= i < rs.len() implies (#[trigger] rs[i]).len() > 0 by {
        assert(storable(rs[i]));
    }
    lemma_render_is_body(rs);
    lemma_body_lines(rs);
    lemma_nonblank_storable(rs);
    lemma_dedup_distinct(rs);
    assert(spec_lines(line_body(rs)) == rs);
}

/// Every entry left by `without_path` comes from the list and is another
/// path than `p`.
proof fn lemma_without_path(ps: Seq<Seq<char>>, p: Seq<char>)
    ensures
        without_path(ps, p).len() <= ps.len(),
        forall|i: int|
            0 <= i < without_path(ps, p).len() ==> path_key(#[trigger] without_path(ps, p)[i])
                != path_key(p) && exists|a: int| 0 <= a < ps.len() && ps[a] == without_path(ps, p)[i],
    decreases ps.len(),
{
    if ps.len() > 0 {
        let q = ps.drop_last();
        lemma_without_path(q, p);
        let w = without_path(ps, p);
        assert forall|i: int| 0 <= i < w.len() implies path_key(#[trigger] w[i]) != path_key(p)
            && exists|a: int| 0 <= a < ps.len() && ps[a] == w[i] by {
            if i < without_path(q, p).len() {
                assert(w[i] == without_path(q, p)[i]);
                let a = choose|a: int| 0 <= a < q.len() && q[a] == without_path(q, p)[i];
                assert(ps[a] == q[a]);
            } else {
                assert(w[i] == ps.last());
                assert(ps[ps.len() - 1] == ps.last());
            }
        }
    }
}

/// `without_path` keeps the entries of a list of distinct paths distinct.
proof fn lemma_without_path_distinct(ps: Seq<Seq<char>>, p: Seq<char>)
    requires
        forall|i: int, j: int|
            0 <= i < j < ps.len() ==> path_key(#[trigger] ps[i]) != path_key(#[trigger] ps[j]),
    ensures
        forall|i: int, j: int|
            0 <= i < j < without_path(ps, p).len() ==> path_key(#[trigger] without_path(ps, p)[i])
                != path_key(#[trigger] without_path(ps, p)[j]),
    decreases ps.len(),
{
    if ps.len() > 0 {
        let q = ps.drop_last();
        assert forall|i: int, j: int| 0 <= i < j < q.len() implies path_key(#[trigger] q[i])
            != path_key(#[trigger] q[j]) by {
            assert(q[i] == ps[i] && q[j] == ps[j]);
        }
        lemma_without_path_distinct(q, p);
        lemma_without_path(q, p);
        let w = without_path(ps, p);
        let wq = without_path(q, p);
        assert forall|i: int, j: int| 0 <= i < j < w.len() implies path_key(#[trigger] w[i])
            != path_key(#[trigger] w[j]) by {
            if j >= wq.len() {
                assert(w[j] == ps.last());
                assert(w[i] == wq[i]);
                let a = choose|a: int| 0 <= a < q.len() && q[a] == wq[i];
                assert(ps[a] == q[a]);
                assert(ps[ps.len() - 1] == ps.last());
            } else {
                assert(w[i] == wq[i] && w[j] == wq[j]);
            }
        }
    }
}

/// Remembering a repository puts it first, keeps at most
/// `MAX_RECENT_REPOS` entries, and keeps a storable list storable.
pub proof fn lemma_remember_keeps_list(rs: Seq<Seq<char>>, repo: Seq<char>)
    requires
        storable_list(rs),
        storable(repo),
    ensures
        spec_remember(rs, repo).len() >= 1,
        spec_remember(rs, repo)[0] == repo,
        storable_list(spec_remember(rs, repo)),
{
    lemma_without_path(rs, repo);
    lemma_without_path_distinct(rs, repo);
    let w = without_path(rs, repo);
    let full = seq![repo] + w;
    let out = spec_remember(rs, repo);
    assert(out.len() <= full.len());
    assert forall|i: int| 0 <= i < out.len() implies #[trigger] out[i] == full[i] by {}
    assert forall|i: int| 0 <= i < out.len() implies storable(#[trigger] out[i]) by {
        if i > 0 {
            assert(out[i] == w[i - 1]);
            let a = choose|a: int| 0 <= a < rs.len() && rs[a] == w[i - 1];
            assert(storable(rs[a]));
        }
    }
    assert forall|i: int, j: int| 0 <= i < j < out.len() implies path_key(#[trigger] out[i])
        != path_key(#[trigger] out[j]) by {
        assert(out[j] == w[j - 1]);
        if i == 0 {
            assert(path_key(w[j - 1]) != path_key(repo));
        } else {
            assert(out[i] == w[i - 1]);
        }
    }
}


/// The list of the repository picker: the current repository first, then
/// the stored ones that are other paths.
pub open spec fn spec_with_current(repos: Seq<Seq<char>>, current: Seq<char>) -> Seq<Seq<char>> {
    seq![current] + without_path(repos, current)
}

/// The list of the repository picker.
pub fn with_current_first(repos: &Vec<String>, current: &str) -> (r: Vec<String>)
    ensures
        strings_of(r@) == spec_with_current(strings_of(repos@), current@),
{
    let ghost rv = strings_of(repos@);
    let mut out: Vec<String> = Vec::new();
    out.push(string_of(&chars_of(current)));
    let mut i: usize = 0;
    assert(rv.take(0) =~= Seq::<Seq<char>>::empty());
    assert(strings_of(out@) =~= seq![current@] + without_path(rv.take(0), current@));
    while i < repos.len()
        invariant
            i <= repos.len(),
            rv == strings_of(repos@),
            strings_of(out@) == seq![current@] + without_path(rv.take(i as int), current@),
        decreases repos.len() - i,
    {
        assert(rv.take(i + 1).drop_last() =~= rv.take(i as int));
        assert(rv[i as int] == repos@[i as int]@);
        if !same_path(repos[i].as_str(), current) {
            let ghost prev = out@;
            out.push(copy_string(&repos[i]));
            assert(strings_of(out@) =~= strings_of(prev).push(repos@[i as int]@));
        }
        i += 1;
        assert(strings_of(out@) =~= seq![current@] + without_path(rv.take(i as int), current@));
    }
    assert(rv.take(repos.len() as int) =~= rv);
    out
}


/// The first character left by `trim_start` is not whitespace.
proof fn lemma_trim_start_head(s: Seq<char>)
    ensures
        trim_start(s).len() == 0 || !is_ws(trim_start(s)[0]),
    decreases s.len(),
{
    if s.len() > 0 && is_ws(s[0]) {
        lemma_trim_start_head(s.drop_first());
    }
}

/// `trim_end` keeps a prefix whose last character is not whitespace.
proof fn lemma_trim_end_prefix(s: Seq<char>)
    ensures
        trim_end(s).len() <= s.len(),
        trim_end(s) == s.take(trim_end(s).len() as int),
        trim_end(s).len() == 0 || !is_ws(trim_end(s).last()),
    decreases s.len(),
{
    if s.len() > 0 && is_ws(s.last()) {
        lemma_trim_end_prefix(s.drop_last());
        assert(s.drop_last().take(trim_end(s).len() as int) =~= s.take(trim_end(s).len() as int));
    } else {
        assert(s.take(s.len() as int) =~= s);
    }
}

/// Trimming a trimmed text changes nothing, and a trimmed text is part of
/// the text.
proof fn lemma_trim_twice(x: Seq<char>)
    ensures
        trim(trim(x)) == trim(x),
        forall|i: int|
            0 <= i < trim(x).len() ==> exists|j: int| 0 <= j < x.len() && x[j] == #[trigger] trim(x)[i],
{
    let u = trim_start(x);
    let t = trim(x);
    lemma_trim_start_head(x);
    lemma_trim_end_prefix(u);
    lemma_trim_start_suffix(x);
    lemma_trim_start_len(x);
    if t.len() > 0 {
        assert(t[0] == u[0]);
        assert(trim_start(t) == t);
    } else {
        assert(trim_start(t) == t);
    }
    lemma_trim_end_prefix(t);
    if t.len() > 0 && is_ws(t.last()) {
        assert(false);
    }
    assert(trim_end(t) == t);
    assert forall|i: int| 0 <= i < t.len() implies exists|j: int| 0 <= j < x.len() && x[j]
        == #[trigger] t[i] by {
        assert(t[i] == u[i]);
        let k = x.len() - u.len();
        assert(u[i] == x[k + i]);
    }
}

/// No line of a text holds a line break.
proof fn lemma_scan_no_newline(s: Seq<char>, n: nat)
    ensures
        !line_scan(s, n).1.contains('\n'),
        forall|i: int|
            0 <= i < line_scan(s, n).0.len() ==> !(#[trigger] line_scan(s, n).0[i]).contains('\n'),
    decreases n,
{
    if n > 0 && n <= s.len() {
        lemma_scan_no_newline(s, (n - 1) as nat);
        let (done, cur) = line_scan(s, (n - 1) as nat);
        if s[n - 1] == '\n' {
            let l = strip_cr(cur);
            assert(!l.contains('\n')) by {
                if l.contains('\n') {
                    let k = choose|k: int| 0 <= k < l.len() && l[k] == '\n';
                    assert(l[k] == cur[k]);
                }
            }
            let d2 = done.push(l);
            assert forall|i: int| 0 <= i < d2.len() implies !(#[trigger] d2[i]).contains('\n') by {
                if i < done.len() {
                    assert(d2[i] == done[i]);
                }
            }
        } else {
            let c2 = cur.push(s[n - 1]);
            assert(!c2.contains('\n')) by {
                if c2.contains('\n') {
                    let k = choose|k: int| 0 <= k < c2.len() && c2[k] == '\n';
                    if k < cur.len() {
                        assert(c2[k] == cur[k]);
                    }
                }
            }
        }
    }
}

/// No line of a text holds a line break.
proof fn lemma_lines_no_newline(s: Seq<char>)
    ensures
        forall|i: int| 0 <= i < spec_lines(s).len() ==> !(#[trigger] spec_lines(s)[i]).contains('\n'),
{
    lemma_scan_no_newline(s, s.len());
    let (done, cur) = line_scan(s, s.len());
    if cur.len() > 0 {
        let ls = done.push(cur);
        assert forall|i: int| 0 <= i < ls.len() implies !(#[trigger] ls[i]).contains('\n') by {
            if i < done.len() {
                assert(ls[i] == done[i]);
            }
        }
    }
}

/// The non-blank trimmed lines of lines without line breaks are storable.
proof fn lemma_nonblank_lines_storable(ls: Seq<Seq<char>>)
    requires
        forall|i: int| 0 <= i < ls.len() ==> !(#[trigger] ls[i]).contains('\n'),
    ensures
        forall|i: int| 0 <= i < nonblank_lines(ls).len() ==> storable(#[trigger] nonblank_lines(ls)[i]),
    decreases ls.len(),
{
    if ls.len() > 0 {
        let p = ls.drop_last();
        assert forall|i: int| 0 <= i < p.len() implies !(#[trigger] p[i]).contains('\n') by {
            assert(p[i] == ls[i]);
        }
        lemma_nonblank_lines_storable(p);
        let l = ls.last();
        assert(l == ls[ls.len() - 1]);
        let t = trim(l);
        lemma_trim_twice(l);
        assert(!t.contains('\n')) by {
            if t.contains('\n') {
                let k = choose|k: int| 0 <= k < t.len() && t[k] == '\n';
                let j = choose|j: int| 0 <= j < l.len() && l[j] == #[trigger] t[k];
            }
        }
        let out = nonblank_lines(ls);
        let prev = nonblank_lines(p);
        assert forall|i: int| 0 <= i < out.len() implies storable(#[trigger] out[i]) by {
            if i < prev.len() {
                assert(out[i] == prev[i]);
            }
        }
    }
}

/// Deduplication keeps distinct paths, each taken from the list.
proof fn lemma_dedup_paths(ps: Seq<Seq<char>>)
    ensures
        dedup_paths(ps).len() <= ps.len(),
        forall|i: int, j: int|
            0 <= i < j < dedup_paths(ps).len() ==> path_key(#[trigger] dedup_paths(ps)[i]) != path_key(
                #[trigger] dedup_paths(ps)[j],
            ),
        forall|i: int|
            0 <= i < dedup_paths(ps).len() ==> exists|a: int|
                0 <= a < ps.len() && ps[a] == #[trigger] dedup_paths(ps)[i],
    decreases ps.len(),
{
    if ps.len() > 0 {
        let q = ps.drop_last();
        lemma_dedup_paths(q);
        let prev = dedup_paths(q);
        let out = dedup_paths(ps);
        if !has_path(prev, ps.last()) {
            assert forall|i: int, j: int| 0 <= i < j < out.len() implies path_key(#[trigger] out[i])
                != path_key(#[trigger] out[j]) by {
                if j == prev.len() {
                    assert(out[i] == prev[i]);
                    assert(out[j] == ps.last());
                } else {
                    assert(out[i] == prev[i] && out[j] == prev[j]);
                }
            }
        }
        assert forall|i: int| 0 <= i < out.len() implies exists|a: int|
            0 <= a < ps.len() && ps[a] == #[trigger] out[i] by {
            if i < prev.len() {
                assert(out[i] == prev[i]);
                let a = choose|a: int| 0 <= a < q.len() && q[a] == #[trigger] prev[i];
                assert(ps[a] == q[a]);
            } else {
                assert(out[i] == ps.last());
                assert(ps[ps.len() - 1] == ps.last());
            }
        }
    }
}

/// The list read from any stored text is storable: it reads back as it is
/// written.
pub proof fn lemma_read_list_storable(contents: Seq<char>)
    ensures
        storable_list(spec_recent_repos(contents)),
{
    let ls = spec_lines(contents);
    lemma_lines_no_newline(contents);
    lemma_nonblank_lines_storable(ls);
    let nb = nonblank_lines(ls);
    lemma_dedup_paths(nb);
    let d = dedup_paths(nb);
    assert forall|i: int| 0 <= i < d.len() implies storable(#[trigger] d[i]) by {
        let a = choose|a: int| 0 <= a < nb.len() && nb[a] == #[trigger] d[i];
        assert(storable(nb[a]));
    }
    let r = spec_recent_repos(contents);
    assert forall|i: int| 0 <= i < r.len() implies storable(#[trigger] r[i]) by {
        assert(r[i] == d[i]);
    }
    assert forall|i: int, j: int| 0 <= i < j < r.len() implies path_key(#[trigger] r[i]) != path_key(
        #[trigger] r[j],
    ) by {
        assert(r[i] == d[i] && r[j] == d[j]);
    }
}

/// Remembering a repository (a storable path) in the list read from any
/// stored text, then writing the list and reading it back, gives the list
/// with that repository first.
pub proof fn lemma_remember_then_read(contents: Seq<char>, repo: Seq<char>)
    requires
        storable(repo),
    ensures
        spec_remember(spec_recent_repos(contents), repo)[0] == repo,
        spec_recent_repos(spec_render_repos(spec_remember(spec_recent_repos(contents), repo)))
            == spec_remember(spec_recent_repos(contents), repo),
{
    lemma_read_list_storable(contents);
    lemma_remember_keeps_list(spec_recent_repos(contents), repo);
    lemma_recent_repos_roundtrip(spec_remember(spec_recent_repos(contents), repo));
}

} // verus!
