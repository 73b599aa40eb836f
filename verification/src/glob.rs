//! Matching of `exclude` patterns against source-relative paths.
//!
//! A pattern matches a whole path. `?` matches one character other than `/`,
//! `*` any run of characters without `/`, `**/` any run of leading
//! directories (possibly none), `**` elsewhere any run of characters, and
//! every other character itself.

use vstd::prelude::*;

use crate::text::chars_of;

verus! {

/// Whether `p[i..]` starts with `**/`.
pub open spec fn at_dirs_wildcard(p: Seq<char>, i: int) -> bool {
    0 <= i && i + 2 < p.len() && p[i] == '*' && p[i + 1] == '*' && p[i + 2] == '/'
}

/// Whether `p[i..]` starts with `**`.
pub open spec fn at_double_star(p: Seq<char>, i: int) -> bool {
    0 <= i && i + 1 < p.len() && p[i] == '*' && p[i + 1] == '*'
}

/// Whether the pattern `p[i..]` matches the text `t[j..]`.
pub open spec fn glob_at(p: Seq<char>, i: int, t: Seq<char>, j: int) -> bool
    decreases p.len() - i + t.len() - j, 0int,
{
    if i < 0 || j < 0 || i > p.len() || j > t.len() {
        false
    } else if i == p.len() {
        j == t.len()
    } else if at_dirs_wildcard(p, i) {
        dirs_then(p, i + 3, t, j)
    } else if at_double_star(p, i) {
        glob_at(p, i + 2, t, j) || (j < t.len() && glob_at(p, i, t, j + 1))
    } else if p[i] == '*' {
        glob_at(p, i + 1, t, j) || (j < t.len() && t[j] != '/' && glob_at(p, i, t, j + 1))
    } else if p[i] == '?' {
        j < t.len() && t[j] != '/' && glob_at(p, i + 1, t, j + 1)
    } else {
        j < t.len() && t[j] == p[i] && glob_at(p, i + 1, t, j + 1)
    }
}

/// Whether `p[i..]` matches `t[j..]` after skipping any number of whole
/// leading directories of `t[j..]` (each ending with `/`).
pub open spec fn dirs_then(p: Seq<char>, i: int, t: Seq<char>, j: int) -> bool
    decreases p.len() - i + t.len() - j, 2int,
{
    if i < 0 || j < 0 || i > p.len() || j > t.len() {
        false
    } else {
        glob_at(p, i, t, j) || skip_directory(p, i, t, j)
    }
}

/// Whether, after the first `/` of `t[j..]`, `dirs_then(p, i, ..)` holds.
pub open spec fn skip_directory(p: Seq<char>, i: int, t: Seq<char>, j: int) -> bool
    decreases p.len() - i + t.len() - j, 1int,
{
    if i < 0 || j < 0 || i > p.len() || j >= t.len() {
        false
    } else if t[j] == '/' {
        dirs_then(p, i, t, j + 1)
    } else {
        skip_directory(p, i, t, j + 1)
    }
}

/// Whether `pattern` matches the whole of `text`.
pub open spec fn glob_matches(pattern: Seq<char>, text: Seq<char>) -> bool {
    glob_at(pattern, 0, text, 0)
}

fn match_at(p: &Vec<char>, i: usize, t: &Vec<char>, j: usize) -> (res: bool)
    requires
        i <= p.len(),
        j <= t.len(),
    ensures
        res == glob_at(p@, i as int, t@, j as int),
    decreases p@.len() - i + t@.len() - j, 0int,
{
    if i == p.len() {
        return j == t.len();
    }
    let rest = p.len() - i;
    if rest > 2 && p[i] == '*' && p[i + 1] == '*' && p[i + 2] == '/' {
        return match_dirs_then(p, i + 3, t, j);
    }
    if rest > 1 && p[i] == '*' && p[i + 1] == '*' {
        if match_at(p, i + 2, t, j) {
            return true;
        }
        return j < t.len() && match_at(p, i, t, j + 1);
    }
    if p[i] == '*' {
        if match_at(p, i + 1, t, j) {
            return true;
        }
        return j < t.len() && t[j] != '/' && match_at(p, i, t, j + 1);
    }
    if p[i] == '?' {
        return j < t.len() && t[j] != '/' && match_at(p, i + 1, t, j + 1);
    }
    j < t.len() && t[j] == p[i] && match_at(p, i + 1, t, j + 1)
}

fn match_dirs_then(p: &Vec<char>, i: usize, t: &Vec<char>, j: usize) -> (res: bool)
    requires
        i <= p.len(),
        j <= t.len(),
    ensures
        res == dirs_then(p@, i as int, t@, j as int),
    decreases p@.len() - i + t@.len() - j, 2int,
{
    if match_at(p, i, t, j) {
        return true;
    }
    match_skip_directory(p, i, t, j)
}

fn match_skip_directory(p: &Vec<char>, i: usize, t: &Vec<char>, j: usize) -> (res: bool)
    requires
        i <= p.len(),
        j <= t.len(),
    ensures
        res == skip_directory(p@, i as int, t@, j as int),
    decreases p@.len() - i + t@.len() - j, 1int,
{
    let mut k: usize = j;
    while k < t.len() && t[k] != '/'
        invariant
            j <= k <= t.len(),
            skip_directory(p@, i as int, t@, j as int) == skip_directory(p@, i as int, t@, k as int),
        decreases t.len() - k,
    {
        k += 1;
    }
    if k == t.len() {
        return false;
    }
    match_dirs_then(p, i, t, k + 1)
}

/// Whether `pattern` matches the whole of `text`.
pub fn pattern_matches(pattern: &String, text: &String) -> (res: bool)
    ensures
        res == glob_matches(pattern@, text@),
{
    let p = chars_of(pattern.as_str());
    let t = chars_of(text.as_str());
    match_at(&p, 0, &t, 0)
}


/// A pattern without `*` or `?`: every character stands for itself.
pub open spec fn is_literal_pattern(p: Seq<char>) -> bool {
    forall|k: int| 0 <= k < p.len() ==> #[trigger] p[k] != '*' && p[k] != '?'
}

proof fn lemma_literal_at(p: Seq<char>, i: int, t: Seq<char>, j: int)
    requires
        is_literal_pattern(p),
        0 <= i <= p.len(),
        0 <= j <= t.len(),
    ensures
        glob_at(p, i, t, j) == (p.skip(i) == t.skip(j)),
    decreases p.len() - i,
{
    if i == p.len() {
        assert(p.skip(i) =~= Seq::<char>::empty());
        if j < t.len() {
            assert(t.skip(j).len() > 0);
        } else {
            assert(t.skip(j) =~= Seq::<char>::empty());
        }
    } else {
        assert(p[i] != '*' && p[i] != '?');
        if j < t.len() {
            lemma_literal_at(p, i + 1, t, j + 1);
            assert(p.skip(i) =~= seq![p[i]] + p.skip(i + 1));
            assert(t.skip(j) =~= seq![t[j]] + t.skip(j + 1));
            if p.skip(i) == t.skip(j) {
                assert(p.skip(i)[0] == t.skip(j)[0]);
                assert(p.skip(i + 1) =~= p.skip(i).drop_first());
                assert(t.skip(j + 1) =~= t.skip(j).drop_first());
            }
        } else {
            assert(t.skip(j).len() == 0);
        }
    }
}

/// A pattern without wildcards matches exactly the text it spells.
pub proof fn lemma_literal_pattern_matches_only_itself(pattern: Seq<char>, text: Seq<char>)
    requires
        is_literal_pattern(pattern),
    ensures
        glob_matches(pattern, text) <==> pattern == text,
{
    lemma_literal_at(pattern, 0, text, 0);
    assert(pattern.skip(0) == pattern);
    assert(text.skip(0) == text);
}

/// `long` is `short` with `offset` characters in front.
pub open spec fn ends_with_at(long: Seq<char>, short: Seq<char>, offset: int) -> bool {
    &&& 0 <= offset
    &&& long.len() == short.len() + offset
    &&& forall|k: int| 0 <= k < short.len() ==> long[k + offset] == #[trigger] short[k]
}

proof fn lemma_glob_at_shift(
    p: Seq<char>,
    q: Seq<char>,
    d: int,
    b: Seq<char>,
    t: Seq<char>,
    e: int,
    i: int,
    j: int,
)
    requires
        ends_with_at(q, p, d),
        ends_with_at(t, b, e),
        0 <= i <= p.len(),
        0 <= j <= b.len(),
    ensures
        glob_at(q, i + d, t, j + e) == glob_at(p, i, b, j),
    decreases p.len() - i + b.len() - j, 0int,
{
    if i < p.len() {
        assert(q[i + d] == p[i]);
        if i + 1 < p.len() {
            assert(q[i + 1 + d] == p[i + 1]);
        }
        if i + 2 < p.len() {
            assert(q[i + 2 + d] == p[i + 2]);
        }
        if j < b.len() {
            assert(t[j + e] == b[j]);
        }
        if at_dirs_wildcard(p, i) {
            lemma_dirs_then_shift(p, q, d, b, t, e, i + 3, j);
        } else if at_double_star(p, i) {
            lemma_glob_at_shift(p, q, d, b, t, e, i + 2, j);
            if j < b.len() {
                lemma_glob_at_shift(p, q, d, b, t, e, i, j + 1);
            }
        } else if p[i] == '*' {
            lemma_glob_at_shift(p, q, d, b, t, e, i + 1, j);
            if j < b.len() {
                lemma_glob_at_shift(p, q, d, b, t, e, i, j + 1);
            }
        } else if j < b.len() {
            lemma_glob_at_shift(p, q, d, b, t, e, i + 1, j + 1);
        }
    }
}

proof fn lemma_dirs_then_shift(
    p: Seq<char>,
    q: Seq<char>,
    d: int,
    b: Seq<char>,
    t: Seq<char>,
    e: int,
    i: int,
    j: int,
)
    requires
        ends_with_at(q, p, d),
        ends_with_at(t, b, e),
        0 <= i <= p.len(),
        0 <= j <= b.len(),
    ensures
        dirs_then(q, i + d, t, j + e) == dirs_then(p, i, b, j),
    decreases p.len() - i + b.len() - j, 2int,
{
    lemma_glob_at_shift(p, q, d, b, t, e, i, j);
    lemma_skip_directory_shift(p, q, d, b, t, e, i, j);
}

proof fn lemma_skip_directory_shift(
    p: Seq<char>,
    q: Seq<char>,
    d: int,
    b: Seq<char>,
    t: Seq<char>,
    e: int,
    i: int,
    j: int,
)
    requires
        ends_with_at(q, p, d),
        ends_with_at(t, b, e),
        0 <= i <= p.len(),
        0 <= j <= b.len(),
    ensures
        skip_directory(q, i + d, t, j + e) == skip_directory(p, i, b, j),
    decreases p.len() - i + b.len() - j, 1int,
{
    if j < b.len() {
        assert(t[j + e] == b[j]);
        lemma_dirs_then_shift(p, q, d, b, t, e, i, j + 1);
        lemma_skip_directory_shift(p, q, d, b, t, e, i, j + 1);
    }
}

proof fn lemma_star_absorbs(q: Seq<char>, t: Seq<char>, j: int, n: int)
    requires
        q.len() >= 1,
        q[0] == '*',
        !(q.len() >= 2 && q[1] == '*'),
        0 <= j <= n <= t.len(),
        forall|k: int| j <= k < n ==> #[trigger] t[k] != '/',
        glob_at(q, 1, t, n),
    ensures
        glob_at(q, 0, t, j),
    decreases n - j,
{
    if j < n {
        lemma_star_absorbs(q, t, j + 1, n);
        assert(t[j] != '/');
    }
}

/// A leading `*` absorbs any run of characters without `/`, dots
/// included: when `pattern` (not itself starting with `*`) matches `rest`,
/// `*` followed by `pattern` matches `rest` with any such run in front (so
/// `*.swp` matches `.vimrc.swp`).
pub proof fn lemma_leading_star_absorbs_a_run(pattern: Seq<char>, run: Seq<char>, rest: Seq<char>)
    requires
        !(pattern.len() > 0 && pattern[0] == '*'),
        forall|k: int| 0 <= k < run.len() ==> #[trigger] run[k] != '/',
        glob_matches(pattern, rest),
    ensures
        glob_matches(seq!['*'] + pattern, run + rest),
{
    let q = seq!['*'] + pattern;
    let t = run + rest;
    assert(ends_with_at(q, pattern, 1)) by {
        assert forall|k: int| 0 <= k < pattern.len() implies q[k + 1] == #[trigger] pattern[k] by {}
    }
    assert(ends_with_at(t, rest, run.len() as int)) by {
        assert forall|k: int| 0 <= k < rest.len() implies t[k + run.len()] == #[trigger] rest[k] by {}
    }
    lemma_glob_at_shift(pattern, q, 1, rest, t, run.len() as int, 0, 0);
    assert forall|k: int| 0 <= k < run.len() implies #[trigger] t[k] != '/' by {
        assert(t[k] == run[k]);
    }
    lemma_star_absorbs(q, t, 0, run.len() as int);
}

proof fn lemma_lone_star_at(t: Seq<char>, j: int)
    requires
        0 <= j <= t.len(),
    ensures
        glob_at(seq!['*'], 0, t, j) == (forall|k: int| j <= k < t.len() ==> #[trigger] t[k] != '/'),
    decreases t.len() - j,
{
    let q = seq!['*'];
    assert(q.len() == 1 && q[0] == '*');
    assert(!at_dirs_wildcard(q, 0) && !at_double_star(q, 0));
    assert(glob_at(q, 1, t, j) == (j == t.len()));
    if j < t.len() {
        lemma_lone_star_at(t, j + 1);
    }
}

/// `*` alone matches exactly the texts without `/`: it never runs across a
/// directory separator.
pub proof fn lemma_lone_star_matches(text: Seq<char>)
    ensures
        glob_matches(seq!['*'], text) == (forall|k: int| 0 <= k < text.len() ==> #[trigger] text[k] != '/'),
{
    lemma_lone_star_at(text, 0);
}

/// `?` alone matches exactly the one-character texts other than `/`.
pub proof fn lemma_lone_question_mark_matches(text: Seq<char>)
    ensures
        glob_matches(seq!['?'], text) == (text.len() == 1 && text[0] != '/'),
{
    let q = seq!['?'];
    assert(q.len() == 1 && q[0] == '?');
    assert(!at_dirs_wildcard(q, 0) && !at_double_star(q, 0));
    if text.len() >= 1 {
        assert(glob_at(q, 1, text, 1) == (1 == text.len()));
    }
}

proof fn lemma_double_star_at(t: Seq<char>, j: int)
    requires
        0 <= j <= t.len(),
    ensures
        glob_at(seq!['*', '*'], 0, t, j),
    decreases t.len() - j,
{
    let q = seq!['*', '*'];
    assert(q.len() == 2 && q[0] == '*' && q[1] == '*');
    assert(!at_dirs_wildcard(q, 0) && at_double_star(q, 0));
    assert(glob_at(q, 2, t, j) == (j == t.len()));
    if j < t.len() {
        lemma_double_star_at(t, j + 1);
    }
}

/// `**` alone matches every text, separators included.
pub proof fn lemma_double_star_matches_everything(text: Seq<char>)
    ensures
        glob_matches(seq!['*', '*'], text),
{
    lemma_double_star_at(text, 0);
}

proof fn lemma_skip_to_separator(q: Seq<char>, i: int, t: Seq<char>, j: int, n: int)
    requires
        0 <= i <= q.len(),
        0 <= j <= n < t.len(),
        t[n] == '/',
        forall|k: int| j <= k < n ==> #[trigger] t[k] != '/',
        dirs_then(q, i, t, n + 1),
    ensures
        skip_directory(q, i, t, j),
    decreases n - j,
{
    if j < n {
        lemma_skip_to_separator(q, i, t, j + 1, n);
    }
}

/// `**/` in front of a pattern lets it match after any leading directory
/// or none: when `pattern` matches `rest`, `**/` followed by `pattern`
/// matches `rest` and `directory/rest` for a directory name without `/`.
pub proof fn lemma_leading_directories_wildcard(pattern: Seq<char>, directory: Seq<char>, rest: Seq<char>)
    requires
        forall|k: int| 0 <= k < directory.len() ==> #[trigger] directory[k] != '/',
        glob_matches(pattern, rest),
    ensures
        glob_matches(seq!['*', '*', '/'] + pattern, rest),
        glob_matches(seq!['*', '*', '/'] + pattern, directory + seq!['/'] + rest),
{
    let q = seq!['*', '*', '/'] + pattern;
    assert(ends_with_at(q, pattern, 3)) by {
        assert forall|k: int| 0 <= k < pattern.len() implies q[k + 3] == #[trigger] pattern[k] by {}
    }
    assert(ends_with_at(rest, rest, 0));
    lemma_glob_at_shift(pattern, q, 3, rest, rest, 0, 0, 0);
    assert(q[0] == '*' && q[1] == '*' && q[2] == '/');
    assert(at_dirs_wildcard(q, 0));
    assert(dirs_then(q, 3, rest, 0));
    let t = directory + seq!['/'] + rest;
    let n = directory.len() as int;
    assert(ends_with_at(t, rest, n + 1)) by {
        assert forall|k: int| 0 <= k < rest.len() implies t[k + n + 1] == #[trigger] rest[k] by {}
    }
    lemma_glob_at_shift(pattern, q, 3, rest, t, n + 1, 0, 0);
    assert(t[n] == '/');
    assert forall|k: int| 0 <= k < n implies #[trigger] t[k] != '/' by {
        assert(t[k] == directory[k]);
    }
    assert(dirs_then(q, 3, t, n + 1));
    lemma_skip_to_separator(q, 3, t, 0, n);
    assert(dirs_then(q, 3, t, 0));
}

} // verus!
