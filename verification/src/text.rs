//! Text and path helpers shared by every planning stage.
//!
//! Paths are carried as `String` values with Unix separators. The spec
//! functions here describe path composition over `Seq<char>`.

use vstd::prelude::*;

verus! {

/// `String::push`: the text after the call is the old text with `c` appended.
#[verifier::external_body]
pub(crate) fn push_char(text: &mut String, c: char)
    ensures
        final(text)@ == old(text)@.push(c),
{
    text.push(c);
}

/// The characters of `text`, in order.
pub fn chars_of(text: &str) -> (res: Vec<char>)
    ensures
        res@ == text@,
{
    let mut res: Vec<char> = Vec::new();
    for c in it: text.chars()
        invariant
            res@ == it.seq().take(it.index() as int),
    {
        res.push(c);
    }
    res
}

/// A `String` holding the characters `chars[from..to]`.
pub fn string_from_char_range(chars: &Vec<char>, from: usize, to: usize) -> (res: String)
    requires
        from <= to <= chars.len(),
    ensures
        res@ == chars@.subrange(from as int, to as int),
{
    let mut res = String::new();
    let mut i: usize = from;
    while i < to
        invariant
            from <= i <= to <= chars.len(),
            res@ == chars@.subrange(from as int, i as int),
        decreases to - i,
    {
        push_char(&mut res, chars[i]);
        assert(chars@.subrange(from as int, i as int + 1) == chars@.subrange(
            from as int,
            i as int,
        ).push(chars@[i as int]));
        i += 1;
    }
    res
}

/// Whether two texts hold the same characters.
pub fn same_text(a: &String, b: &String) -> (res: bool)
    ensures
        res == (a@ == b@),
{
    *a == *b
}

/// The texts of `list` joined by `sep`.
pub open spec fn seq_join(list: Seq<Seq<char>>, sep: Seq<char>) -> Seq<char>
    decreases list.len(),
{
    if list.len() == 0 {
        Seq::empty()
    } else if list.len() == 1 {
        list[0]
    } else {
        seq_join(list.drop_last(), sep) + sep + list.last()
    }
}

/// The views of a sequence of `String`s.
pub open spec fn texts_view(list: Seq<String>) -> Seq<Seq<char>> {
    list.map_values(|s: String| s@)
}

/// Joins the texts of `list` with `sep` between neighbours.
pub fn join_texts(list: &Vec<String>, sep: &str) -> (res: String)
    ensures
        res@ == seq_join(texts_view(list@), sep@),
{
    let mut res = String::new();
    let ghost views = texts_view(list@);
    let mut i: usize = 0;
    while i < list.len()
        invariant
            i <= list.len(),
            views == texts_view(list@),
            res@ == seq_join(views.take(i as int), sep@),
        decreases list.len() - i,
    {
        assert(views.take(i as int + 1).drop_last() == views.take(i as int));
        if i != 0 {
            res.append(sep);
        }
        res.append(list[i].as_str());
        i += 1;
    }
    assert(views.take(list.len() as int) == views);
    res
}

// ---------------------------------------------------------------------------
// Paths
// ---------------------------------------------------------------------------

/// An absolute path starts at the root separator.
pub open spec fn is_absolute_path(path: Seq<char>) -> bool {
    path.len() > 0 && path[0] == '/'
}

/// `base` joined with `rel`, as `PathBuf::push` composes them: an absolute
/// `rel` replaces `base`, an empty `base` yields `rel`, and otherwise a
/// separator is inserted unless `base` already ends with one.
pub open spec fn path_join(base: Seq<char>, rel: Seq<char>) -> Seq<char> {
    if is_absolute_path(rel) {
        rel
    } else if base.len() == 0 {
        rel
    } else if base.last() == '/' {
        base + rel
    } else {
        base.push('/') + rel
    }
}

/// `~` and `~/...` expanded against `home`; every other path unchanged.
pub open spec fn expand_home_path(path: Seq<char>, home: Seq<char>) -> Seq<char> {
    if path == seq!['~'] {
        home
    } else if path.len() >= 2 && path[0] == '~' && path[1] == '/' {
        path_join(home, path.skip(2))
    } else {
        path
    }
}

/// Whether `path` is `~` or starts with `~/`.
pub open spec fn is_home_relative(path: Seq<char>) -> bool {
    path == seq!['~'] || (path.len() >= 2 && path[0] == '~' && path[1] == '/')
}

/// Index of the last separator in `path[..end]`, if any.
pub open spec fn last_separator_before(path: Seq<char>, end: int) -> Option<int>
    decreases end,
{
    if end <= 0 {
        None
    } else if path[end - 1] == '/' {
        Some(end - 1)
    } else {
        last_separator_before(path, end - 1)
    }
}

/// A separator found before `end` lies before `end`.
pub proof fn lemma_last_separator_before_bounds(path: Seq<char>, end: int)
    ensures
        last_separator_before(path, end) matches Some(i) ==> 0 <= i < end && path[i] == '/',
    decreases end,
{
    if end > 0 && path[end - 1] != '/' {
        lemma_last_separator_before_bounds(path, end - 1);
    }
}

/// The index of the last separator in `p[from..end]`, if any.
pub open spec fn separator_in(p: Seq<char>, from: int, end: int) -> Option<int>
    decreases end - from,
{
    if end <= from {
        None
    } else if p[end - 1] == '/' {
        Some(end - 1)
    } else {
        separator_in(p, from, end - 1)
    }
}

/// Where the text of `p[..end]` ends once its last component, read back
/// from `end` and not before `from`, is taken off: at its separator, or at
/// `from`.
pub open spec fn cut_before(p: Seq<char>, from: int, end: int) -> int {
    match separator_in(p, from, end) {
        Some(i) => i,
        None => from,
    }
}

/// Where the last component of `p[..end]` starts, not before `from`.
pub open spec fn component_start(p: Seq<char>, from: int, end: int) -> int {
    match separator_in(p, from, end) {
        Some(i) => i + 1,
        None => from,
    }
}

/// Where the text of `p[..end]` ends once trailing separators and `.`
/// segments are left out, not going below `from`.
pub open spec fn body_end(p: Seq<char>, from: int, end: int) -> int
    decreases end - from,
{
    if end <= from {
        end
    } else {
        proof {
            lemma_separator_in_bounds(p, from, end);
        }
        let name = p.subrange(component_start(p, from, end), end);
        if name.len() > 0 && name != seq!['.'] {
            end
        } else {
            body_end(p, from, cut_before(p, from, end))
        }
    }
}

/// A separator found in `p[from..end]` lies there.
pub proof fn lemma_separator_in_bounds(p: Seq<char>, from: int, end: int)
    ensures
        separator_in(p, from, end) matches Some(i) ==> from <= i < end && p[i] == '/',
    decreases end - from,
{
    if end > from && p[end - 1] != '/' {
        lemma_separator_in_bounds(p, from, end - 1);
    }
}

/// Trimming the end never goes past `end` nor below `from`.
pub proof fn lemma_body_end_bounds(p: Seq<char>, from: int, end: int)
    requires
        from <= end,
    ensures
        from <= body_end(p, from, end) <= end,
    decreases end - from,
{
    if end > from {
        lemma_separator_in_bounds(p, from, end);
        let name = p.subrange(component_start(p, from, end), end);
        if !(name.len() > 0 && name != seq!['.']) {
            lemma_body_end_bounds(p, from, cut_before(p, from, end));
        }
    }
}

/// The directory containing `path`, as `Path::parent` gives it: trailing
/// separators and `.` segments are left out, then the last component, then
/// the separators and `.` segments before it; the root and the empty path
/// have no parent, and a path whose only component is a leading `.` has
/// the empty path.
pub open spec fn path_parent(path: Seq<char>) -> Option<Seq<char>> {
    let from = lead_len(path);
    let end = body_end(path, from, path.len() as int);
    if end > from {
        Some(path.take(body_end(path, from, cut_before(path, from, end))))
    } else if from == 1 && !(path.len() > 0 && path[0] == '/') {
        Some(Seq::empty())
    } else {
        None
    }
}

/// A parent is shorter than its path.
pub proof fn lemma_path_parent_shorter(path: Seq<char>)
    ensures
        path_parent(path) matches Some(parent) ==> parent.len() < path.len(),
{
    let from = lead_len(path);
    if path.len() == 0 {
        assert(path.subrange(0, next_separator(path, 0)) =~= Seq::<char>::empty());
    }
    assert(from <= path.len());
    lemma_body_end_bounds(path, from, path.len() as int);
    let end = body_end(path, from, path.len() as int);
    if end > from {
        lemma_separator_in_bounds(path, from, end);
        lemma_body_end_bounds(path, from, cut_before(path, from, end));
    }
}

fn is_absolute_chars(chars: &Vec<char>) -> (res: bool)
    ensures
        res == is_absolute_path(chars@),
{
    chars.len() > 0 && chars[0] == '/'
}

/// Whether `path` is absolute.
pub fn is_absolute(path: &String) -> (res: bool)
    ensures
        res == is_absolute_path(path@),
{
    let chars = chars_of(path.as_str());
    is_absolute_chars(&chars)
}

/// `base` joined with `rel` (see [`path_join`]).
pub fn join_path(base: &String, rel: &String) -> (res: String)
    ensures
        res@ == path_join(base@, rel@),
{
    let base_chars = chars_of(base.as_str());
    let rel_chars = chars_of(rel.as_str());
    if is_absolute_chars(&rel_chars) || base_chars.len() == 0 {
        return rel.clone();
    }
    let mut res = base.clone();
    if base_chars[base_chars.len() - 1] != '/' {
        push_char(&mut res, '/');
    }
    res.append(rel.as_str());
    res
}

/// Expands `~` or `~/...` using `home_directory`, otherwise returns `path`
/// unchanged.
pub fn expand_home_prefixed_or_literal_path(path: &String, home_directory: &String) -> (res:
    String)
    ensures
        res@ == expand_home_path(path@, home_directory@),
{
    let chars = chars_of(path.as_str());
    if chars.len() == 1 && chars[0] == '~' {
        assert(chars@ == seq!['~']);
        return home_directory.clone();
    }
    if chars.len() >= 2 && chars[0] == '~' && chars[1] == '/' {
        assert(path@ != seq!['~']);
        let suffix = string_from_char_range(&chars, 2, chars.len());
        assert(chars@.subrange(2, chars@.len() as int) == chars@.skip(2));
        return join_path(home_directory, &suffix);
    }
    assert(path@ != seq!['~']) by {
        if path@ == seq!['~'] {
            assert(chars@.len() == 1);
        }
    }
    path.clone()
}

/// Whether `path` is `~` or starts with `~/`.
pub fn home_relative(path: &String) -> (res: bool)
    ensures
        res == is_home_relative(path@),
{
    let chars = chars_of(path.as_str());
    let res = (chars.len() == 1 && chars[0] == '~') || (chars.len() >= 2 && chars[0] == '~'
        && chars[1] == '/');
    proof {
        if chars.len() == 1 && chars[0] == '~' {
            assert(chars@ == seq!['~']);
        }
        if path@ == seq!['~'] {
            assert(chars@.len() == 1);
        }
    }
    res
}

fn separator_before(chars: &Vec<char>, from: usize, end: usize) -> (res: Option<usize>)
    requires
        from <= end <= chars.len(),
    ensures
        match separator_in(chars@, from as int, end as int) {
            Some(i) => res == Some(i as usize),
            None => res is None,
        },
{
    let mut i: usize = end;
    while i > from && chars[i - 1] != '/'
        invariant
            from <= i <= end <= chars.len(),
            separator_in(chars@, from as int, end as int) == separator_in(chars@, from as int, i as int),
        decreases i,
    {
        i -= 1;
    }
    if i > from {
        Some(i - 1)
    } else {
        None
    }
}

fn body_end_of(chars: &Vec<char>, from: usize, end: usize) -> (res: usize)
    requires
        from <= end <= chars.len(),
    ensures
        res as int == body_end(chars@, from as int, end as int),
{
    let mut e: usize = end;
    loop
        invariant
            from <= e <= end <= chars.len(),
            body_end(chars@, from as int, end as int) == body_end(chars@, from as int, e as int),
        decreases e,
    {
        if e <= from {
            return e;
        }
        let sep = separator_before(chars, from, e);
        proof {
            lemma_separator_in_bounds(chars@, from as int, e as int);
        }
        let (cut, start) = match sep {
            Some(i) => (i, i + 1),
            None => (from, from),
        };
        let named = e > start && !(e - start == 1 && chars[start] == '.');
        proof {
            let name = chars@.subrange(start as int, e as int);
            if e - start == 1 {
                assert(name[0] == chars@[start as int]);
                if chars@[start as int] == '.' {
                    assert(name =~= seq!['.']);
                }
            }
            if name == seq!['.'] {
                assert(name.len() == 1);
                assert(name[0] == '.');
            }
            assert(named == (name.len() > 0 && name != seq!['.']));
        }
        if named {
            return e;
        }
        e = cut;
    }
}

/// The text of a path with trailing separators and `.` segments left out,
/// keeping its root or leading `.`.
pub open spec fn without_trailing(path: Seq<char>) -> Seq<char> {
    path.take(body_end(path, lead_len(path), path.len() as int))
}

/// The text of `chars` with trailing separators and `.` segments left out
/// (see [`without_trailing`]).
pub fn text_without_trailing(chars: &Vec<char>) -> (res: String)
    ensures
        res@ == without_trailing(chars@),
{
    let from = lead_length(chars);
    if chars.len() == 0 {
        assert(chars@.subrange(0, next_separator(chars@, 0)) =~= Seq::<char>::empty());
    }
    let end = body_end_of(chars, from, chars.len());
    proof {
        lemma_body_end_bounds(chars@, from as int, chars.len() as int);
    }
    let res = string_from_char_range(chars, 0, end);
    assert(chars@.subrange(0, end as int) =~= chars@.take(end as int));
    res
}

/// The directory containing `path` (see [`path_parent`]).
pub fn parent_path(path: &String) -> (res: Option<String>)
    ensures
        res matches Some(p) ==> path_parent(path@) == Some(p@),
        res is None ==> path_parent(path@) is None,
{
    let chars = chars_of(path.as_str());
    let from = lead_length(&chars);
    if chars.len() == 0 {
        assert(chars@.subrange(0, next_separator(chars@, 0)) =~= Seq::<char>::empty());
    }
    let end = body_end_of(&chars, from, chars.len());
    proof {
        lemma_body_end_bounds(chars@, from as int, chars.len() as int);
    }
    if end > from {
        let sep = separator_before(&chars, from, end);
        proof {
            lemma_separator_in_bounds(chars@, from as int, end as int);
        }
        let cut = match sep {
            Some(i) => i,
            None => from,
        };
        let parent_end = body_end_of(&chars, from, cut);
        proof {
            lemma_body_end_bounds(chars@, from as int, cut as int);
        }
        let parent = string_from_char_range(&chars, 0, parent_end);
        assert(chars@.subrange(0, parent_end as int) =~= path@.take(parent_end as int));
        Some(parent)
    } else if from == 1 && !(chars.len() > 0 && chars[0] == '/') {
        Some(String::new())
    } else {
        None
    }
}

// ---------------------------------------------------------------------------
// Path components
// ---------------------------------------------------------------------------

/// The index of the first separator in `p[i..]`, or the end of `p`.
pub open spec fn next_separator(p: Seq<char>, i: int) -> int
    decreases p.len() - i,
{
    if i >= p.len() || i < 0 {
        p.len() as int
    } else if p[i] == '/' {
        i
    } else {
        next_separator(p, i + 1)
    }
}

/// The names between separators in `p[start..]`, empty names and `.`
/// left out.
pub open spec fn named_components_from(p: Seq<char>, start: int) -> Seq<Seq<char>>
    decreases p.len() - start + 1,
{
    if start > p.len() || start < 0 {
        Seq::empty()
    } else {
        proof {
            lemma_next_separator_bounds(p, start);
        }
        let end = next_separator(p, start);
        let name = p.subrange(start, end);
        let rest = named_components_from(p, end + 1);
        if name.len() > 0 && name != seq!['.'] {
            seq![name] + rest
        } else {
            rest
        }
    }
}

/// The components of a path as `Path::components` yields them: the root
/// (written `/`) of an absolute path, a leading `.` of a relative one, then
/// every name, with repeated separators, inner `.` names and a trailing
/// separator left out.
pub open spec fn path_components(p: Seq<char>) -> Seq<Seq<char>> {
    let lead = if p.len() > 0 && p[0] == '/' {
        seq![seq!['/']]
    } else if p.subrange(0, next_separator(p, 0)) == seq!['.'] {
        seq![seq!['.']]
    } else {
        Seq::empty()
    };
    lead + named_components_from(p, 0)
}

/// Two paths are the same path when their components agree, as `Path`
/// equality has it.
pub open spec fn same_path_spec(a: Seq<char>, b: Seq<char>) -> bool {
    path_components(a) == path_components(b)
}

/// The separator found from `i` lies at or after `i`, and none comes before
/// it.
pub proof fn lemma_next_separator_bounds(p: Seq<char>, i: int)
    requires
        0 <= i,
    ensures
        i <= next_separator(p, i) <= p.len() || (i > p.len() && next_separator(p, i) == p.len()),
        next_separator(p, i) < p.len() ==> p[next_separator(p, i)] == '/',
        forall|k: int| i <= k < next_separator(p, i) ==> p[k] != '/',
    decreases p.len() - i,
{
    if i < p.len() && p[i] != '/' {
        lemma_next_separator_bounds(p, i + 1);
    }
}

fn find_separator(chars: &Vec<char>, start: usize) -> (res: usize)
    requires
        start <= chars.len(),
    ensures
        res == next_separator(chars@, start as int),
{
    let mut i: usize = start;
    while i < chars.len() && chars[i] != '/'
        invariant
            start <= i <= chars.len(),
            next_separator(chars@, start as int) == next_separator(chars@, i as int),
        decreases chars.len() - i,
    {
        i += 1;
    }
    i
}

/// The components of `path` (see [`path_components`]).
pub fn components_of(path: &String) -> (res: Vec<String>)
    ensures
        texts_view(res@) == path_components(path@),
{
    let chars = chars_of(path.as_str());
    let mut res: Vec<String> = Vec::new();
    let first_end = find_separator(&chars, 0);
    proof {
        lemma_next_separator_bounds(chars@, 0);
    }
    if chars.len() > 0 && chars[0] == '/' {
        res.push(String::from_str("/"));
        proof {
            reveal_strlit("/");
            assert(res@[0]@ =~= seq!['/']);
            assert(texts_view(res@) =~= seq![seq!['/']]);
        }
    } else if first_end == 1 && chars[0] == '.' {
        res.push(String::from_str("."));
        proof {
            reveal_strlit(".");
            assert(chars@.subrange(0, 1) =~= seq!['.']);
            assert(res@[0]@ =~= seq!['.']);
            assert(texts_view(res@) =~= seq![seq!['.']]);
        }
    } else {
        proof {
            if chars@.subrange(0, first_end as int) == seq!['.'] {
                assert(chars@.subrange(0, first_end as int).len() == 1);
                assert(chars@.subrange(0, first_end as int)[0] == chars@[0]);
            }
            assert(texts_view(res@) =~= Seq::<Seq<char>>::empty());
        }
    }
    assert(chars@ == path@);
    let ghost lead = texts_view(res@);
    assert(lead + named_components_from(chars@, 0) == path_components(path@));
    let mut start: usize = 0;
    loop
        invariant
            start <= chars.len(),
            texts_view(res@) + named_components_from(chars@, start as int) == path_components(path@),
        decreases chars.len() - start,
    {
        let end = find_separator(&chars, start);
        proof {
            lemma_next_separator_bounds(chars@, start as int);
        }
        let name = string_from_char_range(&chars, start, end);
        let keep = end > start && !(end - start == 1 && chars[start] == '.');
        let ghost rest = if end < chars.len() { named_components_from(chars@, end as int + 1) } else {
            Seq::empty()
        };
        proof {
            assert(name@.len() == end - start);
            if end - start == 1 {
                assert(name@[0] == chars@[start as int]);
                if chars@[start as int] == '.' {
                    assert(name@ =~= seq!['.']);
                }
            }
            if name@ == seq!['.'] {
                assert(name@.len() == 1);
                assert(name@[0] == '.');
            }
            assert(keep == (name@.len() > 0 && name@ != seq!['.']));
            if end == chars.len() {
                assert(named_components_from(chars@, end as int + 1) == Seq::<Seq<char>>::empty());
            }
        }
        let ghost before = texts_view(res@);
        if keep {
            res.push(name);
            assert(texts_view(res@) =~= before.push(name@));
        }
        if end == chars.len() {
            assert(texts_view(res@) =~= texts_view(res@) + Seq::<Seq<char>>::empty());
            return res;
        }
        start = end + 1;
    }
}

/// The number of leading components of a path: the root, or a leading `.`
/// of a relative path (see [`path_components`]).
pub open spec fn lead_len(p: Seq<char>) -> int {
    if p.len() > 0 && p[0] == '/' {
        1
    } else if p.subrange(0, next_separator(p, 0)) == seq!['.'] {
        1
    } else {
        0
    }
}

/// Where the text of a path stands after its `n` next names, from `start`
/// on (names as [`named_components_from`] reads them).
pub open spec fn after_names(p: Seq<char>, start: int, n: nat) -> int
    decreases p.len() - start + 1,
{
    if n == 0 {
        start
    } else if start > p.len() || start < 0 {
        p.len() as int
    } else {
        proof {
            lemma_next_separator_bounds(p, start);
        }
        let end = next_separator(p, start);
        let name = p.subrange(start, end);
        if name.len() > 0 && name != seq!['.'] {
            if n == 1 {
                end
            } else {
                after_names(p, end + 1, (n - 1) as nat)
            }
        } else {
            after_names(p, end + 1, n)
        }
    }
}

/// Where the text of a path stands after its first `k` components.
pub open spec fn component_position(p: Seq<char>, k: nat) -> int {
    if k == 0 {
        0
    } else if lead_len(p) == 1 && k == 1 {
        1
    } else {
        after_names(p, 0, (k - lead_len(p)) as nat)
    }
}

/// A path's text with leading separators and `.` segments left out.
pub open spec fn trim_front(s: Seq<char>) -> Seq<char>
    decreases s.len(),
{
    if s.len() > 0 && s[0] == '/' {
        trim_front(s.drop_first())
    } else if s.len() > 0 && s[0] == '.' && (s.len() == 1 || s[1] == '/') {
        trim_front(s.drop_first())
    } else {
        s
    }
}

/// A path's text with trailing separators and `.` segments left out.
pub open spec fn trim_back(s: Seq<char>) -> Seq<char>
    decreases s.len(),
{
    if s.len() > 0 && s.last() == '/' {
        trim_back(s.drop_last())
    } else if s.len() > 0 && s.last() == '.' && (s.len() == 1 || s[s.len() - 2] == '/') {
        trim_back(s.drop_last())
    } else {
        s
    }
}

fn lead_length(chars: &Vec<char>) -> (res: usize)
    ensures
        res as int == lead_len(chars@),
        res <= 1,
{
    let first_end = find_separator(chars, 0);
    proof {
        lemma_next_separator_bounds(chars@, 0);
    }
    if chars.len() > 0 && chars[0] == '/' {
        1
    } else if first_end == 1 && chars[0] == '.' {
        assert(chars@.subrange(0, 1) =~= seq!['.']);
        1
    } else {
        proof {
            if chars@.subrange(0, first_end as int) == seq!['.'] {
                assert(chars@.subrange(0, first_end as int).len() == 1);
                assert(chars@.subrange(0, first_end as int)[0] == chars@[0]);
            }
        }
        0
    }
}

fn position_after_names(chars: &Vec<char>, n: usize) -> (res: usize)
    ensures
        res as int == after_names(chars@, 0, n as nat),
        res <= chars.len(),
{
    let mut pos: usize = 0;
    let mut left: usize = n;
    loop
        invariant
            pos <= chars.len(),
            left == 0 ==> pos == 0,
            after_names(chars@, 0, n as nat) == after_names(chars@, pos as int, left as nat),
        decreases chars.len() + 1 - pos,
    {
        if left == 0 {
            return pos;
        }
        let end = find_separator(chars, pos);
        proof {
            lemma_next_separator_bounds(chars@, pos as int);
        }
        let named = end > pos && !(end - pos == 1 && chars[pos] == '.');
        proof {
            let name = chars@.subrange(pos as int, end as int);
            if end - pos == 1 {
                assert(name[0] == chars@[pos as int]);
                if chars@[pos as int] == '.' {
                    assert(name =~= seq!['.']);
                }
            }
            if name == seq!['.'] {
                assert(name.len() == 1);
                assert(name[0] == '.');
            }
            assert(named == (name.len() > 0 && name != seq!['.']));
        }
        if named {
            if left == 1 {
                return end;
            }
            left = left - 1;
        }
        if end >= chars.len() {
            assert(left > 0);
            assert(after_names(chars@, end as int + 1, left as nat) == chars.len() as int);
            return chars.len();
        }
        pos = end + 1;
    }
}

/// Where the text of `path` stands after its first `k` components (see
/// [`component_position`]).
pub fn position_after_components(chars: &Vec<char>, k: usize) -> (res: usize)
    ensures
        res as int == component_position(chars@, k as nat),
        res <= chars.len(),
{
    if k == 0 {
        return 0;
    }
    let lead = lead_length(chars);
    if lead == 1 && k == 1 {
        if chars.len() == 0 {
            assert(chars@.subrange(0, next_separator(chars@, 0)) =~= Seq::<char>::empty());
        }
        return 1;
    }
    position_after_names(chars, k - lead)
}

/// The text `chars[from..]` with leading and trailing separators and `.`
/// segments left out.
pub fn trimmed_text(chars: &Vec<char>, from: usize) -> (res: String)
    requires
        from <= chars.len(),
    ensures
        res@ == trim_back(trim_front(chars@.subrange(from as int, chars@.len() as int))),
{
    let len = chars.len();
    let mut lo: usize = from;
    while lo < len && (chars[lo] == '/' || (chars[lo] == '.' && (lo + 1 == len || chars[lo + 1] == '/')))
        invariant
            from <= lo <= len,
            len == chars.len(),
            trim_front(chars@.subrange(from as int, len as int)) == trim_front(
                chars@.subrange(lo as int, len as int),
            ),
        decreases len - lo,
    {
        assert(chars@.subrange(lo as int, len as int).drop_first() =~= chars@.subrange(
            lo as int + 1,
            len as int,
        ));
        assert(chars@.subrange(lo as int, len as int)[0] == chars@[lo as int]);
        if lo + 1 < len {
            assert(chars@.subrange(lo as int, len as int)[1] == chars@[lo as int + 1]);
        }
        lo += 1;
    }
    let ghost front = chars@.subrange(lo as int, len as int);
    assert(trim_front(front) == front) by {
        if front.len() > 0 {
            assert(front[0] == chars@[lo as int]);
            if front.len() > 1 {
                assert(front[1] == chars@[lo as int + 1]);
            }
        }
    }
    let mut hi: usize = len;
    while hi > lo && (chars[hi - 1] == '/' || (chars[hi - 1] == '.' && (hi - 1 == lo || chars[hi - 2] == '/')))
        invariant
            lo <= hi <= len,
            len == chars.len(),
            trim_back(chars@.subrange(lo as int, len as int)) == trim_back(
                chars@.subrange(lo as int, hi as int),
            ),
        decreases hi - lo,
    {
        let ghost cur = chars@.subrange(lo as int, hi as int);
        assert(cur.drop_last() =~= chars@.subrange(lo as int, hi as int - 1));
        assert(cur.last() == chars@[hi as int - 1]);
        if hi - 1 > lo {
            assert(cur[cur.len() - 2] == chars@[hi as int - 2]);
        }
        hi -= 1;
    }
    let ghost back = chars@.subrange(lo as int, hi as int);
    assert(trim_back(back) == back) by {
        if back.len() > 0 {
            assert(back.last() == chars@[hi as int - 1]);
            if back.len() > 1 {
                assert(back[back.len() - 2] == chars@[hi as int - 2]);
            }
        }
    }
    string_from_char_range(chars, lo, hi)
}

/// Whether two paths are the same path (see [`same_path_spec`]).
pub fn same_path(a: &String, b: &String) -> (res: bool)
    ensures
        res == same_path_spec(a@, b@),
{
    let left = components_of(a);
    let right = components_of(b);
    if left.len() != right.len() {
        assert(texts_view(left@).len() != texts_view(right@).len());
        assert(texts_view(left@) != texts_view(right@));
        return false;
    }
    let mut i: usize = 0;
    while i < left.len()
        invariant
            i <= left.len(),
            left.len() == right.len(),
            texts_view(left@) == path_components(a@),
            texts_view(right@) == path_components(b@),
            forall|k: int| 0 <= k < i ==> left@[k]@ == right@[k]@,
        decreases left.len() - i,
    {
        if !same_text(&left[i], &right[i]) {
            assert(texts_view(left@)[i as int] != texts_view(right@)[i as int]);
            assert(texts_view(left@) != texts_view(right@));
            return false;
        }
        i += 1;
    }
    assert(texts_view(left@) =~= texts_view(right@));
    true
}

// ---------------------------------------------------------------------------
// Ordering of texts and paths
// ---------------------------------------------------------------------------

/// Strict lexicographic order on texts, character by character: the byte
/// order of UTF-8 strings.
pub open spec fn chars_less(a: Seq<char>, b: Seq<char>) -> bool
    decreases a.len(),
{
    if b.len() == 0 {
        false
    } else if a.len() == 0 {
        true
    } else if (a[0] as int) < (b[0] as int) {
        true
    } else if (a[0] as int) > (b[0] as int) {
        false
    } else {
        chars_less(a.drop_first(), b.drop_first())
    }
}

/// The place of a path component in the order of paths: the root, then a
/// leading `.`, then `..`, then every other name.
pub open spec fn component_rank(c: Seq<char>) -> int {
    if c == seq!['/'] {
        0
    } else if c == seq!['.'] {
        1
    } else if c == seq!['.', '.'] {
        2
    } else {
        3
    }
}

/// Strict order of path components: by rank, and names by their text.
pub open spec fn component_less(a: Seq<char>, b: Seq<char>) -> bool {
    component_rank(a) < component_rank(b) || (component_rank(a) == 3 && component_rank(b) == 3
        && chars_less(a, b))
}

/// Strict lexicographic order on sequences of path components.
pub open spec fn components_less(a: Seq<Seq<char>>, b: Seq<Seq<char>>) -> bool
    decreases a.len(),
{
    if b.len() == 0 {
        false
    } else if a.len() == 0 {
        true
    } else if component_less(a[0], b[0]) {
        true
    } else if component_less(b[0], a[0]) {
        false
    } else {
        components_less(a.drop_first(), b.drop_first())
    }
}

/// Strict order of texts: character by character, or, with `as_path`, as
/// `Path` orders paths, component by component.
pub open spec fn text_less(a: Seq<char>, b: Seq<char>, as_path: bool) -> bool {
    if as_path {
        components_less(path_components(a), path_components(b))
    } else {
        chars_less(a, b)
    }
}

/// Whether two texts stand for the same entry: equal texts, or, with
/// `as_path`, the same path.
pub open spec fn same_entry(a: Seq<char>, b: Seq<char>, as_path: bool) -> bool {
    if as_path {
        same_path_spec(a, b)
    } else {
        a == b
    }
}

fn code_of(c: char) -> (res: u32)
    ensures
        res as int == c as int,
{
    c as u32
}

fn less_chars(a: &Vec<char>, b: &Vec<char>) -> (res: bool)
    ensures
        res == chars_less(a@, b@),
{
    let mut i: usize = 0;
    assert(a@.skip(0) == a@);
    assert(b@.skip(0) == b@);
    while i < a.len() && i < b.len() && code_of(a[i]) == code_of(b[i])
        invariant
            i <= a.len(),
            i <= b.len(),
            chars_less(a@, b@) == chars_less(a@.skip(i as int), b@.skip(i as int)),
        decreases a.len() - i,
    {
        assert(a@.skip(i as int)[0] == a@[i as int]);
        assert(b@.skip(i as int)[0] == b@[i as int]);
        assert(a@.skip(i as int).drop_first() == a@.skip(i as int + 1));
        assert(b@.skip(i as int).drop_first() == b@.skip(i as int + 1));
        i += 1;
    }
    if i == b.len() {
        false
    } else if i == a.len() {
        true
    } else {
        assert(a@.skip(i as int)[0] == a@[i as int]);
        assert(b@.skip(i as int)[0] == b@[i as int]);
        code_of(a[i]) < code_of(b[i])
    }
}

fn rank_of_component(c: &String) -> (res: u8)
    ensures
        res as int == component_rank(c@),
{
    proof {
        reveal_strlit("/");
        reveal_strlit(".");
        reveal_strlit("..");
    }
    if same_text(c, &String::from_str("/")) {
        assert(c@ =~= seq!['/']);
        0
    } else if same_text(c, &String::from_str(".")) {
        assert(c@ =~= seq!['.']);
        1
    } else if same_text(c, &String::from_str("..")) {
        assert(c@ =~= seq!['.', '.']);
        2
    } else {
        assert(c@ != seq!['/']) by {
            if c@ == seq!['/'] {
                assert(c@ =~= "/"@);
            }
        }
        assert(c@ != seq!['.']) by {
            if c@ == seq!['.'] {
                assert(c@ =~= "."@);
            }
        }
        assert(c@ != seq!['.', '.']) by {
            if c@ == seq!['.', '.'] {
                assert(c@ =~= ".."@);
            }
        }
        3
    }
}

fn less_component(a: &String, b: &String) -> (res: bool)
    ensures
        res == component_less(a@, b@),
{
    let ra = rank_of_component(a);
    let rb = rank_of_component(b);
    if ra < rb {
        true
    } else if ra == 3 && rb == 3 {
        less_chars(&chars_of(a.as_str()), &chars_of(b.as_str()))
    } else {
        false
    }
}

fn less_components(a: &Vec<String>, b: &Vec<String>) -> (res: bool)
    ensures
        res == components_less(texts_view(a@), texts_view(b@)),
{
    let ghost av = texts_view(a@);
    let ghost bv = texts_view(b@);
    let mut i: usize = 0;
    assert(av.skip(0) == av);
    assert(bv.skip(0) == bv);
    while i < a.len() && i < b.len()
        invariant
            i <= a.len(),
            i <= b.len(),
            av == texts_view(a@),
            bv == texts_view(b@),
            components_less(av, bv) == components_less(av.skip(i as int), bv.skip(i as int)),
        decreases a.len() - i,
    {
        assert(av.skip(i as int)[0] == a@[i as int]@);
        assert(bv.skip(i as int)[0] == b@[i as int]@);
        if less_component(&a[i], &b[i]) {
            return true;
        }
        if less_component(&b[i], &a[i]) {
            return false;
        }
        assert(av.skip(i as int).drop_first() == av.skip(i as int + 1));
        assert(bv.skip(i as int).drop_first() == bv.skip(i as int + 1));
        i += 1;
    }
    i < b.len()
}

/// Whether `a` orders strictly before `b` (see [`text_less`]).
pub fn less_text(a: &String, b: &String, as_path: bool) -> (res: bool)
    ensures
        res == text_less(a@, b@, as_path),
{
    if as_path {
        less_components(&components_of(a), &components_of(b))
    } else {
        less_chars(&chars_of(a.as_str()), &chars_of(b.as_str()))
    }
}

fn is_same_entry(a: &String, b: &String, as_path: bool) -> (res: bool)
    ensures
        res == same_entry(a@, b@, as_path),
{
    if as_path {
        same_path(a, b)
    } else {
        same_text(a, b)
    }
}

/// `sorted` with `item` added at its place in the order, unless the same
/// entry is already there.
pub open spec fn sorted_insert(sorted: Seq<Seq<char>>, item: Seq<char>, as_path: bool) -> Seq<
    Seq<char>,
>
    decreases sorted.len(),
{
    if sorted.len() == 0 {
        seq![item]
    } else if same_entry(sorted[0], item, as_path) {
        sorted
    } else if text_less(item, sorted[0], as_path) {
        seq![item] + sorted
    } else {
        seq![sorted[0]] + sorted_insert(sorted.drop_first(), item, as_path)
    }
}

/// Inserts `item` into the ordered list `sorted`, which holds no entry
/// twice, unless the same entry is already there.
pub fn insert_sorted_text(sorted: &mut Vec<String>, item: String, as_path: bool)
    ensures
        texts_view(final(sorted)@) == sorted_insert(texts_view(old(sorted)@), item@, as_path),
{
    let ghost start = texts_view(sorted@);
    let mut i: usize = 0;
    assert(start.skip(0) == start);
    assert(start.take(0) + start == start);
    while i < sorted.len()
        invariant
            i <= sorted.len(),
            start == texts_view(sorted@),
            sorted@ == old(sorted)@,
            sorted_insert(start, item@, as_path) == start.take(i as int) + sorted_insert(
                start.skip(i as int),
                item@,
                as_path,
            ),
        decreases sorted.len() - i,
    {
        assert(start.skip(i as int)[0] == sorted@[i as int]@);
        if is_same_entry(&sorted[i], &item, as_path) {
            assert(sorted_insert(start.skip(i as int), item@, as_path) == start.skip(i as int));
            assert(start.take(i as int) + start.skip(i as int) == start);
            return;
        }
        if less_text(&item, &sorted[i], as_path) {
            assert(sorted_insert(start.skip(i as int), item@, as_path) == seq![item@] + start.skip(i as int));
            sorted.insert(i, item);
            assert(texts_view(sorted@) =~= start.take(i as int) + (seq![item@] + start.skip(i as int)));
            return;
        }
        assert(start.skip(i as int).drop_first() == start.skip(i as int + 1));
        assert(start.take(i as int + 1) == start.take(i as int) + seq![start[i as int]]);
        i += 1;
    }
    sorted.push(item);
    assert(texts_view(sorted@) =~= start.take(i as int) + seq![item@]);
    assert(start.skip(i as int) =~= Seq::<Seq<char>>::empty());
}

// ---------------------------------------------------------------------------
// Laws of the order
// ---------------------------------------------------------------------------

/// Every text of `list` orders strictly before the ones after it: the list
/// is ordered and holds no entry twice.
pub open spec fn strictly_sorted(list: Seq<Seq<char>>, as_path: bool) -> bool {
    forall|i: int, j: int| 0 <= i < j < list.len() ==> text_less(#[trigger] list[i], #[trigger] list[j], as_path)
}

proof fn lemma_chars_less_irreflexive(a: Seq<char>)
    ensures
        !chars_less(a, a),
    decreases a.len(),
{
    if a.len() > 0 {
        lemma_chars_less_irreflexive(a.drop_first());
    }
}

proof fn lemma_chars_less_transitive(a: Seq<char>, b: Seq<char>, c: Seq<char>)
    requires
        chars_less(a, b),
        chars_less(b, c),
    ensures
        chars_less(a, c),
    decreases a.len(),
{
    if a.len() > 0 && b.len() > 0 && c.len() > 0 {
        if a[0] as int == b[0] as int && b[0] as int == c[0] as int {
            lemma_chars_less_transitive(a.drop_first(), b.drop_first(), c.drop_first());
        }
    }
}

proof fn lemma_chars_less_total(a: Seq<char>, b: Seq<char>)
    requires
        a != b,
    ensures
        chars_less(a, b) || chars_less(b, a),
    decreases a.len(),
{
    if a.len() == 0 {
        if b.len() == 0 {
            assert(a =~= b);
        }
    } else if b.len() == 0 {
    } else if a[0] as int == b[0] as int {
        assert(a[0] == b[0]);
        if a.drop_first() == b.drop_first() {
            assert(a =~= seq![a[0]] + a.drop_first());
            assert(b =~= seq![b[0]] + b.drop_first());
        }
        lemma_chars_less_total(a.drop_first(), b.drop_first());
    }
}

proof fn lemma_component_less_transitive(a: Seq<char>, b: Seq<char>, c: Seq<char>)
    requires
        component_less(a, b),
        component_less(b, c),
    ensures
        component_less(a, c),
{
    if component_rank(a) == 3 && component_rank(b) == 3 && component_rank(c) == 3 {
        lemma_chars_less_transitive(a, b, c);
    }
}

proof fn lemma_component_less_total(a: Seq<char>, b: Seq<char>)
    requires
        a != b,
    ensures
        component_less(a, b) || component_less(b, a),
{
    if component_rank(a) == 3 && component_rank(b) == 3 {
        lemma_chars_less_total(a, b);
    }
}

proof fn lemma_components_less_irreflexive(a: Seq<Seq<char>>)
    ensures
        !components_less(a, a),
    decreases a.len(),
{
    if a.len() > 0 {
        lemma_chars_less_irreflexive(a[0]);
        lemma_components_less_irreflexive(a.drop_first());
    }
}

proof fn lemma_components_less_transitive(a: Seq<Seq<char>>, b: Seq<Seq<char>>, c: Seq<Seq<char>>)
    requires
        components_less(a, b),
        components_less(b, c),
    ensures
        components_less(a, c),
    decreases a.len(),
{
    if a.len() > 0 && b.len() > 0 && c.len() > 0 {
        let x = a[0];
        let y = b[0];
        let z = c[0];
        lemma_chars_less_irreflexive(x);
        if component_less(x, y) {
            if component_less(y, z) {
                lemma_component_less_transitive(x, y, z);
            } else if y != z {
                lemma_component_less_total(y, z);
            }
        } else {
            if x != y {
                lemma_component_less_total(x, y);
            }
            if !component_less(y, z) {
                if y != z {
                    lemma_component_less_total(y, z);
                }
                lemma_components_less_transitive(a.drop_first(), b.drop_first(), c.drop_first());
            }
        }
    }
}

proof fn lemma_components_less_total(a: Seq<Seq<char>>, b: Seq<Seq<char>>)
    requires
        a != b,
    ensures
        components_less(a, b) || components_less(b, a),
    decreases a.len(),
{
    if a.len() == 0 {
        if b.len() == 0 {
            assert(a =~= b);
        }
    } else if b.len() == 0 {
    } else if !component_less(a[0], b[0]) && !component_less(b[0], a[0]) {
        if a[0] != b[0] {
            lemma_component_less_total(a[0], b[0]);
        }
        if a.drop_first() == b.drop_first() {
            assert(a =~= seq![a[0]] + a.drop_first());
            assert(b =~= seq![b[0]] + b.drop_first());
        }
        lemma_components_less_total(a.drop_first(), b.drop_first());
    }
}

/// No text orders before itself.
pub proof fn lemma_text_less_irreflexive(a: Seq<char>, as_path: bool)
    ensures
        !text_less(a, a, as_path),
{
    lemma_chars_less_irreflexive(a);
    lemma_components_less_irreflexive(path_components(a));
}

/// The order of texts is transitive.
pub proof fn lemma_text_less_transitive(a: Seq<char>, b: Seq<char>, c: Seq<char>, as_path: bool)
    requires
        text_less(a, b, as_path),
        text_less(b, c, as_path),
    ensures
        text_less(a, c, as_path),
{
    if as_path {
        lemma_components_less_transitive(path_components(a), path_components(b), path_components(c));
    } else {
        lemma_chars_less_transitive(a, b, c);
    }
}

/// Of two texts that are not the same entry, one orders before the other.
pub proof fn lemma_text_less_total(a: Seq<char>, b: Seq<char>, as_path: bool)
    requires
        !same_entry(a, b, as_path),
    ensures
        text_less(a, b, as_path) || text_less(b, a, as_path),
{
    if as_path {
        lemma_components_less_total(path_components(a), path_components(b));
    } else {
        lemma_chars_less_total(a, b);
    }
}

/// Texts that are the same entry order alike.
pub proof fn lemma_same_entry_orders_alike(a: Seq<char>, b: Seq<char>, c: Seq<char>, as_path: bool)
    requires
        same_entry(a, b, as_path),
    ensures
        text_less(a, c, as_path) == text_less(b, c, as_path),
        text_less(c, a, as_path) == text_less(c, b, as_path),
{
}

/// Inserting a text into an ordered list that holds no entry twice keeps
/// it so, and adds exactly that text unless the same entry is already
/// there.
pub proof fn lemma_sorted_insert(sorted: Seq<Seq<char>>, item: Seq<char>, as_path: bool)
    requires
        strictly_sorted(sorted, as_path),
    ensures
        strictly_sorted(sorted_insert(sorted, item, as_path), as_path),
        sorted_insert(sorted, item, as_path).to_set() == if exists|i: int|
            0 <= i < sorted.len() && same_entry(#[trigger] sorted[i], item, as_path) {
            sorted.to_set()
        } else {
            sorted.to_set().insert(item)
        },
    decreases sorted.len(),
{
    let result = sorted_insert(sorted, item, as_path);
    if sorted.len() == 0 {
        assert(result.to_set() =~= sorted.to_set().insert(item)) by {
            assert(result =~= seq![item]);
            assert forall|x: Seq<char>| result.to_set().contains(x) <==> sorted.to_set().insert(item).contains(x) by {
                if result.to_set().contains(x) {
                    assert(result.contains(x));
                }
                if x == item {
                    assert(result[0] == item);
                }
            }
        }
    } else if same_entry(sorted[0], item, as_path) {
        assert(result == sorted);
    } else if text_less(item, sorted[0], as_path) {
        assert(result =~= seq![item] + sorted);
        assert forall|i: int, j: int| 0 <= i < j < result.len() implies text_less(#[trigger] result[i], #[trigger] result[j], as_path) by {
            if i == 0 {
                assert(result[j] == sorted[j - 1]);
                if j - 1 > 0 {
                    lemma_text_less_transitive(item, sorted[0], sorted[j - 1], as_path);
                }
            } else {
                assert(result[i] == sorted[i - 1]);
                assert(result[j] == sorted[j - 1]);
            }
        }
        assert forall|i: int| 0 <= i < sorted.len() implies !same_entry(#[trigger] sorted[i], item, as_path) by {
            if same_entry(sorted[i], item, as_path) {
                lemma_same_entry_orders_alike(sorted[i], item, sorted[i], as_path);
                lemma_text_less_irreflexive(sorted[i], as_path);
                if i > 0 {
                    lemma_text_less_transitive(item, sorted[0], sorted[i], as_path);
                }
            }
        }
        assert(result.to_set() =~= sorted.to_set().insert(item)) by {
            assert forall|x: Seq<char>| result.to_set().contains(x) <==> sorted.to_set().insert(item).contains(x) by {
                if result.to_set().contains(x) {
                    let k = choose|k: int| 0 <= k < result.len() && result[k] == x;
                    if k > 0 {
                        assert(sorted[k - 1] == x);
                    }
                }
                if x == item {
                    assert(result[0] == x);
                } else if sorted.to_set().contains(x) {
                    let k = choose|k: int| 0 <= k < sorted.len() && sorted[k] == x;
                    assert(result[k + 1] == x);
                }
            }
        }
    } else {
        let rest = sorted.drop_first();
        assert(strictly_sorted(rest, as_path)) by {
            assert forall|i: int, j: int| 0 <= i < j < rest.len() implies text_less(#[trigger] rest[i], #[trigger] rest[j], as_path) by {
                assert(rest[i] == sorted[i + 1]);
                assert(rest[j] == sorted[j + 1]);
            }
        }
        lemma_sorted_insert(rest, item, as_path);
        let tail = sorted_insert(rest, item, as_path);
        assert(result =~= seq![sorted[0]] + tail);
        lemma_text_less_total(item, sorted[0], as_path);
        assert(text_less(sorted[0], item, as_path));
        let found = exists|i: int| 0 <= i < sorted.len() && same_entry(#[trigger] sorted[i], item, as_path);
        let found_rest = exists|i: int| 0 <= i < rest.len() && same_entry(#[trigger] rest[i], item, as_path);
        assert(found == found_rest) by {
            if found {
                let i = choose|i: int| 0 <= i < sorted.len() && same_entry(#[trigger] sorted[i], item, as_path);
                assert(i > 0);
                assert(rest[i - 1] == sorted[i]);
            }
            if found_rest {
                let i = choose|i: int| 0 <= i < rest.len() && same_entry(#[trigger] rest[i], item, as_path);
                assert(sorted[i + 1] == rest[i]);
            }
        }
        assert forall|i: int, j: int| 0 <= i < j < result.len() implies text_less(#[trigger] result[i], #[trigger] result[j], as_path) by {
            if i == 0 {
                assert(result[j] == tail[j - 1]);
                assert(tail.to_set().contains(tail[j - 1]));
                if tail[j - 1] != item {
                    assert(rest.to_set().contains(tail[j - 1]));
                    let k = choose|k: int| 0 <= k < rest.len() && rest[k] == tail[j - 1];
                    assert(sorted[k + 1] == rest[k]);
                }
            } else {
                assert(result[i] == tail[i - 1]);
                assert(result[j] == tail[j - 1]);
            }
        }
        let expected = if found { sorted.to_set() } else { sorted.to_set().insert(item) };
        assert(result.to_set() =~= expected) by {
            assert forall|x: Seq<char>| result.to_set().contains(x) <==> expected.contains(x) by {
                if result.to_set().contains(x) {
                    let k = choose|k: int| 0 <= k < result.len() && result[k] == x;
                    if k > 0 {
                        assert(tail[k - 1] == x);
                        assert(tail.to_set().contains(x));
                        if rest.to_set().contains(x) {
                            let m = choose|m: int| 0 <= m < rest.len() && rest[m] == x;
                            assert(sorted[m + 1] == x);
                        }
                    } else {
                        assert(sorted[0] == x);
                    }
                }
                if expected.contains(x) {
                    if x == sorted[0] {
                        assert(result[0] == x);
                    } else {
                        if sorted.to_set().contains(x) {
                            let k = choose|k: int| 0 <= k < sorted.len() && sorted[k] == x;
                            assert(k > 0);
                            assert(rest[k - 1] == x);
                            assert(rest.to_set().contains(x));
                        }
                        assert(tail.to_set().contains(x));
                        let m = choose|m: int| 0 <= m < tail.len() && tail[m] == x;
                        assert(result[m + 1] == x);
                    }
                }
            }
        }
    }
}

} // verus!
