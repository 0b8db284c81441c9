//! Paths as texts whose components are set apart by `/`.
//!
//! Two paths are compared component by component: repeated separators and
//! components that are a single `.` do not count, except a `.` at the very
//! beginning of a path that does not begin with `/`.

use vstd::prelude::*;

verus! {

/// Whether a path begins at the root: with a `/`.
pub open spec fn is_rooted(path: Seq<char>) -> bool {
    path.len() > 0 && path[0] == '/'
}

/// Whether a path begins in the current directory: with a component `.`.
pub open spec fn starts_in_place(path: Seq<char>) -> bool {
    path.len() > 0 && path[0] == '.' && (path.len() == 1 || path[1] == '/')
}

/// How many characters stand before the body of a path: one for the root
/// or for a `.` at the beginning, else none.
pub open spec fn prelude_len(path: Seq<char>) -> int {
    if is_rooted(path) || starts_in_place(path) {
        1
    } else {
        0
    }
}

/// Whether what begins at `at`, where a component may begin, says nothing:
/// a separator, or a `.` that is a component by itself.
pub open spec fn idle_at(path: Seq<char>, at: int) -> bool {
    0 <= at < path.len() && (path[at] == '/' || (path[at] == '.' && (at + 1 == path.len()
        || path[at + 1] == '/')))
}

/// The first position from `at` on at which a component begins that counts,
/// or the length of the path where none is left.
pub open spec fn next_component(path: Seq<char>, at: int) -> int
    decreases path.len() - at,
{
    if idle_at(path, at) {
        next_component(path, at + 1)
    } else {
        at
    }
}

/// The position at which the component that begins at `at` ends: that of
/// the next `/`, or the length of the path.
pub open spec fn component_end(path: Seq<char>, at: int) -> int
    decreases path.len() - at,
{
    if 0 <= at < path.len() && path[at] != '/' {
        component_end(path, at + 1)
    } else {
        at
    }
}

/// Matches the components of `base` from position `b` on against those of
/// `path` from position `p` on. Where `path` holds all of them, in order,
/// the result is the position at which the rest of `path` begins.
pub open spec fn rest_after(path: Seq<char>, base: Seq<char>, p: int, b: int) -> Option<int>
    decreases base.len() - b,
{
    let in_base = next_component(base, b);
    let in_path = next_component(path, p);
    if in_base >= base.len() {
        Some(in_path)
    } else {
        let base_end = component_end(base, in_base);
        let path_end = component_end(path, in_path);
        if b < base_end <= base.len() && path.subrange(in_path, path_end) == base.subrange(
            in_base,
            base_end,
        ) {
            rest_after(path, base, path_end, base_end)
        } else {
            None
        }
    }
}

/// Whether the component that ends at `end` says nothing, within the part
/// of the path that begins at `floor`.
pub open spec fn idle_before(path: Seq<char>, floor: int, end: int) -> bool {
    0 <= floor < end <= path.len() && (path[end - 1] == '/' || (path[end - 1] == '.' && (end - 1
        == floor || path[end - 2] == '/')))
}

/// The end of the part of a path between `floor` and `end`, without the
/// separators and `.` components that it ends in.
pub open spec fn trimmed_end(path: Seq<char>, floor: int, end: int) -> int
    decreases end,
{
    if idle_before(path, floor, end) {
        trimmed_end(path, floor, end - 1)
    } else {
        end
    }
}

/// Where in `path` the part lies that is left when the leading `base` is
/// taken off, as the positions of its first character and behind its last.
/// `None` where the components of `base` are not the first of `path`.
pub open spec fn rest_range(path: Seq<char>, base: Seq<char>) -> Option<(int, int)> {
    if base.len() == 0 {
        Some((0, trimmed_end(path, prelude_len(path), path.len() as int)))
    } else if is_rooted(base) != is_rooted(path) || starts_in_place(base) != starts_in_place(path) {
        None
    } else {
        match rest_after(path, base, 0, 0) {
            Some(start) => Some((start, trimmed_end(path, start, path.len() as int))),
            None => None,
        }
    }
}

/// What is left of `path` when the leading `base` is taken off, component
/// by component. `None` where the components of `base` are not the first
/// of `path`.
pub open spec fn without_base(path: Seq<char>, base: Seq<char>) -> Option<Seq<char>> {
    match rest_range(path, base) {
        Some((start, end)) => Some(path.subrange(start, end)),
        None => None,
    }
}

/// `next_component` stays within the path and does not go back.
pub proof fn lemma_next_component_bounds(path: Seq<char>, at: int)
    requires
        0 <= at <= path.len(),
    ensures
        at <= next_component(path, at) <= path.len(),
        next_component(path, at) < path.len() ==> path[next_component(path, at)] != '/',
    decreases path.len() - at,
{
    if idle_at(path, at) {
        lemma_next_component_bounds(path, at + 1);
    }
}

/// `component_end` stays within the path, and a component that begins
/// with a character other than `/` is not empty.
pub proof fn lemma_component_end_bounds(path: Seq<char>, at: int)
    requires
        0 <= at <= path.len(),
    ensures
        at <= component_end(path, at) <= path.len(),
        at < path.len() && path[at] != '/' ==> at < component_end(path, at),
    decreases path.len() - at,
{
    if at < path.len() && path[at] != '/' {
        lemma_component_end_bounds(path, at + 1);
    }
}

/// `trimmed_end` stays between the floor and the end.
pub proof fn lemma_trimmed_end_bounds(path: Seq<char>, floor: int, end: int)
    requires
        0 <= floor <= end <= path.len(),
    ensures
        floor <= trimmed_end(path, floor, end) <= end,
    decreases end,
{
    if idle_before(path, floor, end) {
        lemma_trimmed_end_bounds(path, floor, end - 1);
    }
}

/// The rest of a path begins within it.
pub proof fn lemma_rest_after_bounds(path: Seq<char>, base: Seq<char>, p: int, b: int)
    requires
        0 <= p <= path.len(),
        0 <= b <= base.len(),
    ensures
        rest_after(path, base, p, b) matches Some(start) ==> p <= start <= path.len(),
    decreases base.len() - b,
{
    let in_base = next_component(base, b);
    let in_path = next_component(path, p);
    lemma_next_component_bounds(base, b);
    lemma_next_component_bounds(path, p);
    if in_base < base.len() {
        let base_end = component_end(base, in_base);
        let path_end = component_end(path, in_path);
        lemma_component_end_bounds(base, in_base);
        lemma_component_end_bounds(path, in_path);
        if b < base_end <= base.len() && path.subrange(in_path, path_end) == base.subrange(
            in_base,
            base_end,
        ) {
            lemma_rest_after_bounds(path, base, path_end, base_end);
        }
    }
}

/// The characters of a text, in order.
pub fn chars_of(text: &str) -> (chars: Vec<char>)
    ensures
        chars@ == text@,
{
    let mut chars: Vec<char> = Vec::new();
    for c in it: text.chars()
        invariant
            it.seq() == text@,
            chars@ == it.seq().take(it.index() as int),
    {
        chars.push(c);
        assert(it.seq().take(it.index() + 1) =~= it.seq().take(it.index() as int).push(c));
    }
    assert(chars@ =~= text@);
    chars
}

/// The first position from `at` on at which a component begins that counts.
fn skip_idle(path: &Vec<char>, at: usize) -> (next: usize)
    requires
        at <= path@.len(),
    ensures
        next == next_component(path@, at as int),
        at <= next <= path@.len(),
{
    let len = path.len();
    let mut next = at;
    while next < len && (path[next] == '/' || (path[next] == '.' && (next + 1 == len || path[next
        + 1] == '/')))
        invariant
            at <= next <= len,
            len == path@.len(),
            next_component(path@, at as int) == next_component(path@, next as int),
        decreases len - next,
    {
        next += 1;
    }
    next
}

/// The position at which the component that begins at `at` ends.
fn skip_component(path: &Vec<char>, at: usize) -> (end: usize)
    requires
        at <= path@.len(),
    ensures
        end == component_end(path@, at as int),
        at <= end <= path@.len(),
{
    let len = path.len();
    let mut end = at;
    while end < len && path[end] != '/'
        invariant
            at <= end <= len,
            len == path@.len(),
            component_end(path@, at as int) == component_end(path@, end as int),
        decreases len - end,
    {
        end += 1;
    }
    end
}

/// Whether two parts of two paths hold the same characters.
fn same_part(
    path: &Vec<char>,
    from: usize,
    to: usize,
    base: &Vec<char>,
    base_from: usize,
    base_to: usize,
) -> (same: bool)
    requires
        from <= to <= path@.len(),
        base_from <= base_to <= base@.len(),
    ensures
        same == (path@.subrange(from as int, to as int) == base@.subrange(
            base_from as int,
            base_to as int,
        )),
{
    let ghost left = path@.subrange(from as int, to as int);
    let ghost right = base@.subrange(base_from as int, base_to as int);
    if to - from != base_to - base_from {
        assert(left.len() != right.len());
        return false;
    }
    let mut i: usize = 0;
    while i < to - from
        invariant
            i <= to - from,
            to - from == base_to - base_from,
            from <= to <= path@.len(),
            base_from <= base_to <= base@.len(),
            left == path@.subrange(from as int, to as int),
            right == base@.subrange(base_from as int, base_to as int),
            forall|j: int| 0 <= j < i ==> left[j] == right[j],
        decreases to - from - i,
    {
        if path[from + i] != base[base_from + i] {
            assert(left[i as int] != right[i as int]);
            return false;
        }
        i += 1;
    }
    assert(left =~= right);
    true
}

/// The position at which the rest of `path` begins once the components of
/// `base` are taken off its front, or `None` where they are not its first.
fn skip_base(path: &Vec<char>, base: &Vec<char>) -> (rest: Option<usize>)
    ensures
        rest is Some <==> rest_after(path@, base@, 0, 0) is Some,
        rest matches Some(start) ==> rest_after(path@, base@, 0, 0) == Some(start as int)
            && start <= path@.len(),
{
    let mut p: usize = 0;
    let mut b: usize = 0;
    loop
        invariant
            p <= path@.len(),
            b <= base@.len(),
            rest_after(path@, base@, 0, 0) == rest_after(path@, base@, p as int, b as int),
        decreases base@.len() - b,
    {
        let in_base = skip_idle(base, b);
        let in_path = skip_idle(path, p);
        if in_base >= base.len() {
            return Some(in_path);
        }
        let base_end = skip_component(base, in_base);
        let path_end = skip_component(path, in_path);
        proof {
            lemma_next_component_bounds(base@, b as int);
            lemma_component_end_bounds(base@, in_base as int);
        }
        if !same_part(path, in_path, path_end, base, in_base, base_end) {
            return None;
        }
        p = path_end;
        b = base_end;
    }
}

/// The end of the part of a path between `floor` and `end`, without the
/// separators and `.` components that it ends in.
fn trim_end(path: &Vec<char>, floor: usize, end: usize) -> (trimmed: usize)
    requires
        floor <= end <= path@.len(),
    ensures
        trimmed == trimmed_end(path@, floor as int, end as int),
        floor <= trimmed <= end,
{
    let mut trimmed = end;
    while trimmed > floor && (path[trimmed - 1] == '/' || (path[trimmed - 1] == '.' && (trimmed - 1
        == floor || path[trimmed - 2] == '/')))
        invariant
            floor <= trimmed <= end,
            end <= path@.len(),
            trimmed_end(path@, floor as int, end as int) == trimmed_end(
                path@,
                floor as int,
                trimmed as int,
            ),
        decreases trimmed,
    {
        trimmed -= 1;
    }
    trimmed
}

/// Where in `path` the part lies that is left when the leading `base` is
/// taken off, component by component.
pub fn rest_of(path: &Vec<char>, base: &Vec<char>) -> (range: Option<(usize, usize)>)
    ensures
        range is Some <==> rest_range(path@, base@) is Some,
        range matches Some((start, end)) ==> rest_range(path@, base@) == Some(
            (start as int, end as int),
        ) && start <= end <= path@.len(),
{
    let len = path.len();
    if base.len() == 0 {
        let rooted = len > 0 && path[0] == '/';
        let in_place = len > 0 && path[0] == '.' && (len == 1 || path[1] == '/');
        let floor: usize = if rooted || in_place {
            1
        } else {
            0
        };
        return Some((0, trim_end(path, floor, len)));
    }
    let rooted = len > 0 && path[0] == '/';
    let base_rooted = base[0] == '/';
    let in_place = len > 0 && path[0] == '.' && (len == 1 || path[1] == '/');
    let base_in_place = base[0] == '.' && (base.len() == 1 || base[1] == '/');
    if rooted != base_rooted || in_place != base_in_place {
        return None;
    }
    match skip_base(path, base) {
        Some(start) => Some((start, trim_end(path, start, len))),
        None => None,
    }
}

} // verus!
