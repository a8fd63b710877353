//! The final component of a path, as `Path::file_name` gives it for Windows
//! paths: `/` and `\` separate components, and a prefix (a drive such as
//! `C:`, a share such as `\\server\share`, a device such as `\\.\COM1`, or a
//! verbatim prefix such as `\\?\C:`) is no component. After a verbatim prefix
//! only `\` separates, and `.` is a component of its own.
use vstd::prelude::*;

verus! {

/// `c` separates path components: `\`, and `/` except after a verbatim
/// prefix.
pub open spec fn separates(c: char, verbatim: bool) -> bool {
    c == '\\' || (!verbatim && c == '/')
}

/// `c` separates path components where no verbatim prefix is in force.
pub open spec fn is_separator(c: char) -> bool {
    separates(c, false)
}

fn separates_exec(c: char, verbatim: bool) -> (b: bool)
    ensures
        b == separates(c, verbatim),
{
    c == '\\' || (!verbatim && c == '/')
}

/// `c` is an ASCII letter.
pub open spec fn is_ascii_letter(c: char) -> bool {
    ('a' <= c && c <= 'z') || ('A' <= c && c <= 'Z')
}

/// `p` starts with a drive: an ASCII letter and `:`.
pub open spec fn has_drive_prefix(p: Seq<char>) -> bool {
    p.len() >= 2 && p[1] == ':' && is_ascii_letter(p[0])
}

/// The end of the component of `p` that starts at `from`: the first
/// separator at or after `from`, or the end of `p`.
pub open spec fn component_end(p: Seq<char>, from: int, verbatim: bool) -> int
    decreases p.len() - from,
{
    if from < 0 || from >= p.len() {
        if from < 0 { 0 } else { p.len() as int }
    } else if separates(p[from], verbatim) {
        from
    } else {
        component_end(p, from + 1, verbatim)
    }
}

/// `p` starts with two separators.
pub open spec fn starts_with_two_separators(p: Seq<char>) -> bool {
    p.len() >= 2 && is_separator(p[0]) && is_separator(p[1])
}

/// `p` starts with the verbatim prefix `\\?\`, written with backslashes.
pub open spec fn is_verbatim(p: Seq<char>) -> bool {
    p.len() >= 4 && p[0] == '\\' && p[1] == '\\' && p[2] == '?' && p[3] == '\\'
}

/// Where the prefix of `p` ends (0 where `p` has none):
/// - `\\?\UNC\server\share`, `\\?\C:`, `\\?\name` after a verbatim start;
/// - `\\.\device`;
/// - `\\server\share`, where both are not empty;
/// - `C:`.
pub open spec fn prefix_end(p: Seq<char>) -> int {
    if starts_with_two_separators(p) {
        if is_verbatim(p) {
            if p.len() >= 8 && p[4] == 'U' && p[5] == 'N' && p[6] == 'C' && is_separator(p[7]) {
                let e1 = component_end(p, 8, true);
                if e1 >= p.len() {
                    e1
                } else {
                    let e2 = component_end(p, e1 + 1, true);
                    if e2 > e1 + 1 { e2 } else { e1 }
                }
            } else if p.len() >= 7 && is_ascii_letter(p[4]) && p[5] == ':' && p[6] == '\\' {
                6
            } else {
                component_end(p, 4, true)
            }
        } else if p.len() >= 4 && p[2] == '.' && is_separator(p[3]) {
            component_end(p, 4, false)
        } else {
            let e1 = component_end(p, 2, false);
            if e1 > 2 && e1 < p.len() {
                let e2 = component_end(p, e1 + 1, false);
                if e2 > e1 + 1 { e2 } else { 0 }
            } else {
                0
            }
        }
    } else if has_drive_prefix(p) {
        2
    } else {
        0
    }
}

/// `component_end` lies between `from` and the end, with no separator before it.
pub proof fn lemma_component_end(p: Seq<char>, from: int, verbatim: bool)
    requires
        0 <= from <= p.len(),
    ensures
        from <= component_end(p, from, verbatim) <= p.len(),
        forall|j: int| from <= j < component_end(p, from, verbatim) ==> !separates(p[j], verbatim),
        component_end(p, from, verbatim) < p.len() ==> separates(p[component_end(p, from, verbatim)], verbatim),
    decreases p.len() - from,
{
    if from < p.len() && !separates(p[from], verbatim) {
        lemma_component_end(p, from + 1, verbatim);
    }
}

/// The prefix ends within `p`.
pub proof fn lemma_prefix_end(p: Seq<char>)
    ensures
        0 <= prefix_end(p) <= p.len(),
{
    if p.len() >= 4 {
        lemma_component_end(p, 4, true);
        lemma_component_end(p, 4, false);
    }
    if p.len() >= 2 {
        lemma_component_end(p, 2, false);
        let e1 = component_end(p, 2, false);
        if e1 < p.len() {
            lemma_component_end(p, e1 + 1, false);
        }
    }
    if p.len() >= 8 {
        lemma_component_end(p, 8, true);
        let e1 = component_end(p, 8, true);
        if e1 < p.len() {
            lemma_component_end(p, e1 + 1, true);
        }
    }
}

/// Position of the last separator in `p`, or -1 where there is none.
pub open spec fn last_separator(p: Seq<char>, verbatim: bool) -> int
    decreases p.len(),
{
    if p.len() == 0 {
        -1
    } else if separates(p.last(), verbatim) {
        p.len() - 1
    } else {
        last_separator(p.drop_last(), verbatim)
    }
}

/// `last_separator` is the largest position that holds a separator.
pub proof fn lemma_last_separator(p: Seq<char>, verbatim: bool)
    ensures
        -1 <= last_separator(p, verbatim) < p.len(),
        last_separator(p, verbatim) >= 0 ==> separates(p[last_separator(p, verbatim)], verbatim),
        forall|j: int| last_separator(p, verbatim) < j < p.len() ==> !separates(p[j], verbatim),
    decreases p.len(),
{
    if p.len() > 0 && !separates(p.last(), verbatim) {
        lemma_last_separator(p.drop_last(), verbatim);
        assert forall|j: int| last_separator(p, verbatim) < j < p.len() implies !separates(p[j], verbatim) by {
            if j < p.len() - 1 {
                assert(p.drop_last()[j] == p[j]);
            }
        }
    }
}

/// The final component of `p`, a path without prefix: trailing separators
/// are skipped, and so are trailing `.` components except after a verbatim
/// prefix; a path that ends in `..` or `.`, or that has no component, has
/// none.
pub open spec fn last_component(p: Seq<char>, verbatim: bool) -> Option<Seq<char>>
    decreases p.len(),
{
    if p.len() == 0 {
        None
    } else if separates(p.last(), verbatim) {
        last_component(p.drop_last(), verbatim)
    } else {
        let k = last_separator(p, verbatim);
        let comp = p.subrange(k + 1, p.len() as int);
        if comp == seq!['.'] {
            if k < 0 || verbatim {
                None
            } else {
                proof {
                    lemma_last_separator(p, verbatim);
                }
                last_component(p.subrange(0, k), verbatim)
            }
        } else if comp == seq!['.', '.'] {
            None
        } else {
            Some(comp)
        }
    }
}

/// The file name of the path `p`: the final component of what follows its
/// prefix.
pub open spec fn file_name(p: Seq<char>) -> Option<Seq<char>> {
    last_component(
        p.subrange(prefix_end(p), p.len() as int),
        starts_with_two_separators(p) && is_verbatim(p),
    )
}

/// `comp` can stand as the final component of a path: it is not empty, holds
/// no separator, and is neither `.` nor `..`.
pub open spec fn is_plain_component(comp: Seq<char>) -> bool {
    &&& comp.len() > 0
    &&& forall|i: int| 0 <= i < comp.len() ==> !is_separator(comp[i])
    &&& comp != seq!['.']
    &&& comp != seq!['.', '.']
}

/// After a separator, the last separator stays where it is while other
/// characters follow.
pub proof fn lemma_last_separator_append(dir: Seq<char>, comp: Seq<char>)
    requires
        dir.len() > 0,
        is_separator(dir.last()),
        forall|i: int| 0 <= i < comp.len() ==> !is_separator(comp[i]),
    ensures
        last_separator(dir + comp, false) == dir.len() - 1,
    decreases comp.len(),
{
    if comp.len() == 0 {
        assert(dir + comp =~= dir);
    } else {
        assert((dir + comp).drop_last() =~= dir + comp.drop_last());
        lemma_last_separator_append(dir, comp.drop_last());
    }
}

/// A path with no prefix that ends in a separator and a plain component has
/// that component as its file name.
pub proof fn lemma_file_name_of_child(dir: Seq<char>, comp: Seq<char>)
    requires
        dir.len() > 0,
        is_separator(dir.last()),
        is_plain_component(comp),
        prefix_end(dir + comp) == 0,
        !is_verbatim(dir + comp),
    ensures
        file_name(dir + comp) == Some(comp),
{
    let p = dir + comp;
    assert(p.subrange(0, p.len() as int) =~= p);
    lemma_last_separator_append(dir, comp);
    assert(p.last() == comp.last());
    assert(p.subrange(dir.len() as int, p.len() as int) =~= comp);
}

/// The view of an optional character vector.
pub open spec fn opt_chars(o: Option<Vec<char>>) -> Option<Seq<char>> {
    match o {
        Some(v) => Some(v@),
        None => None,
    }
}

fn component_end_exec(p: &Vec<char>, from: usize, verbatim: bool) -> (e: usize)
    requires
        from <= p.len(),
    ensures
        e == component_end(p@, from as int, verbatim),
{
    let mut j: usize = from;
    while j < p.len()
        invariant
            from <= j <= p.len(),
            component_end(p@, from as int, verbatim) == component_end(p@, j as int, verbatim),
        decreases p.len() - j,
    {
        if separates_exec(p[j], verbatim) {
            return j;
        }
        j = j + 1;
    }
    j
}

fn is_letter(c: char) -> (b: bool)
    ensures
        b == is_ascii_letter(c),
{
    ('a' <= c && c <= 'z') || ('A' <= c && c <= 'Z')
}

fn prefix_end_exec(p: &Vec<char>) -> (e: usize)
    ensures
        e == prefix_end(p@),
{
    proof {
        lemma_prefix_end(p@);
    }
    let n = p.len();
    if n >= 2 && separates_exec(p[0], false) && separates_exec(p[1], false) {
        if n >= 4 && p[0] == '\\' && p[1] == '\\' && p[2] == '?' && p[3] == '\\' {
            if n >= 8 && p[4] == 'U' && p[5] == 'N' && p[6] == 'C' && separates_exec(p[7], false) {
                let e1 = component_end_exec(p, 8, true);
                if e1 >= n {
                    e1
                } else {
                    let e2 = component_end_exec(p, e1 + 1, true);
                    if e2 > e1 + 1 { e2 } else { e1 }
                }
            } else if n >= 7 && is_letter(p[4]) && p[5] == ':' && p[6] == '\\' {
                6
            } else {
                component_end_exec(p, 4, true)
            }
        } else if n >= 4 && p[2] == '.' && separates_exec(p[3], false) {
            component_end_exec(p, 4, false)
        } else {
            let e1 = component_end_exec(p, 2, false);
            if e1 > 2 && e1 < n {
                let e2 = component_end_exec(p, e1 + 1, false);
                if e2 > e1 + 1 { e2 } else { 0 }
            } else {
                0
            }
        }
    } else if n >= 2 && p[1] == ':' && is_letter(p[0]) {
        2
    } else {
        0
    }
}

fn last_separator_exec(p: &Vec<char>, end: usize, verbatim: bool) -> (k: Option<usize>)
    requires
        end <= p.len(),
    ensures
        match k {
            Some(k) => k == last_separator(p@.subrange(0, end as int), verbatim),
            None => last_separator(p@.subrange(0, end as int), verbatim) == -1,
        },
{
    let ghost q = p@.subrange(0, end as int);
    let mut j: usize = end;
    while j > 0
        invariant
            j <= end,
            end <= p.len(),
            q == p@.subrange(0, end as int),
            forall|i: int| j <= i < end ==> !separates(q[i], verbatim),
        decreases j,
    {
        if separates_exec(p[j - 1], verbatim) {
            assert(separates(q[j - 1], verbatim));
            let ghost ls = last_separator(q, verbatim);
            assert(ls == j - 1) by {
                lemma_last_separator(q, verbatim);
                if ls < j - 1 {
                    assert(!separates(q[j - 1], verbatim));
                } else if ls > j - 1 {
                    assert(separates(q[ls], verbatim));
                }
            }
            return Some(j - 1);
        }
        j = j - 1;
    }
    proof {
        lemma_last_separator(q, verbatim);
        if last_separator(q, verbatim) >= 0 {
            assert(separates(q[last_separator(q, verbatim)], verbatim));
        }
    }
    None
}

/// The file name of the path made of the characters `p`.
pub fn file_name_chars(p: &Vec<char>) -> (r: Option<Vec<char>>)
    ensures
        opt_chars(r) == file_name(p@),
{
    let start = prefix_end_exec(p);
    proof {
        lemma_prefix_end(p@);
    }
    let verbatim = p.len() >= 4 && separates_exec(p[0], false) && separates_exec(p[1], false)
        && p[0] == '\\' && p[1] == '\\' && p[2] == '?' && p[3] == '\\';
    let mut rest: Vec<char> = Vec::new();
    let mut i: usize = start;
    while i < p.len()
        invariant
            start <= i <= p.len(),
            rest@ == p@.subrange(start as int, i as int),
        decreases p.len() - i,
    {
        rest.push(p[i]);
        assert(rest@ =~= p@.subrange(start as int, i + 1));
        i = i + 1;
    }
    last_component_chars(&rest, verbatim)
}

/// The final component of the path made of the characters `p`, which has no
/// prefix.
fn last_component_chars(p: &Vec<char>, verbatim: bool) -> (r: Option<Vec<char>>)
    ensures
        opt_chars(r) == last_component(p@, verbatim),
{
    let mut end: usize = p.len();
    assert(p@.subrange(0, end as int) =~= p@);
    loop
        invariant
            end <= p.len(),
            last_component(p@.subrange(0, end as int), verbatim) == last_component(p@, verbatim),
        decreases end,
    {
        let ghost q = p@.subrange(0, end as int);
        if end == 0 {
            return None;
        }
        if separates_exec(p[end - 1], verbatim) {
            assert(q.drop_last() =~= p@.subrange(0, end - 1));
            end = end - 1;
        } else {
            let k = last_separator_exec(p, end, verbatim);
            proof {
                lemma_last_separator(q, verbatim);
            }
            let start: usize = match k {
                Some(k) => k + 1,
                None => 0,
            };
            let ghost ks: int = start - 1;
            assert(ks == last_separator(q, verbatim));
            let mut comp: Vec<char> = Vec::new();
            let mut i: usize = start;
            while i < end
                invariant
                    start <= i <= end,
                    end <= p.len(),
                    comp@ == p@.subrange(start as int, i as int),
                decreases end - i,
            {
                comp.push(p[i]);
                assert(comp@ =~= p@.subrange(start as int, i + 1));
                i = i + 1;
            }
            assert(comp@ =~= q.subrange(ks + 1, q.len() as int));
            if comp.len() == 1 && comp[0] == '.' {
                assert(comp@ =~= seq!['.']);
                if verbatim {
                    return None;
                }
                match k {
                    None => {
                        return None;
                    },
                    Some(k) => {
                        assert(q.subrange(0, k as int) =~= p@.subrange(0, k as int));
                        end = k;
                    },
                }
            } else if comp.len() == 2 && comp[0] == '.' && comp[1] == '.' {
                assert(comp@ =~= seq!['.', '.']);
                return None;
            } else {
                assert(comp@ != seq!['.']);
                assert(comp@ != seq!['.', '.']);
                return Some(comp);
            }
        }
    }
}

} // verus!
