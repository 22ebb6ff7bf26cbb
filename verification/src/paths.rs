//! Path strings: parents, base names, the ancestor chain of a working
//! directory, and the search for the repository root among the ancestors.
//!
//! Paths are plain character strings. The parent of a path is everything
//! before its last separator (the root's parent is nothing), mirroring how
//! the operating system pops one component at a time off a canonical
//! absolute path.

use vstd::prelude::*;

use crate::strutil::str_eq;

verus! {

/// Index of the last `/` in `p`, or `-1` when there is none.
pub open spec fn last_slash_idx(p: Seq<char>) -> int
    decreases p.len(),
{
    if p.len() == 0 {
        -1
    } else if p.last() == '/' {
        p.len() - 1
    } else {
        last_slash_idx(p.drop_last())
    }
}

proof fn lemma_last_slash_idx_bounds(p: Seq<char>)
    ensures
        -1 <= last_slash_idx(p) < p.len(),
        last_slash_idx(p) >= 0 ==> p[last_slash_idx(p)] == '/',
        forall|j: int| last_slash_idx(p) < j < p.len() ==> #[trigger] p[j] != '/',
    decreases p.len(),
{
    if p.len() > 0 && p.last() != '/' {
        lemma_last_slash_idx_bounds(p.drop_last());
        assert(forall|j: int|
            0 <= j < p.len() - 1 ==> #[trigger] p[j] == p.drop_last()[j]);
        assert(forall|j: int|
            last_slash_idx(p) < j < p.len() - 1 ==> #[trigger] p[j] != '/');
    }
}

/// The last slash is pinned down by one slash with none after it.
proof fn lemma_last_slash_idx_is(p: Seq<char>, k: int)
    requires
        0 <= k < p.len(),
        p[k] == '/',
        forall|j: int| k < j < p.len() ==> p[j] != '/',
    ensures
        last_slash_idx(p) == k,
    decreases p.len(),
{
    if p.last() == '/' {
        assert(k == p.len() - 1);
    } else {
        assert(k < p.len() - 1);
        assert(forall|j: int|
            0 <= j < p.len() - 1 ==> #[trigger] p.drop_last()[j] == p[j]);
        lemma_last_slash_idx_is(p.drop_last(), k);
    }
}

proof fn lemma_no_slash(p: Seq<char>)
    requires
        forall|j: int| 0 <= j < p.len() ==> p[j] != '/',
    ensures
        last_slash_idx(p) == -1,
    decreases p.len(),
{
    if p.len() > 0 {
        assert(forall|j: int|
            0 <= j < p.len() - 1 ==> #[trigger] p.drop_last()[j] == p[j]);
        lemma_no_slash(p.drop_last());
    }
}

/// The directory one level up: everything before the last separator, the
/// root staying bare; nothing for the root itself or a path with no
/// separator.
pub open spec fn parent_spec(p: Seq<char>) -> Option<Seq<char>> {
    if p =~= seq!['/'] {
        None::<Seq<char>>
    } else {
        let k = last_slash_idx(p);
        if k == -1 {
            None::<Seq<char>>
        } else if k == 0 {
            Some(seq!['/'])
        } else {
            Some(p.take(k))
        }
    }
}

/// A parent is strictly shorter than its child.
proof fn lemma_parent_shorter(p: Seq<char>)
    ensures
        parent_spec(p) matches Some(q) ==> q.len() < p.len(),
{
    lemma_last_slash_idx_bounds(p);
    if !(p =~= seq!['/']) && last_slash_idx(p) == 0 {
        if p.len() == 1 {
            assert(p[0] == '/');
            assert(p =~= seq!['/']);
        }
    }
}

/// Everything after the last separator; the whole string when there is
/// none.
pub open spec fn base_name_spec(p: Seq<char>) -> Seq<char> {
    p.skip(last_slash_idx(p) + 1)
}

/// The path itself followed by all its ancestors, ending at the root.
pub open spec fn ancestors_spec(p: Seq<char>) -> Seq<Seq<char>>
    decreases p.len(),
    via ancestors_spec_decreases
{
    match parent_spec(p) {
        Some(q) => seq![p] + ancestors_spec(q),
        None => seq![p],
    }
}

#[via_fn]
proof fn ancestors_spec_decreases(p: Seq<char>) {
    lemma_parent_shorter(p);
}

/// The nearest of `p` and its ancestors that appears in `dirs`, walking
/// upward.
pub open spec fn git_root_spec(p: Seq<char>, dirs: Seq<Seq<char>>) -> Option<Seq<char>>
    decreases p.len(),
    via git_root_spec_decreases
{
    if dirs.contains(p) {
        Some(p)
    } else {
        match parent_spec(p) {
            Some(q) => git_root_spec(q, dirs),
            None => None::<Seq<char>>,
        }
    }
}

#[via_fn]
proof fn git_root_spec_decreases(p: Seq<char>, dirs: Seq<Seq<char>>) {
    lemma_parent_shorter(p);
}

/// Index one past the last `/` of `p`, or 0 when `p` has none.
fn after_last_slash(p: &str) -> (r: usize)
    ensures
        r == last_slash_idx(p@) + 1,
        r <= p@.len(),
{
    let n = p.unicode_len();
    let mut j: usize = n;
    while j > 0 && p.get_char(j - 1) != '/'
        invariant
            n == p@.len(),
            0 <= j <= n,
            forall|m: int| j <= m < n ==> p@[m] != '/',
        decreases j,
    {
        j = j - 1;
    }
    proof {
        if j == 0 {
            lemma_no_slash(p@);
        } else {
            lemma_last_slash_idx_is(p@, j - 1);
        }
    }
    j
}

/// The directory one level up, as the operating system would pop it.
pub fn parent_of(p: &str) -> (r: Option<String>)
    ensures
        r.deep_view() == parent_spec(p@),
{
    let n = p.unicode_len();
    if n == 1 && p.get_char(0) == '/' {
        proof {
            assert(p@ =~= seq!['/']);
        }
        return None;
    }
    proof {
        if p@ =~= seq!['/'] {
            assert(n == 1 && p@[0] == '/');
        }
    }
    let j = after_last_slash(p);
    if j == 0 {
        return None;
    }
    let k = j - 1;
    if k == 0 {
        let r = p.substring_char(0, 1);
        proof {
            lemma_last_slash_idx_bounds(p@);
            assert(p@.subrange(0, 1) =~= seq![p@[0]]);
            assert(p@[0] == '/');
        }
        return Some(r.to_owned());
    }
    let r = p.substring_char(0, k);
    proof {
        assert(p@.subrange(0, k as int) =~= p@.take(k as int));
    }
    Some(r.to_owned())
}

/// The last path component; empty after a trailing separator.
pub fn base_name<'a>(p: &'a str) -> (r: &'a str)
    ensures
        r@ == base_name_spec(p@),
{
    let n = p.unicode_len();
    let j = after_last_slash(p);
    proof {
        lemma_last_slash_idx_bounds(p@);
        assert(p@.subrange(j as int, n as int) =~= p@.skip(last_slash_idx(p@) + 1));
    }
    p.substring_char(j, n)
}

/// The path itself and all its ancestors up to the root, nearest first.
pub fn ancestor_chain(cwd: &str) -> (r: Vec<String>)
    ensures
        r.deep_view() == ancestors_spec(cwd@),
{
    let mut out: Vec<String> = Vec::new();
    let mut current: String = cwd.to_owned();
    proof {
        assert(out.deep_view() + ancestors_spec(current@) =~= ancestors_spec(cwd@));
    }
    loop
        invariant
            out.deep_view() + ancestors_spec(current@) =~= ancestors_spec(cwd@),
        decreases current@.len(),
    {
        let ghost cur_view = current@;
        let ghost old_dv = out.deep_view();
        let next = parent_of(current.as_str());
        out.push(current);
        proof {
            assert(out.deep_view() =~= old_dv.push(cur_view));
        }
        match next {
            Some(q) => {
                proof {
                    lemma_parent_shorter(cur_view);
                    assert(ancestors_spec(cur_view) == seq![cur_view] + ancestors_spec(q@));
                    assert(old_dv.push(cur_view) + ancestors_spec(q@) =~= old_dv + (seq![
                        cur_view,
                    ] + ancestors_spec(q@)));
                }
                current = q;
            },
            None => {
                proof {
                    assert(ancestors_spec(cur_view) == seq![cur_view]);
                    assert(old_dv.push(cur_view) =~= old_dv + seq![cur_view]);
                }
                return out;
            },
        }
    }
}

/// Whether some string in `v` has exactly the characters of `s`.
pub fn contains_str(v: &Vec<String>, s: &str) -> (r: bool)
    ensures
        r == v.deep_view().contains(s@),
{
    let n = v.len();
    let mut i: usize = 0;
    while i < n
        invariant
            n == v.len(),
            0 <= i <= n,
            forall|j: int| 0 <= j < i ==> v.deep_view()[j] != s@,
        decreases n - i,
    {
        let hit = str_eq(v[i].as_str(), s);
        proof {
            assert(v.deep_view()[i as int] == v@[i as int]@);
        }
        if hit {
            return true;
        }
        i = i + 1;
    }
    proof {
        if v.deep_view().contains(s@) {
            let j = choose|j: int| 0 <= j < v.deep_view().len() && v.deep_view()[j] == s@;
            assert(v.deep_view()[j] != s@);
        }
    }
    false
}

/// Ascends from `cwd` toward the root and returns the first directory that
/// appears in `git_dirs` — the ones known to hold version-control metadata.
pub fn get_git_root(cwd: &str, git_dirs: &Vec<String>) -> (r: Option<String>)
    ensures
        r.deep_view() == git_root_spec(cwd@, git_dirs.deep_view()),
{
    let mut current: String = cwd.to_owned();
    loop
        invariant
            git_root_spec(current@, git_dirs.deep_view()) == git_root_spec(
                cwd@,
                git_dirs.deep_view(),
            ),
        decreases current@.len(),
    {
        if contains_str(git_dirs, current.as_str()) {
            return Some(current);
        }
        let next = parent_of(current.as_str());
        match next {
            Some(q) => {
                proof {
                    lemma_parent_shorter(current@);
                }
                current = q;
            },
            None => {
                return None;
            },
        }
    }
}

} // verus!
