//! The path resolver's pure half: splitting the search-path variable on its
//! separator and forming the candidate file names for a command. Whether a
//! candidate exists on disk is the caller's probe; the first existing
//! candidate, in this order, is the resolved command.

use vstd::prelude::*;

verus! {

/// Index of the first `:` in `s`, or `-1` when there is none.
pub open spec fn first_colon_idx(s: Seq<char>) -> int
    decreases s.len(),
{
    if s.len() == 0 {
        -1
    } else if s.first() == ':' {
        0
    } else if first_colon_idx(s.drop_first()) == -1 {
        -1
    } else {
        first_colon_idx(s.drop_first()) + 1
    }
}

proof fn lemma_first_colon_bounds(s: Seq<char>)
    ensures
        -1 <= first_colon_idx(s) < s.len(),
        first_colon_idx(s) >= 0 ==> s[first_colon_idx(s)] == ':',
    decreases s.len(),
{
    if s.len() > 0 && s.first() != ':' {
        lemma_first_colon_bounds(s.drop_first());
    }
}

/// The first colon is pinned down by one colon with none before it.
proof fn lemma_first_colon_is(s: Seq<char>, k: int)
    requires
        0 <= k < s.len(),
        s[k] == ':',
        forall|j: int| 0 <= j < k ==> s[j] != ':',
    ensures
        first_colon_idx(s) == k,
    decreases s.len(),
{
    if k > 0 {
        assert(forall|j: int|
            0 <= j < k - 1 ==> #[trigger] s.drop_first()[j] == s[j + 1]);
        lemma_first_colon_is(s.drop_first(), k - 1);
    }
}

proof fn lemma_first_colon_none(s: Seq<char>)
    requires
        forall|j: int| 0 <= j < s.len() ==> s[j] != ':',
    ensures
        first_colon_idx(s) == -1,
    decreases s.len(),
{
    if s.len() > 0 {
        assert(forall|j: int|
            0 <= j < s.len() - 1 ==> #[trigger] s.drop_first()[j] == s[j + 1]);
        lemma_first_colon_none(s.drop_first());
    }
}

/// The pieces of `s` between its colons. Empty pieces are kept, and an
/// empty string is one empty piece, as the usual string split has it.
pub open spec fn split_colon_spec(s: Seq<char>) -> Seq<Seq<char>>
    decreases s.len(),
    via split_colon_spec_decreases
{
    let k = first_colon_idx(s);
    if k == -1 {
        seq![s]
    } else {
        seq![s.take(k)] + split_colon_spec(s.skip(k + 1))
    }
}

#[via_fn]
proof fn split_colon_spec_decreases(s: Seq<char>) {
    lemma_first_colon_bounds(s);
}

/// `dir/cmd` for one search-path entry.
pub open spec fn candidate_spec(dir: Seq<char>, cmd: Seq<char>) -> Seq<char> {
    dir + "/"@ + cmd
}

/// All candidate file names for `cmd`, one per search-path entry, in the
/// entries' order.
pub open spec fn candidates_spec(path_var: Seq<char>, cmd: Seq<char>) -> Seq<Seq<char>> {
    split_colon_spec(path_var).map_values(|d: Seq<char>| candidate_spec(d, cmd))
}

/// The first candidate whose existence flag is set, in candidate order.
pub open spec fn first_existing_spec(cands: Seq<Seq<char>>, exist: Seq<bool>) -> Option<Seq<char>>
    decreases cands.len(),
{
    if cands.len() == 0 {
        None::<Seq<char>>
    } else if exist[0] {
        Some(cands[0])
    } else {
        first_existing_spec(cands.drop_first(), exist.drop_first())
    }
}

/// Picks the resolved command: the first candidate that the caller's
/// filesystem probe found to exist, one flag per candidate.
pub fn first_existing(cands: &Vec<String>, exist: &Vec<bool>) -> (r: Option<String>)
    requires
        cands@.len() == exist@.len(),
    ensures
        r.deep_view() == first_existing_spec(cands.deep_view(), exist@),
{
    let n = cands.len();
    let mut i: usize = 0;
    proof {
        assert(cands.deep_view().skip(0) =~= cands.deep_view());
        assert(exist@.skip(0) =~= exist@);
    }
    while i < n
        invariant
            n == cands@.len(),
            n == exist@.len(),
            0 <= i <= n,
            first_existing_spec(cands.deep_view(), exist@) == first_existing_spec(
                cands.deep_view().skip(i as int),
                exist@.skip(i as int),
            ),
        decreases n - i,
    {
        let ghost dv = cands.deep_view();
        proof {
            assert(dv.skip(i as int)[0] == dv[i as int]);
            assert(exist@.skip(i as int)[0] == exist@[i as int]);
        }
        if exist[i] {
            let hit = cands[i].clone();
            proof {
                assert(hit@ == dv[i as int]);
            }
            return Some(hit);
        }
        proof {
            assert(dv.skip(i as int).drop_first() =~= dv.skip(i + 1));
            assert(exist@.skip(i as int).drop_first() =~= exist@.skip(i + 1));
        }
        i = i + 1;
    }
    proof {
        assert(cands.deep_view().skip(n as int) =~= Seq::<Seq<char>>::empty());
    }
    None
}

/// Builds `dir/cmd` for the directory at `path_var[from..to]`.
fn make_candidate(path_var: &str, from: usize, to: usize, cmd: &str) -> (r: String)
    requires
        from <= to <= path_var@.len(),
    ensures
        r@ == candidate_spec(path_var@.subrange(from as int, to as int), cmd@),
{
    let dir = path_var.substring_char(from, to);
    let mut out: String = dir.to_owned();
    out.append("/");
    out.append(cmd);
    out
}

/// The candidate file names for `cmd`, one for each directory named by the
/// search-path variable, in order. The caller probes them for existence.
pub fn path_candidates(path_var: &str, cmd: &str) -> (r: Vec<String>)
    ensures
        r.deep_view() == candidates_spec(path_var@, cmd@),
{
    let n = path_var.unicode_len();
    let mut out: Vec<String> = Vec::new();
    let mut seg_start: usize = 0;
    let mut i: usize = 0;
    proof {
        assert(path_var@.skip(0) =~= path_var@);
        assert(out.deep_view() + candidates_spec(path_var@.skip(0), cmd@) =~= candidates_spec(
            path_var@,
            cmd@,
        ));
    }
    while i < n
        invariant
            n == path_var@.len(),
            0 <= seg_start <= i <= n,
            forall|j: int| seg_start <= j < i ==> path_var@[j] != ':',
            out.deep_view() + candidates_spec(path_var@.skip(seg_start as int), cmd@)
                == candidates_spec(path_var@, cmd@),
        decreases n - i,
    {
        let c = path_var.get_char(i);
        if c == ':' {
            let ghost rest = path_var@.skip(seg_start as int);
            let ghost old_dv = out.deep_view();
            let cand = make_candidate(path_var, seg_start, i, cmd);
            out.push(cand);
            proof {
                assert(forall|j: int|
                    0 <= j < i - seg_start ==> #[trigger] rest[j] == path_var@[j + seg_start]);
                lemma_first_colon_is(rest, i - seg_start);
                assert(rest.take(i - seg_start) =~= path_var@.subrange(
                    seg_start as int,
                    i as int,
                ));
                assert(rest.skip(i - seg_start + 1) =~= path_var@.skip(i + 1));
                assert(split_colon_spec(rest) == seq![path_var@.subrange(
                    seg_start as int,
                    i as int,
                )] + split_colon_spec(path_var@.skip(i + 1)));
                assert(out.deep_view() =~= old_dv.push(cand@));
                assert(out.deep_view() + candidates_spec(path_var@.skip(i + 1), cmd@)
                    =~= candidates_spec(path_var@, cmd@));
            }
            seg_start = i + 1;
        }
        i = i + 1;
    }
    let ghost rest = path_var@.skip(seg_start as int);
    let ghost old_dv = out.deep_view();
    let cand = make_candidate(path_var, seg_start, n, cmd);
    out.push(cand);
    proof {
        assert(forall|j: int|
            0 <= j < rest.len() ==> #[trigger] rest[j] == path_var@[j + seg_start]);
        lemma_first_colon_none(rest);
        assert(rest =~= path_var@.subrange(seg_start as int, n as int));
        assert(split_colon_spec(rest) == seq![rest]);
        assert(out.deep_view() =~= old_dv.push(cand@));
        assert(out.deep_view() =~= candidates_spec(path_var@, cmd@));
    }
    out
}

} // verus!
