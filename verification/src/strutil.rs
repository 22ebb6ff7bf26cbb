//! String helpers shared by the tokenizer and the prompt engine: a trimming
//! rule over the ASCII blank characters, character-wise string equality and
//! prefix tests, and message construction by concatenation.

use vstd::prelude::*;

verus! {

/// Whitespace as the trimming rule understands it: the ASCII blanks.
pub open spec fn is_space_char(c: char) -> bool {
    c == ' ' || c == '\t' || c == '\n' || c == '\r'
}

/// `s` with its leading whitespace removed.
pub open spec fn ltrim(s: Seq<char>) -> Seq<char>
    decreases s.len(),
{
    if s.len() > 0 && is_space_char(s.first()) {
        ltrim(s.drop_first())
    } else {
        s
    }
}

/// `s` with its trailing whitespace removed.
pub open spec fn rtrim(s: Seq<char>) -> Seq<char>
    decreases s.len(),
{
    if s.len() > 0 && is_space_char(s.last()) {
        rtrim(s.drop_last())
    } else {
        s
    }
}

/// `s` with leading and trailing whitespace removed.
pub open spec fn trim_spec(s: Seq<char>) -> Seq<char> {
    rtrim(ltrim(s))
}

/// When the first `k` characters are whitespace and the character at `k`
/// (if any) is not, trimming from the left drops exactly those `k`.
proof fn lemma_ltrim_skip(s: Seq<char>, k: int)
    requires
        0 <= k <= s.len(),
        forall|j: int| 0 <= j < k ==> is_space_char(#[trigger] s[j]),
        k == s.len() || !is_space_char(s[k]),
    ensures
        ltrim(s) == s.skip(k),
    decreases k,
{
    if k == 0 {
        assert(s.skip(0) =~= s);
    } else {
        assert(is_space_char(s.first()));
        lemma_ltrim_skip(s.drop_first(), k - 1);
        assert(s.drop_first().skip(k - 1) =~= s.skip(k));
    }
}

/// When the characters from `m` on are whitespace and the character at
/// `m - 1` (if any) is not, trimming from the right keeps exactly the
/// first `m`.
proof fn lemma_rtrim_take(s: Seq<char>, m: int)
    requires
        0 <= m <= s.len(),
        forall|j: int| m <= j < s.len() ==> is_space_char(#[trigger] s[j]),
        m == 0 || !is_space_char(s[m - 1]),
    ensures
        rtrim(s) == s.take(m),
    decreases s.len() - m,
{
    if m == s.len() {
        if s.len() > 0 && is_space_char(s.last()) {
            assert(!is_space_char(s[m - 1]));
            assert(false);
        }
        assert(s.take(m) =~= s);
    } else {
        assert(is_space_char(s.last()));
        lemma_rtrim_take(s.drop_last(), m);
        assert(s.drop_last().take(m) =~= s.take(m));
    }
}

/// A non-empty trimmed string starts with something other than whitespace.
pub proof fn lemma_trim_first_nonblank(s: Seq<char>)
    ensures
        trim_spec(s).len() > 0 ==> !is_space_char(trim_spec(s).first()),
{
    lemma_ltrim_first(s);
    lemma_rtrim_prefix(ltrim(s));
}

/// What trimming from the left leaves never starts with whitespace.
proof fn lemma_ltrim_first(s: Seq<char>)
    ensures
        ltrim(s).len() > 0 ==> !is_space_char(ltrim(s).first()),
    decreases s.len(),
{
    if s.len() > 0 && is_space_char(s.first()) {
        lemma_ltrim_first(s.drop_first());
    }
}

/// Trimming from the right keeps the first character, when anything stays.
proof fn lemma_rtrim_prefix(s: Seq<char>)
    ensures
        rtrim(s).len() > 0 ==> rtrim(s).first() == s.first(),
    decreases s.len(),
{
    if s.len() > 0 && is_space_char(s.last()) {
        lemma_rtrim_prefix(s.drop_last());
        if rtrim(s).len() > 0 {
            assert(s.drop_last().first() == s.first());
        }
    }
}

/// Whether `c` is whitespace for the trimming rule.
pub fn is_space(c: char) -> (r: bool)
    ensures
        r == is_space_char(c),
{
    c == ' ' || c == '\t' || c == '\n' || c == '\r'
}

/// The slice of `s` with leading and trailing whitespace removed.
pub fn trim_str<'a>(s: &'a str) -> (t: &'a str)
    ensures
        t@ == trim_spec(s@),
{
    let n = s.unicode_len();
    let mut a: usize = 0;
    while a < n && is_space(s.get_char(a))
        invariant
            n == s@.len(),
            0 <= a <= n,
            forall|j: int| 0 <= j < a ==> is_space_char(#[trigger] s@[j]),
        decreases n - a,
    {
        a = a + 1;
    }
    if a == n {
        proof {
            lemma_ltrim_skip(s@, n as int);
            assert(s@.skip(n as int) =~= s@.subrange(n as int, n as int));
            lemma_rtrim_take(s@.subrange(n as int, n as int), 0);
            assert(s@.subrange(n as int, n as int).take(0) =~= s@.subrange(
                n as int,
                n as int,
            ));
        }
        return s.substring_char(a, n);
    }
    let mut b: usize = n;
    while b > a && is_space(s.get_char(b - 1))
        invariant
            n == s@.len(),
            0 <= a <= b <= n,
            a < n,
            !is_space_char(s@[a as int]),
            forall|j: int| b <= j < n ==> is_space_char(#[trigger] s@[j]),
        decreases b,
    {
        b = b - 1;
    }
    proof {
        if b == a {
            assert(is_space_char(s@[a as int]));
            assert(false);
        }
        lemma_ltrim_skip(s@, a as int);
        let u = s@.skip(a as int);
        assert(forall|j: int| b - a <= j < u.len() ==> is_space_char(#[trigger] u[j])) by {
            assert(forall|j: int|
                b - a <= j < u.len() ==> #[trigger] u[j] == s@[j + a] && b <= j + a < n);
        }
        assert(u[b - a - 1] == s@[b - 1]);
        assert(!is_space_char(u[b - a - 1]));
        lemma_rtrim_take(u, b - a);
        assert(u.take(b - a) =~= s@.subrange(a as int, b as int));
    }
    s.substring_char(a, b)
}

/// Character-wise equality of two string slices.
pub fn str_eq(a: &str, b: &str) -> (r: bool)
    ensures
        r == (a@ == b@),
{
    let n = a.unicode_len();
    if n != b.unicode_len() {
        return false;
    }
    let mut i: usize = 0;
    while i < n
        invariant
            n == a@.len(),
            n == b@.len(),
            0 <= i <= n,
            forall|j: int| 0 <= j < i ==> a@[j] == b@[j],
        decreases n - i,
    {
        if a.get_char(i) != b.get_char(i) {
            return false;
        }
        i = i + 1;
    }
    proof {
        assert(a@ =~= b@);
    }
    true
}

/// Whether `p` is a prefix of `s`, character by character.
pub fn str_has_prefix(s: &str, p: &str) -> (r: bool)
    ensures
        r == p@.is_prefix_of(s@),
{
    let np = p.unicode_len();
    let ns = s.unicode_len();
    if np > ns {
        return false;
    }
    let mut i: usize = 0;
    while i < np
        invariant
            np == p@.len(),
            ns == s@.len(),
            np <= ns,
            0 <= i <= np,
            forall|j: int| 0 <= j < i ==> s@[j] == p@[j],
        decreases np - i,
    {
        if s.get_char(i) != p.get_char(i) {
            proof {
                if p@.is_prefix_of(s@) {
                    assert(p@ =~= s@.subrange(0, np as int));
                    assert(p@[i as int] == s@[i as int]);
                }
            }
            return false;
        }
        i = i + 1;
    }
    proof {
        assert(p@ =~= s@.subrange(0, np as int));
    }
    true
}

} // verus!
