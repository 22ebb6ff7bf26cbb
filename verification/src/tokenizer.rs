//! The quote-aware tokenizer: one raw input line becomes an ordered sequence
//! of argument strings.
//!
//! A double quote toggles an "inside quotes" flag and is kept in the token.
//! A space outside quotes ends the current token, which is emitted trimmed;
//! runs of spaces between tokens are skipped. Every other character is
//! accumulated. Whatever remains at the end of the line is emitted untrimmed.
//! An unterminated quote is not an error: the token is emitted as it stands.

use vstd::prelude::*;

use crate::strutil::{is_space_char, lemma_trim_first_nonblank, ltrim, rtrim, trim_spec, trim_str};

verus! {

/// One scanner state: the "inside quotes" flag, the accumulator, and the
/// tokens emitted so far.
pub open spec fn scan_init() -> (bool, Seq<char>, Seq<Seq<char>>) {
    (false, Seq::<char>::empty(), Seq::<Seq<char>>::empty())
}

/// How one character moves the scanner.
pub open spec fn scan_step(
    st: (bool, Seq<char>, Seq<Seq<char>>),
    c: char,
) -> (bool, Seq<char>, Seq<Seq<char>>) {
    if c == '"' {
        (!st.0, st.1.push(c), st.2)
    } else if c == ' ' && !st.0 {
        if st.1.len() == 0 {
            st
        } else {
            (st.0, Seq::<char>::empty(), st.2.push(trim_spec(st.1)))
        }
    } else {
        (st.0, st.1.push(c), st.2)
    }
}

/// The scanner folded over a whole character sequence.
pub open spec fn scan(
    s: Seq<char>,
    st: (bool, Seq<char>, Seq<Seq<char>>),
) -> (bool, Seq<char>, Seq<Seq<char>>)
    decreases s.len(),
{
    if s.len() == 0 {
        st
    } else {
        scan(s.drop_first(), scan_step(st, s.first()))
    }
}

/// The tokens of a line: the scanner's output, with a non-empty accumulator
/// emitted untrimmed at the end of the input.
pub open spec fn tokenize_spec(s: Seq<char>) -> Seq<Seq<char>> {
    let st = scan(s, scan_init());
    if st.1.len() == 0 {
        st.2
    } else {
        st.2.push(st.1)
    }
}

/// Folding one more character at the end is one more step.
proof fn lemma_scan_push(s: Seq<char>, st: (bool, Seq<char>, Seq<Seq<char>>), c: char)
    ensures
        scan(s.push(c), st) == scan_step(scan(s, st), c),
    decreases s.len(),
{
    if s.len() == 0 {
        assert(s.push(c).first() == c);
        assert(s.push(c).drop_first() =~= Seq::<char>::empty());
        assert(scan(s.push(c), st) == scan(Seq::<char>::empty(), scan_step(st, c)));
        assert(scan(Seq::<char>::empty(), scan_step(st, c)) == scan_step(st, c));
        assert(scan(s, st) == st);
    } else {
        assert(s.push(c).first() == s.first());
        assert(s.push(c).drop_first() =~= s.drop_first().push(c));
        assert(scan(s.push(c), st) == scan(s.drop_first().push(c), scan_step(st, s.first())));
        lemma_scan_push(s.drop_first(), scan_step(st, s.first()), c);
        assert(scan(s, st) == scan(s.drop_first(), scan_step(st, s.first())));
    }
}

/// Splits a line into argument tokens, honoring the quoting rule.
pub fn tokenize(source: &str) -> (tokens: Vec<String>)
    ensures
        tokens.deep_view() == tokenize_spec(source@),
{
    let n = source.unicode_len();
    let mut tokens: Vec<String> = Vec::new();
    let mut inside_quotes = false;
    let mut start: Option<usize> = None;
    let mut i: usize = 0;
    proof {
        assert(source@.take(0) =~= Seq::<char>::empty());
        assert(tokens.deep_view() =~= Seq::<Seq<char>>::empty());
    }
    while i < n
        invariant
            n == source@.len(),
            0 <= i <= n,
            scan(source@.take(i as int), scan_init()).0 == inside_quotes,
            scan(source@.take(i as int), scan_init()).2 == tokens.deep_view(),
            start is Some ==> (start->Some_0 < i && scan(source@.take(i as int), scan_init()).1
                == source@.subrange(start->Some_0 as int, i as int)),
            start is None ==> scan(source@.take(i as int), scan_init()).1 == Seq::<char>::empty(),
        decreases n - i,
    {
        let ghost st_before = scan(source@.take(i as int), scan_init());
        let c = source.get_char(i);
        proof {
            assert(source@.take(i + 1) =~= source@.take(i as int).push(source@[i as int]));
            lemma_scan_push(source@.take(i as int), scan_init(), source@[i as int]);
        }
        if c == '"' {
            inside_quotes = !inside_quotes;
            if start.is_none() {
                start = Some(i);
            }
            proof {
                assert(source@.subrange(start->Some_0 as int, i + 1) =~= st_before.1.push(c));
            }
        } else if c == ' ' && !inside_quotes {
            if start.is_some() {
                let st = start.unwrap();
                let raw = source.substring_char(st, i);
                let t = trim_str(raw);
                let ghost old_dv = tokens.deep_view();
                tokens.push(String::from_str(t));
                start = None;
                proof {
                    assert(tokens.deep_view() =~= old_dv.push(trim_spec(st_before.1)));
                }
            }
        } else {
            if start.is_none() {
                start = Some(i);
            }
            proof {
                assert(source@.subrange(start->Some_0 as int, i + 1) =~= st_before.1.push(c));
            }
        }
        i = i + 1;
    }
    proof {
        assert(source@.take(n as int) =~= source@);
    }
    if start.is_some() {
        let st = start.unwrap();
        let raw = source.substring_char(st, n);
        let ghost old_dv = tokens.deep_view();
        tokens.push(String::from_str(raw));
        proof {
            assert(tokens.deep_view() =~= old_dv.push(scan(source@, scan_init()).1));
        }
    }
    tokens
}

/// Number of double-quote characters in a string.
pub open spec fn quote_count(s: Seq<char>) -> nat
    decreases s.len(),
{
    if s.len() == 0 {
        0
    } else {
        (if s.first() == '"' {
            1nat
        } else {
            0nat
        }) + quote_count(s.drop_first())
    }
}

/// Total double quotes across a token sequence.
pub open spec fn quote_count_all(ts: Seq<Seq<char>>) -> nat
    decreases ts.len(),
{
    if ts.len() == 0 {
        0
    } else {
        quote_count_all(ts.drop_last()) + quote_count(ts.last())
    }
}

proof fn lemma_quote_count_push(s: Seq<char>, c: char)
    ensures
        quote_count(s.push(c)) == quote_count(s) + (if c == '"' {
            1nat
        } else {
            0nat
        }),
    decreases s.len(),
{
    if s.len() == 0 {
        assert(s.push(c).first() == c);
        assert(s.push(c).drop_first() =~= Seq::<char>::empty());
        assert(quote_count(Seq::<char>::empty()) == 0);
        assert(quote_count(s.push(c)) == (if c == '"' {
            1nat
        } else {
            0nat
        }) + quote_count(Seq::<char>::empty()));
    } else {
        assert(s.push(c).first() == s.first());
        assert(s.push(c).drop_first() =~= s.drop_first().push(c));
        lemma_quote_count_push(s.drop_first(), c);
        assert(quote_count(s.push(c)) == (if s.first() == '"' {
            1nat
        } else {
            0nat
        }) + quote_count(s.drop_first().push(c)));
        assert(quote_count(s) == (if s.first() == '"' {
            1nat
        } else {
            0nat
        }) + quote_count(s.drop_first()));
    }
}

proof fn lemma_quote_count_drop_last(s: Seq<char>)
    requires
        s.len() > 0,
    ensures
        quote_count(s) == quote_count(s.drop_last()) + (if s.last() == '"' {
            1nat
        } else {
            0nat
        }),
{
    lemma_quote_count_push(s.drop_last(), s.last());
    assert(s.drop_last().push(s.last()) =~= s);
}

/// Trimming removes only whitespace, so it never removes a quote.
proof fn lemma_trim_keeps_quotes(s: Seq<char>)
    ensures
        quote_count(trim_spec(s)) == quote_count(s),
{
    lemma_ltrim_keeps_quotes(s);
    lemma_rtrim_keeps_quotes(ltrim(s));
}

proof fn lemma_ltrim_keeps_quotes(s: Seq<char>)
    ensures
        quote_count(ltrim(s)) == quote_count(s),
    decreases s.len(),
{
    if s.len() > 0 && is_space_char(s.first()) {
        assert(s.first() != '"');
        lemma_ltrim_keeps_quotes(s.drop_first());
    }
}

proof fn lemma_rtrim_keeps_quotes(s: Seq<char>)
    ensures
        quote_count(rtrim(s)) == quote_count(s),
    decreases s.len(),
{
    if s.len() > 0 && is_space_char(s.last()) {
        assert(s.last() != '"');
        lemma_quote_count_drop_last(s);
        lemma_rtrim_keeps_quotes(s.drop_last());
    }
}

/// The scanner neither loses nor invents quotes: what the state and the
/// remaining input hold together stays constant.
proof fn lemma_scan_quotes(s: Seq<char>, st: (bool, Seq<char>, Seq<Seq<char>>))
    ensures
        quote_count(scan(s, st).1) + quote_count_all(scan(s, st).2) == quote_count(st.1)
            + quote_count_all(st.2) + quote_count(s),
    decreases s.len(),
{
    if s.len() > 0 {
        let c = s.first();
        let st1 = scan_step(st, c);
        if c == '"' {
            lemma_quote_count_push(st.1, c);
        } else if c == ' ' && !st.0 {
            if st.1.len() > 0 {
                assert(st.2.push(trim_spec(st.1)).drop_last() =~= st.2);
                lemma_trim_keeps_quotes(st.1);
            }
        } else {
            lemma_quote_count_push(st.1, c);
        }
        lemma_scan_quotes(s.drop_first(), st1);
    }
}

/// Quote characters are retained: the tokens of a line hold, all together,
/// exactly as many double quotes as the line itself.
pub proof fn lemma_quotes_retained(s: Seq<char>)
    ensures
        quote_count_all(tokenize_spec(s)) == quote_count(s),
{
    lemma_scan_quotes(s, scan_init());
    let st = scan(s, scan_init());
    if st.1.len() > 0 {
        assert(st.2.push(st.1).drop_last() =~= st.2);
    }
}

/// Trims a raw input line and tokenizes it. A blank line short-circuits to
/// nothing; any other line yields a command line with at least one token,
/// so the first token is always there to dispatch on.
pub fn prepare_line(line: &str) -> (r: Option<Vec<String>>)
    ensures
        trim_spec(line@).len() == 0 ==> r is None,
        trim_spec(line@).len() > 0 ==> (r matches Some(tokens)
            && tokens.deep_view() == tokenize_spec(trim_spec(line@)) && tokens@.len() > 0),
{
    let trimmed = trim_str(line);
    if trimmed.unicode_len() == 0 {
        return None;
    }
    proof {
        lemma_trim_first_nonblank(line@);
        assert(trimmed@[0] != ' ');
        assert(exists|j: int| 0 <= j < trimmed@.len() && trimmed@[j] != ' ');
        lemma_nonblank_line_has_tokens(trimmed@);
    }
    let tokens = tokenize(trimmed);
    Some(tokens)
}

/// A scanner state in which no finished or pending token is or can become
/// empty, as long as the only whitespace seen is the plain space.
spec fn scan_wf(st: (bool, Seq<char>, Seq<Seq<char>>)) -> bool {
    &&& forall|k: int| 0 <= k < st.2.len() ==> #[trigger] st.2[k].len() > 0
    &&& st.1.len() > 0 ==> !is_space_char(st.1.first())
    &&& (!st.0 && st.1.len() > 0) ==> !is_space_char(st.1.last())
    &&& st.0 ==> st.1.len() > 0
}

/// One step preserves well-formedness when the character is no exotic blank.
proof fn lemma_step_wf(st: (bool, Seq<char>, Seq<Seq<char>>), c: char)
    requires
        scan_wf(st),
        is_space_char(c) ==> c == ' ',
    ensures
        scan_wf(scan_step(st, c)),
{
    if c == '"' {
    } else if c == ' ' && !st.0 {
        if st.1.len() > 0 {
            assert(ltrim(st.1) == st.1);
            assert(rtrim(st.1) == st.1);
        }
    } else {
    }
}

/// The whole scan preserves well-formedness.
proof fn lemma_scan_wf(s: Seq<char>, st: (bool, Seq<char>, Seq<Seq<char>>))
    requires
        scan_wf(st),
        forall|j: int| 0 <= j < s.len() && is_space_char(#[trigger] s[j]) ==> s[j] == ' ',
    ensures
        scan_wf(scan(s, st)),
    decreases s.len(),
{
    if s.len() > 0 {
        lemma_step_wf(st, s.first());
        assert(forall|j: int|
            0 <= j < s.drop_first().len() && is_space_char(#[trigger] s.drop_first()[j])
                ==> s.drop_first()[j] == ' ');
        lemma_scan_wf(s.drop_first(), scan_step(st, s.first()));
    }
}

/// Whitespace collapse: on a line whose only whitespace is the plain space,
/// every token that comes out is non-empty — runs of separators never leave
/// an empty argument behind.
pub proof fn lemma_tokens_nonempty(s: Seq<char>)
    requires
        forall|j: int| 0 <= j < s.len() && is_space_char(#[trigger] s[j]) ==> s[j] == ' ',
    ensures
        forall|k: int|
            0 <= k < tokenize_spec(s).len() ==> #[trigger] tokenize_spec(s)[k].len() > 0,
{
    lemma_scan_wf(s, scan_init());
}

/// A line of nothing but spaces yields no tokens at all.
pub proof fn lemma_blank_line_no_tokens(s: Seq<char>)
    requires
        forall|j: int| 0 <= j < s.len() ==> s[j] == ' ',
    ensures
        tokenize_spec(s).len() == 0,
{
    lemma_scan_blank(s, scan_init());
}

/// Scanning spaces outside quotes with an empty accumulator changes nothing.
proof fn lemma_scan_blank(s: Seq<char>, st: (bool, Seq<char>, Seq<Seq<char>>))
    requires
        !st.0,
        st.1.len() == 0,
        forall|j: int| 0 <= j < s.len() ==> s[j] == ' ',
    ensures
        scan(s, st) == st,
    decreases s.len(),
{
    if s.len() > 0 {
        lemma_scan_blank(s.drop_first(), st);
    }
}

/// Once the scanner holds a pending or finished token, it never loses it.
proof fn lemma_scan_keeps_tokens(s: Seq<char>, st: (bool, Seq<char>, Seq<Seq<char>>))
    requires
        st.1.len() > 0 || st.2.len() > 0,
    ensures
        scan(s, st).1.len() > 0 || scan(s, st).2.len() > 0,
    decreases s.len(),
{
    if s.len() > 0 {
        lemma_scan_keeps_tokens(s.drop_first(), scan_step(st, s.first()));
    }
}

/// The scanner holds a token as soon as the input has a non-separator.
proof fn lemma_scan_nonblank(s: Seq<char>, st: (bool, Seq<char>, Seq<Seq<char>>))
    requires
        exists|j: int| 0 <= j < s.len() && s[j] != ' ',
    ensures
        scan(s, st).1.len() > 0 || scan(s, st).2.len() > 0,
    decreases s.len(),
{
    if s.first() != ' ' {
        lemma_scan_keeps_tokens(s.drop_first(), scan_step(st, s.first()));
    } else {
        let j = choose|j: int| 0 <= j < s.len() && s[j] != ' ';
        assert(s.drop_first()[j - 1] != ' ');
        lemma_scan_nonblank(s.drop_first(), scan_step(st, s.first()));
    }
}

/// A dispatched command line is never empty: a line with any character
/// other than the separator yields at least one token.
pub proof fn lemma_nonblank_line_has_tokens(s: Seq<char>)
    requires
        exists|j: int| 0 <= j < s.len() && s[j] != ' ',
    ensures
        tokenize_spec(s).len() > 0,
{
    lemma_scan_nonblank(s, scan_init());
}

/// A simple word — non-empty, no quote, no whitespace — is one token: itself.
pub proof fn lemma_single_token(s: Seq<char>)
    requires
        s.len() > 0,
        forall|j: int| 0 <= j < s.len() ==> s[j] != '"' && !is_space_char(#[trigger] s[j]),
    ensures
        tokenize_spec(s) =~= seq![s],
{
    lemma_scan_plain(s, scan_init());
    assert(Seq::<char>::empty() + s =~= s);
}

/// Scanning plain characters only appends them to the accumulator.
proof fn lemma_scan_plain(s: Seq<char>, st: (bool, Seq<char>, Seq<Seq<char>>))
    requires
        forall|j: int| 0 <= j < s.len() ==> s[j] != '"' && !is_space_char(#[trigger] s[j]),
    ensures
        scan(s, st) == (st.0, st.1 + s, st.2),
    decreases s.len(),
{
    if s.len() == 0 {
        assert(st.1 + s =~= st.1);
        assert((st.0, st.1 + s, st.2) == st);
    } else {
        assert(!is_space_char(s.first()));
        assert(s.first() != ' ');
        lemma_scan_plain(s.drop_first(), scan_step(st, s.first()));
        assert(st.1.push(s.first()) + s.drop_first() =~= st.1 + s);
    }
}

} // verus!
