//! The command-line tokenizer: splits shortcut arguments at whitespace while
//! keeping a quoted stretch (in `"` or `'`) inside one token.
use vstd::prelude::*;

use crate::text::{
    chars_of, copy_range, is_whitespace, is_ws, join, lemma_trim_end_amount, lemma_trim_fixed,
    string_from_chars, trim, trim_start,
};

verus! {

broadcast use crate::lemma_char_vec_deep_view;

/// The state of the tokenizer after it has read a prefix of the input: where the
/// current token started (if one is open), the quote that is open (if any), and
/// the tokens completed so far.
pub struct TokenScan {
    pub start: Option<int>,
    pub quote: Option<char>,
    pub tokens: Seq<Seq<char>>,
}

/// The characters that open and close a quoted stretch.
pub open spec fn is_quote(c: char) -> bool {
    c == '"' || c == '\''
}

/// The tokenizer before it has read anything.
pub open spec fn scan_init() -> TokenScan {
    TokenScan { start: None, quote: None, tokens: Seq::empty() }
}

/// How the tokenizer moves on when it reads `s[i]`: whitespace outside a token is
/// skipped; any other character opens a token; a quote character opens a quoted
/// stretch that only the same character closes; whitespace outside a quoted
/// stretch ends the open token.
pub open spec fn scan_step(st: TokenScan, s: Seq<char>, i: int) -> TokenScan {
    let c = s[i];
    if st.start is None && is_ws(c) {
        st
    } else {
        let b = match st.start {
            Some(b) => b,
            None => i,
        };
        match st.quote {
            Some(q) => TokenScan {
                start: Some(b),
                quote: if c == q {
                    None
                } else {
                    Some(q)
                },
                tokens: st.tokens,
            },
            None => if is_quote(c) {
                TokenScan { start: Some(b), quote: Some(c), tokens: st.tokens }
            } else if is_ws(c) {
                TokenScan { start: None, quote: None, tokens: st.tokens.push(s.subrange(b, i)) }
            } else {
                TokenScan { start: Some(b), quote: None, tokens: st.tokens }
            },
        }
    }
}

/// The tokenizer after it has read `s[0..n]`.
pub open spec fn scan(s: Seq<char>, n: nat) -> TokenScan
    decreases n,
{
    if n == 0 {
        scan_init()
    } else {
        scan_step(scan(s, (n - 1) as nat), s, n - 1)
    }
}

/// The tokens of `s`: those completed while reading it, then the one still open
/// at its end.
pub open spec fn split_tokens(s: Seq<char>) -> Seq<Seq<char>> {
    let st = scan(s, s.len());
    match st.start {
        Some(b) => st.tokens.push(s.subrange(b, s.len() as int)),
        None => st.tokens,
    }
}

/// `t` holds a quote character.
pub open spec fn has_quote(t: Seq<char>) -> bool {
    exists|k: int| 0 <= k < t.len() && is_quote(#[trigger] t[k])
}

/// `t` holds a whitespace character.
pub open spec fn has_ws(t: Seq<char>) -> bool {
    exists|k: int| 0 <= k < t.len() && is_ws(#[trigger] t[k])
}

/// What every token is: not empty, not starting with whitespace, and free of
/// whitespace unless a quote character makes room for it.
pub open spec fn well_formed_token(t: Seq<char>) -> bool {
    &&& t.len() > 0
    &&& !is_ws(t[0])
    &&& !has_quote(t) ==> !has_ws(t)
}

spec fn opt_int(o: Option<usize>) -> Option<int> {
    match o {
        Some(b) => Some(b as int),
        None => None,
    }
}

/// What holds of the tokenizer's state after it has read `s[0..n]`.
spec fn scan_inv(s: Seq<char>, n: int, st: TokenScan) -> bool {
    &&& forall|k: int| 0 <= k < st.tokens.len() ==> well_formed_token(#[trigger] st.tokens[k])
    &&& st.start is None ==> st.quote is None
    &&& st.start matches Some(b) ==> {
        &&& 0 <= b < n
        &&& !is_ws(s[b])
        &&& !has_quote(s.subrange(b, n)) ==> st.quote is None && !has_ws(s.subrange(b, n))
    }
}

proof fn lemma_scan_inv(s: Seq<char>, n: nat)
    requires
        n <= s.len(),
    ensures
        scan_inv(s, n as int, scan(s, n)),
    decreases n,
{
    if n > 0 {
        let m = (n - 1) as nat;
        lemma_scan_inv(s, m);
        let st = scan(s, m);
        let c = s[m as int];
        if let Some(b) = scan(s, n).start {
            let piece = s.subrange(b, n as int);
            if !has_quote(piece) {
                let prev = s.subrange(b, m as int);
                if b < m {
                    assert forall|k: int| 0 <= k < prev.len() implies !is_quote(#[trigger] prev[k]) by {
                        assert(prev[k] == piece[k]);
                    }
                }
                assert(!is_quote(piece[(m - b) as int]));
                assert forall|k: int| 0 <= k < piece.len() implies !is_ws(#[trigger] piece[k]) by {
                    if k < m - b {
                        assert(piece[k] == prev[k]);
                    }
                }
            }
        }
        if let Some(b) = st.start {
            if st.quote is None && !is_quote(c) && is_ws(c) {
                let t = s.subrange(b, m as int);
                assert(t[0] == s[b]);
                if !has_quote(t) {
                    assert(!has_ws(t));
                }
                assert(scan(s, n).tokens == st.tokens.push(t));
            }
        }
    }
}

/// Every token that the tokenizer produces is well formed.
pub proof fn lemma_tokens_well_formed(s: Seq<char>)
    ensures
        forall|k: int|
            0 <= k < split_tokens(s).len() ==> well_formed_token(#[trigger] split_tokens(s)[k]),
{
    lemma_scan_inv(s, s.len());
    let st = scan(s, s.len());
    if let Some(b) = st.start {
        let t = s.subrange(b, s.len() as int);
        assert(t[0] == s[b]);
        assert(split_tokens(s) == st.tokens.push(t));
    }
}


/// A quote state that is open is held by a quote character.
proof fn lemma_quote_state_is_quote(t: Seq<char>, k: int)
    requires
        0 <= k <= t.len(),
    ensures
        quote_after(t, k, None) matches Some(q) ==> is_quote(q),
    decreases k,
{
    if k > 0 {
        lemma_quote_state_is_quote(t, k - 1);
    }
}

/// What holds of the tokenizer's state after it has read `s[0..n]`, in terms of
/// quoted stretches: the completed tokens are closed, and the open one is open
/// with the quote state that the tokenizer holds.
spec fn scan_quote_inv(s: Seq<char>, n: int, st: TokenScan) -> bool {
    &&& forall|k: int| 0 <= k < st.tokens.len() ==> closed_token(#[trigger] st.tokens[k])
    &&& st.start is None ==> st.quote is None
    &&& st.start matches Some(b) ==> {
        &&& 0 <= b < n
        &&& open_token(s.subrange(b, n))
        &&& quote_after(s.subrange(b, n), n - b, None) == st.quote
    }
}

proof fn lemma_scan_quote_inv(s: Seq<char>, n: nat)
    requires
        n <= s.len(),
    ensures
        scan_quote_inv(s, n as int, scan(s, n)),
    decreases n,
{
    if n > 0 {
        let m = (n - 1) as nat;
        lemma_scan_quote_inv(s, m);
        let st = scan(s, m);
        let c = s[m as int];
        let nst = scan(s, n);
        assert(nst == scan_step(st, s, m as int));
        if let Some(b) = nst.start {
            let piece = s.subrange(b, n as int);
            let prev = s.subrange(b, m as int);
            assert(piece =~= prev + seq![c]);
            assert(piece[m - b] == c);
            assert forall|k: int| 0 <= k <= prev.len() implies quote_after(piece, k, None)
                == quote_after(prev, k, None) by {
                lemma_quote_after_prefix(prev, seq![c], k, None);
            }
            assert(quote_after(piece, n - b, None) == quote_step(quote_after(prev, m - b, None), c));
            if st.start is None {
                assert(b == m);
                assert(!is_ws(c));
            }
            assert forall|k: int| 0 <= k < piece.len() && quote_after(piece, k, None) is None implies !is_ws(
                #[trigger] piece[k],
            ) by {
                if k < prev.len() {
                    assert(piece[k] == prev[k]);
                } else if st.start is Some {
                    if is_quote(c) {
                    } else {
                        assert(!is_ws(c));
                    }
                }
            }
        }
        if let Some(b) = st.start {
            if st.quote is None && !is_quote(c) && is_ws(c) {
                let t = s.subrange(b, m as int);
                assert(nst.tokens == st.tokens.push(t));
                assert(closed_token(t));
            }
        }
    }
}

/// The shape of the tokens of `s`: every one but the last closes its quoted
/// stretches, and the last is open.
pub proof fn lemma_split_tokens_open(s: Seq<char>)
    ensures
        forall|k: int| 0 <= k < split_tokens(s).len() - 1 ==> closed_token(#[trigger] split_tokens(s)[k]),
        forall|k: int| 0 <= k < split_tokens(s).len() ==> open_token(#[trigger] split_tokens(s)[k]),
{
    lemma_scan_quote_inv(s, s.len());
    let st = scan(s, s.len());
    if let Some(b) = st.start {
        let t = s.subrange(b, s.len() as int);
        assert(split_tokens(s) == st.tokens.push(t));
    }
}

/// Trimming leaves a closed token as it is.
pub proof fn lemma_closed_token_trimmed(t: Seq<char>)
    requires
        closed_token(t),
    ensures
        trim(t) == t,
{
    let n = t.len() as int;
    assert(quote_after(t, 0, None) is None);
    assert(!is_ws(t[0]));
    if quote_after(t, n - 1, None) is None {
        assert(!is_ws(t[n - 1]));
    } else {
        lemma_quote_state_is_quote(t, n - 1);
        assert(quote_after(t, n, None) == quote_step(quote_after(t, n - 1, None), t[n - 1]));
        assert(is_quote(t[n - 1]));
    }
    lemma_trim_fixed(t);
}

/// Trimming an open token leaves an open token.
pub proof fn lemma_open_token_trimmed(t: Seq<char>)
    requires
        open_token(t),
    ensures
        open_token(trim(t)),
{
    assert(quote_after(t, 0, None) is None);
    assert(!is_ws(t[0]));
    assert(trim_start(t) == t);
    let j = lemma_trim_end_amount(t);
    assert(trim(t) == t.take(j));
    if j == 0 {
        assert(is_ws(t[0]));
    }
    let u = t.take(j);
    assert(u + t.skip(j) =~= t);
    assert forall|k: int| 0 <= k < u.len() && quote_after(u, k, None) is None implies !is_ws(#[trigger] u[k]) by {
        lemma_quote_after_prefix(u, t.skip(j), k, None);
        assert(u[k] == t[k]);
    }
}

/// The quote state after one more character.
pub open spec fn quote_step(q: Option<char>, c: char) -> Option<char> {
    match q {
        Some(x) => if c == x {
            None
        } else {
            Some(x)
        },
        None => if is_quote(c) {
            Some(c)
        } else {
            None
        },
    }
}

/// The quote state after reading `t[0..n]`, starting from `q`.
pub open spec fn quote_after(t: Seq<char>, n: int, q: Option<char>) -> Option<char>
    decreases n,
{
    if n <= 0 {
        q
    } else {
        quote_step(quote_after(t, n - 1, q), t[n - 1])
    }
}

/// A token that reads back as itself when it ends the input: it does not start
/// with whitespace and has whitespace only inside quoted stretches (the last of
/// which may stay open).
pub open spec fn open_token(t: Seq<char>) -> bool {
    &&& t.len() > 0
    &&& forall|k: int| 0 <= k < t.len() && quote_after(t, k, None) is None ==> !is_ws(#[trigger] t[k])
}

/// A token that reads back as itself when it stands between spaces: it does
/// not start with whitespace, has whitespace only inside quoted stretches, and
/// closes every quoted stretch it opens.
pub open spec fn closed_token(t: Seq<char>) -> bool {
    &&& t.len() > 0
    &&& forall|k: int| 0 <= k < t.len() && quote_after(t, k, None) is None ==> !is_ws(#[trigger] t[k])
    &&& quote_after(t, t.len() as int, None) is None
}

/// The tokenizer's state depends only on what it has read.
proof fn lemma_scan_prefix(s1: Seq<char>, s2: Seq<char>, n: nat)
    requires
        n <= s1.len(),
        n <= s2.len(),
        s1.take(n as int) == s2.take(n as int),
    ensures
        scan(s1, n) == scan(s2, n),
    decreases n,
{
    if n > 0 {
        let m = (n - 1) as nat;
        assert(s1.take(m as int) =~= s1.take(n as int).take(m as int));
        assert(s2.take(m as int) =~= s2.take(n as int).take(m as int));
        lemma_scan_prefix(s1, s2, m);
        assert(s1[m as int] == s1.take(n as int)[m as int]);
        assert(s2[m as int] == s2.take(n as int)[m as int]);
        let st = scan(s1, m);
        if let Some(b) = st.start {
            lemma_scan_inv(s1, m);
            assert(s1.subrange(b, m as int) =~= s1.take(n as int).subrange(b, m as int));
            assert(s2.subrange(b, m as int) =~= s2.take(n as int).subrange(b, m as int));
        }
    }
}

/// Reading the first `k` characters of a token that starts at `p`, outside any
/// token, opens it and tracks its quote state.
proof fn lemma_scan_token_upto(s: Seq<char>, p: int, t: Seq<char>, done: Seq<Seq<char>>, k: int)
    requires
        0 <= p,
        1 <= k <= t.len(),
        p + t.len() <= s.len(),
        s.subrange(p, p + t.len()) == t,
        open_token(t),
        scan(s, p as nat) == (TokenScan { start: None, quote: None, tokens: done }),
    ensures
        scan(s, (p + k) as nat) == (TokenScan { start: Some(p), quote: quote_after(t, k, None), tokens: done }),
    decreases k,
{
    assert(s[p + k - 1] == t[k - 1]);
    assert(quote_after(t, k, None) == quote_step(quote_after(t, k - 1, None), t[k - 1]));
    if k == 1 {
        assert(quote_after(t, 0, None) is None);
        assert(!is_ws(t[0]));
    } else {
        lemma_scan_token_upto(s, p, t, done, k - 1);
        if quote_after(t, k - 1, None) is None {
            assert(!is_ws(t[k - 1]));
        }
    }
}

/// The join of the items before `j`.
spec fn joined(ts: Seq<Seq<char>>, j: int) -> Seq<char> {
    join(ts.take(j), seq![' '])
}

proof fn lemma_scan_join(ts: Seq<Seq<char>>, j: int)
    requires
        1 <= j <= ts.len(),
        forall|k: int| 0 <= k < j - 1 ==> closed_token(#[trigger] ts[k]),
        open_token(ts[j - 1]),
    ensures
        scan(joined(ts, j), joined(ts, j).len()) == (TokenScan {
            start: Some(joined(ts, j).len() - ts[j - 1].len()),
            quote: quote_after(ts[j - 1], ts[j - 1].len() as int, None),
            tokens: ts.take(j - 1),
        }),
        joined(ts, j).subrange(joined(ts, j).len() - ts[j - 1].len(), joined(ts, j).len() as int) == ts[j - 1],
    decreases j,
{
    let s = joined(ts, j);
    if j == 1 {
        assert(ts.take(1).len() == 1);
        assert(s == ts[0]);
        assert(ts.take(0) =~= Seq::<Seq<char>>::empty());
        assert(s.subrange(0, s.len() as int) =~= s);
        lemma_scan_token_upto(s, 0, ts[0], Seq::<Seq<char>>::empty(), ts[0].len() as int);
    } else {
        assert(closed_token(ts[j - 2]));
        lemma_scan_join(ts, j - 1);
        let prev = joined(ts, j - 1);
        let t = ts[j - 1];
        assert(ts.take(j).drop_last() =~= ts.take(j - 1));
        assert(s == prev + seq![' '] + t);
        assert(s.take(prev.len() as int) =~= prev.take(prev.len() as int));
        lemma_scan_prefix(s, prev, prev.len());
        let b = prev.len() - ts[j - 2].len();
        assert(s[prev.len() as int] == ' ');
        assert(s.subrange(b, prev.len() as int) =~= prev.subrange(b, prev.len() as int));
        assert(ts.take(j - 2).push(ts[j - 2]) =~= ts.take(j - 1));
        let p: int = (prev.len() + 1) as int;
        assert(s.subrange(p, p + t.len()) =~= t);
        lemma_scan_token_upto(s, p, t, ts.take(j - 1), t.len() as int);
        assert(s.subrange(s.len() - t.len(), s.len() as int) =~= t);
    }
}

/// Closed tokens, the last of which may be only open, joined by single spaces
/// split back into the same tokens.
pub proof fn lemma_split_join_open_tokens(ts: Seq<Seq<char>>)
    requires
        forall|k: int| 0 <= k < ts.len() - 1 ==> closed_token(#[trigger] ts[k]),
        ts.len() > 0 ==> open_token(ts.last()),
    ensures
        split_tokens(join(ts, seq![' '])) == ts,
{
    if ts.len() == 0 {
        assert(join(ts, seq![' ']) == Seq::<char>::empty());
    } else {
        let n = ts.len() as int;
        lemma_scan_join(ts, n);
        assert(ts.take(n) =~= ts);
        assert(ts.take(n - 1).push(ts[n - 1]) =~= ts);
    }
}

/// Closed tokens joined by single spaces split back into the same tokens.
pub proof fn lemma_split_join_tokens(ts: Seq<Seq<char>>)
    requires
        forall|k: int| 0 <= k < ts.len() ==> closed_token(#[trigger] ts[k]),
    ensures
        split_tokens(join(ts, seq![' '])) == ts,
{
    if ts.len() > 0 {
        assert(closed_token(ts[ts.len() - 1]));
    }
    lemma_split_join_open_tokens(ts);
}

/// A token without quote characters or whitespace is closed.
pub proof fn lemma_plain_token_closed(t: Seq<char>)
    requires
        t.len() > 0,
        forall|k: int| 0 <= k < t.len() ==> !is_quote(#[trigger] t[k]) && !is_ws(t[k]),
    ensures
        closed_token(t),
{
    assert forall|k: int| 0 <= k <= t.len() implies quote_after(t, k, None) is None by {
        lemma_quote_after_plain(t, k);
    }
}

pub proof fn lemma_quote_after_plain(t: Seq<char>, k: int)
    requires
        0 <= k <= t.len(),
        forall|m: int| 0 <= m < t.len() ==> !is_quote(#[trigger] t[m]),
    ensures
        quote_after(t, k, None) is None,
    decreases k,
{
    if k > 0 {
        lemma_quote_after_plain(t, k - 1);
        assert(!is_quote(t[k - 1]));
    }
}

/// The quote state over a concatenation.
pub proof fn lemma_quote_after_concat(x: Seq<char>, y: Seq<char>, k: int, q: Option<char>)
    requires
        0 <= k <= y.len(),
    ensures
        quote_after(x + y, x.len() + k, q) == quote_after(y, k, quote_after(x, x.len() as int, q)),
    decreases x.len() + k,
{
    if k > 0 {
        lemma_quote_after_concat(x, y, k - 1, q);
        assert((x + y)[x.len() + k - 1] == y[k - 1]);
    } else {
        lemma_quote_after_prefix(x, y, x.len() as int, q);
    }
}

/// The quote state after a prefix ignores what follows.
pub proof fn lemma_quote_after_prefix(x: Seq<char>, y: Seq<char>, k: int, q: Option<char>)
    requires
        0 <= k <= x.len(),
    ensures
        quote_after(x + y, k, q) == quote_after(x, k, q),
    decreases k,
{
    if k > 0 {
        lemma_quote_after_prefix(x, y, k - 1, q);
        assert((x + y)[k - 1] == x[k - 1]);
    }
}

/// Inside an open quoted stretch, text without that quote keeps it open.
pub proof fn lemma_quote_after_inside(y: Seq<char>, k: int, c: char)
    requires
        0 <= k <= y.len(),
        forall|m: int| 0 <= m < y.len() ==> #[trigger] y[m] != c,
    ensures
        quote_after(y, k, Some(c)) == Some(c),
    decreases k,
{
    if k > 0 {
        lemma_quote_after_inside(y, k - 1, c);
    }
}

/// The tokens of `s`, as character vectors.
pub fn tokenize(s: &Vec<char>) -> (r: Vec<Vec<char>>)
    ensures
        r.deep_view() == split_tokens(s@),
{
    let mut tokens: Vec<Vec<char>> = Vec::new();
    let mut start: Option<usize> = None;
    let mut quote: Option<char> = None;
    let mut i: usize = 0;
    assert(tokens.deep_view() =~= Seq::<Seq<char>>::empty());
    while i < s.len()
        invariant
            i <= s@.len(),
            scan(s@, i as nat) == (TokenScan { start: opt_int(start), quote, tokens: tokens.deep_view() }),
            start matches Some(b) ==> b < i,
        decreases s@.len() - i,
    {
        let ch = s[i];
        let ghost before = tokens.deep_view();
        if start.is_some() || !is_whitespace(ch) {
            let b = match start {
                Some(b) => b,
                None => i,
            };
            start = Some(b);
            match quote {
                Some(q) => {
                    if ch == q {
                        quote = None;
                    }
                },
                None => {
                    if ch == '"' || ch == '\'' {
                        quote = Some(ch);
                    } else if is_whitespace(ch) {
                        tokens.push(copy_range(s, b, i));
                        start = None;
                        assert(tokens.deep_view() =~= before.push(s@.subrange(b as int, i as int)));
                    }
                },
            }
        }
        i += 1;
    }
    if let Some(b) = start {
        let ghost before = tokens.deep_view();
        tokens.push(copy_range(s, b, s.len()));
        assert(tokens.deep_view() =~= before.push(s@.subrange(b as int, s@.len() as int)));
    }
    tokens
}

/// The tokens of `s`, as character vectors, from a string slice.
pub fn tokenize_str(s: &str) -> (r: Vec<Vec<char>>)
    ensures
        r.deep_view() == split_tokens(s@),
{
    let chars = chars_of(s);
    tokenize(&chars)
}

/// The strings made of the given character sequences.
pub fn strings_from(items: &Vec<Vec<char>>) -> (r: Vec<String>)
    ensures
        r.deep_view() == items.deep_view(),
{
    let mut r: Vec<String> = Vec::new();
    let mut i: usize = 0;
    while i < items.len()
        invariant
            i <= items@.len(),
            r.deep_view() == items.deep_view().take(i as int),
        decreases items@.len() - i,
    {
        let ghost before = r.deep_view();
        let item = string_from_chars(&items[i]);
        assert(item.deep_view() == items.deep_view()[i as int]);
        r.push(item);
        assert(r.deep_view() =~= before.push(items.deep_view()[i as int]));
        i += 1;
        assert(r.deep_view() =~= items.deep_view().take(i as int));
    }
    assert(items.deep_view().take(items@.len() as int) =~= items.deep_view());
    r
}

/// Splits shortcut arguments into tokens at whitespace, keeping a stretch in
/// double or single quotes, with any whitespace in it, inside one token.
pub fn split_argument_tokens(arguments: &str) -> (r: Vec<String>)
    ensures
        r.deep_view() == split_tokens(arguments@),
{
    let tokens = tokenize_str(arguments);
    strings_from(&tokens)
}

} // verus!
