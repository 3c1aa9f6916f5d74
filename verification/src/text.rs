//! Character-sequence primitives: the whitespace class, ASCII case folding,
//! trimming, prefix and substring search, splitting and joining.
//!
//! Every text value is modelled by its `Seq<char>` view. Executable helpers work
//! on `Vec<char>`, and the conversions at the edges keep the view unchanged.
use vstd::prelude::*;

verus! {

broadcast use crate::lemma_char_vec_deep_view;

/// The Unicode `White_Space` property, which is what `char::is_whitespace`
/// and `str::trim` use.
pub open spec fn is_ws(c: char) -> bool {
    ||| c == ' '
    ||| ('\t' <= c && c <= '\r')
    ||| c == '\u{85}'
    ||| c == '\u{a0}'
    ||| c == '\u{1680}'
    ||| ('\u{2000}' <= c && c <= '\u{200a}')
    ||| c == '\u{2028}'
    ||| c == '\u{2029}'
    ||| c == '\u{202f}'
    ||| c == '\u{205f}'
    ||| c == '\u{3000}'
}

/// Whether `c` is a whitespace character.
pub fn is_whitespace(c: char) -> (b: bool)
    ensures
        b == is_ws(c),
{
    c == ' ' || ('\t' <= c && c <= '\r') || c == '\u{85}' || c == '\u{a0}' || c == '\u{1680}'
        || ('\u{2000}' <= c && c <= '\u{200a}') || c == '\u{2028}' || c == '\u{2029}' || c
        == '\u{202f}' || c == '\u{205f}' || c == '\u{3000}'
}

/// ASCII lower-casing of one character; other characters are unchanged.
pub open spec fn ascii_lower(c: char) -> char {
    if 'A' <= c && c <= 'Z' {
        ((c as u32) + 32) as char
    } else {
        c
    }
}

/// ASCII lower-casing of a whole sequence.
pub open spec fn lower(s: Seq<char>) -> Seq<char> {
    s.map_values(|c: char| ascii_lower(c))
}

/// Equality up to ASCII case.
pub open spec fn eq_ignore_case(a: Seq<char>, b: Seq<char>) -> bool {
    lower(a) == lower(b)
}

/// `p` is a prefix of `s`.
pub open spec fn starts_with(s: Seq<char>, p: Seq<char>) -> bool {
    p.len() <= s.len() && s.take(p.len() as int) == p
}

/// `s` with its leading whitespace removed.
pub open spec fn trim_start(s: Seq<char>) -> Seq<char>
    decreases s.len(),
{
    if s.len() > 0 && is_ws(s[0]) {
        trim_start(s.drop_first())
    } else {
        s
    }
}

/// `s` with its trailing whitespace removed.
pub open spec fn trim_end(s: Seq<char>) -> Seq<char>
    decreases s.len(),
{
    if s.len() > 0 && is_ws(s.last()) {
        trim_end(s.drop_last())
    } else {
        s
    }
}

/// `s` with leading and trailing whitespace removed.
pub open spec fn trim(s: Seq<char>) -> Seq<char> {
    trim_end(trim_start(s))
}

/// `p` occurs in `s` at position `i`.
pub open spec fn occurs_at(s: Seq<char>, p: Seq<char>, i: int) -> bool {
    0 <= i && i + p.len() <= s.len() && s.subrange(i, i + p.len()) == p
}

/// The first position at or after `i` where `p` occurs in `s`.
pub open spec fn find_from(s: Seq<char>, p: Seq<char>, i: int) -> Option<int>
    decreases s.len() + 1 - i,
{
    if i < 0 || i + p.len() > s.len() {
        None
    } else if occurs_at(s, p, i) {
        Some(i)
    } else {
        find_from(s, p, i + 1)
    }
}

/// The first position where `p` occurs in `s`.
pub open spec fn find(s: Seq<char>, p: Seq<char>) -> Option<int> {
    find_from(s, p, 0)
}

/// `p` occurs somewhere in `s`.
pub open spec fn contains(s: Seq<char>, p: Seq<char>) -> bool {
    find(s, p) is Some
}

/// The pieces of `s` between occurrences of `sep`; there is always at least one.
pub open spec fn split_on(s: Seq<char>, sep: char) -> Seq<Seq<char>>
    decreases s.len(),
{
    if s.len() == 0 {
        seq![Seq::<char>::empty()]
    } else {
        let prev = split_on(s.drop_last(), sep);
        if s.last() == sep {
            prev.push(Seq::<char>::empty())
        } else {
            prev.update(prev.len() - 1, prev.last().push(s.last()))
        }
    }
}

/// The items of `items` with `sep` between each two neighbours.
pub open spec fn join(items: Seq<Seq<char>>, sep: Seq<char>) -> Seq<char>
    decreases items.len(),
{
    if items.len() == 0 {
        Seq::<char>::empty()
    } else if items.len() == 1 {
        items[0]
    } else {
        join(items.drop_last(), sep) + sep + items.last()
    }
}

/// The non-empty items of `items`, in order.
pub open spec fn non_empty(items: Seq<Seq<char>>) -> Seq<Seq<char>>
    decreases items.len(),
{
    if items.len() == 0 {
        items
    } else if items.last().len() > 0 {
        non_empty(items.drop_last()).push(items.last())
    } else {
        non_empty(items.drop_last())
    }
}

/// Each item of `items` trimmed.
pub open spec fn trim_all(items: Seq<Seq<char>>) -> Seq<Seq<char>> {
    items.map_values(|t: Seq<char>| trim(t))
}

/// `find_from` reports the first occurrence at or after `j`.
pub proof fn lemma_find_from_first(s: Seq<char>, p: Seq<char>, j: int, k: int)
    requires
        0 <= j <= k,
        occurs_at(s, p, k),
        forall|i: int| j <= i < k ==> !occurs_at(s, p, i),
    ensures
        find_from(s, p, j) == Some(k),
    decreases k - j,
{
    if j < k {
        lemma_find_from_first(s, p, j + 1, k);
    }
}

/// A text that occurs somewhere is contained.
pub proof fn lemma_occurs_contains(s: Seq<char>, p: Seq<char>, k: int)
    requires
        occurs_at(s, p, k),
    ensures
        contains(s, p),
{
    lemma_find_from_reaches(s, p, 0, k);
}

proof fn lemma_find_from_reaches(s: Seq<char>, p: Seq<char>, j: int, k: int)
    requires
        0 <= j <= k,
        occurs_at(s, p, k),
    ensures
        find_from(s, p, j) is Some,
    decreases k - j,
{
    if j < k && !occurs_at(s, p, j) {
        lemma_find_from_reaches(s, p, j + 1, k);
    }
}

/// `y` occurs in `x + y + z` after `x`.
pub proof fn lemma_occurs_in_middle(x: Seq<char>, y: Seq<char>, z: Seq<char>)
    ensures
        occurs_at(x + y + z, y, x.len() as int),
{
    assert((x + y + z).subrange(x.len() as int, (x.len() + y.len()) as int) =~= y);
}

/// Where `find_from` reports `p`, `p` occurs.
pub proof fn lemma_find_from_some(s: Seq<char>, p: Seq<char>, j: int)
    ensures
        find_from(s, p, j) matches Some(i) ==> occurs_at(s, p, i) && j <= i,
    decreases s.len() + 1 - j,
{
    if !(j < 0 || j + p.len() > s.len()) && !occurs_at(s, p, j) {
        lemma_find_from_some(s, p, j + 1);
    }
}

pub proof fn lemma_split_on_nonempty(s: Seq<char>, sep: char)
    ensures
        split_on(s, sep).len() >= 1,
    decreases s.len(),
{
    if s.len() > 0 {
        lemma_split_on_nonempty(s.drop_last(), sep);
    }
}

pub proof fn lemma_trim_start_skip(s: Seq<char>, k: int)
    requires
        0 <= k <= s.len(),
        forall|j: int| 0 <= j < k ==> is_ws(#[trigger] s[j]),
    ensures
        trim_start(s) == trim_start(s.skip(k)),
    decreases k,
{
    if k > 0 {
        assert(trim_start(s) == trim_start(s.drop_first()));
        lemma_trim_start_skip(s.drop_first(), k - 1);
        assert(s.drop_first().skip(k - 1) =~= s.skip(k));
    } else {
        assert(s.skip(0) =~= s);
    }
}

pub proof fn lemma_trim_end_take(s: Seq<char>, k: int)
    requires
        0 <= k <= s.len(),
        forall|j: int| k <= j < s.len() ==> is_ws(#[trigger] s[j]),
    ensures
        trim_end(s) == trim_end(s.take(k)),
    decreases s.len() - k,
{
    if k < s.len() {
        assert(trim_end(s) == trim_end(s.drop_last()));
        lemma_trim_end_take(s.drop_last(), k);
        assert(s.drop_last().take(k) =~= s.take(k));
    } else {
        assert(s.take(k) =~= s);
    }
}


/// `trim_start` drops exactly the leading whitespace.
pub proof fn lemma_trim_start_amount(t: Seq<char>) -> (i: int)
    ensures
        0 <= i <= t.len(),
        trim_start(t) == t.skip(i),
        forall|j: int| 0 <= j < i ==> is_ws(#[trigger] t[j]),
        i < t.len() ==> !is_ws(t[i]),
    decreases t.len(),
{
    if t.len() > 0 && is_ws(t[0]) {
        let k = lemma_trim_start_amount(t.drop_first());
        assert(t.drop_first().skip(k) =~= t.skip(k + 1));
        assert forall|j: int| 0 <= j < k + 1 implies is_ws(#[trigger] t[j]) by {
            if j > 0 {
                assert(t[j] == t.drop_first()[j - 1]);
            }
        }
        if k + 1 < t.len() {
            assert(t[k + 1] == t.drop_first()[k]);
        }
        k + 1
    } else {
        assert(t.skip(0) =~= t);
        0
    }
}

/// `trim_end` drops exactly the trailing whitespace.
pub proof fn lemma_trim_end_amount(t: Seq<char>) -> (j: int)
    ensures
        0 <= j <= t.len(),
        trim_end(t) == t.take(j),
        forall|k: int| j <= k < t.len() ==> is_ws(#[trigger] t[k]),
        j > 0 ==> !is_ws(t[j - 1]),
    decreases t.len(),
{
    if t.len() > 0 && is_ws(t.last()) {
        let k = lemma_trim_end_amount(t.drop_last());
        assert(t.drop_last().take(k) =~= t.take(k));
        assert forall|m: int| k <= m < t.len() implies is_ws(#[trigger] t[m]) by {
            if m < t.len() - 1 {
                assert(t[m] == t.drop_last()[m]);
            }
        }
        if k > 0 {
            assert(t[k - 1] == t.drop_last()[k - 1]);
        }
        k
    } else {
        assert(t.take(t.len() as int) =~= t);
        t.len() as int
    }
}

/// A trimmed text is a stretch of the text that is empty or starts and ends
/// with a character that is not whitespace.
pub proof fn lemma_trim_shape(t: Seq<char>) -> (ab: (int, int))
    ensures
        0 <= ab.0 <= ab.1 <= t.len(),
        trim(t) == t.subrange(ab.0, ab.1),
        trim(t).len() == 0 || (!is_ws(trim(t)[0]) && !is_ws(trim(t).last())),
{
    let i = lemma_trim_start_amount(t);
    let v = t.skip(i);
    let j = lemma_trim_end_amount(v);
    assert(v.take(j) =~= t.subrange(i, i + j));
    if j > 0 {
        assert(trim(t)[0] == t[i]);
        assert(trim(t).last() == v[j - 1]);
    }
    (i, i + j)
}

/// A text that is empty or starts and ends with non-whitespace is its own trim.
pub proof fn lemma_trim_fixed(u: Seq<char>)
    requires
        u.len() == 0 || (!is_ws(u[0]) && !is_ws(u.last())),
    ensures
        trim(u) == u,
{
    assert(trim_start(u) == u);
    assert(trim_end(u) == u);
}

/// Trimming twice is trimming once.
pub proof fn lemma_trim_idempotent(t: Seq<char>)
    ensures
        trim(trim(t)) == trim(t),
{
    lemma_trim_shape(t);
    lemma_trim_fixed(trim(t));
}

/// Whitespace around `m` does not change its trimmed form.
pub proof fn lemma_trim_pad(p: Seq<char>, m: Seq<char>, s: Seq<char>)
    requires
        forall|k: int| 0 <= k < p.len() ==> is_ws(#[trigger] p[k]),
        forall|k: int| 0 <= k < s.len() ==> is_ws(#[trigger] s[k]),
    ensures
        trim(p + m + s) == trim(m),
{
    let all = p + m + s;
    let ms = m + s;
    lemma_trim_start_skip(all, p.len() as int);
    assert(all.skip(p.len() as int) =~= ms);
    let i = lemma_trim_start_amount(m);
    if i == m.len() {
        lemma_trim_start_skip(ms, ms.len() as int);
        assert(ms.skip(ms.len() as int) =~= Seq::<char>::empty());
        assert(m.skip(i) =~= Seq::<char>::empty());
    } else {
        lemma_trim_start_skip(ms, i);
        let v = ms.skip(i);
        assert(v[0] == m[i]);
        assert(trim_start(v) == v);
        assert(v =~= m.skip(i) + s);
        lemma_trim_end_take(v, m.skip(i).len() as int);
        assert(v.take(m.skip(i).len() as int) =~= m.skip(i));
    }
}

/// Trimming what has been trimmed at the start trims the whole.
pub proof fn lemma_trim_of_trim_start(x: Seq<char>)
    ensures
        trim(trim_start(x)) == trim(x),
{
    let i = lemma_trim_start_amount(x);
    lemma_trim_pad(x.take(i), x.skip(i), Seq::<char>::empty());
    assert(x.take(i) + x.skip(i) + Seq::<char>::empty() =~= x);
}

/// No piece of a split holds the separator.
pub proof fn lemma_split_pieces_free(s: Seq<char>, c: char)
    ensures
        forall|k: int, m: int|
            0 <= k < split_on(s, c).len() && 0 <= m < split_on(s, c)[k].len() ==> #[trigger] split_on(s, c)[k][m] != c,
    decreases s.len(),
{
    if s.len() > 0 {
        lemma_split_pieces_free(s.drop_last(), c);
        lemma_split_on_nonempty(s.drop_last(), c);
        let prev = split_on(s.drop_last(), c);
        if s.last() != c {
            assert forall|k: int, m: int|
                0 <= k < split_on(s, c).len() && 0 <= m < split_on(s, c)[k].len() implies #[trigger] split_on(s, c)[k][m] != c by {
                if k == prev.len() - 1 {
                    if m < prev.last().len() {
                        assert(split_on(s, c)[k][m] == prev[k][m]);
                    }
                } else {
                    assert(split_on(s, c)[k] == prev[k]);
                }
            }
        } else {
            assert forall|k: int, m: int|
                0 <= k < split_on(s, c).len() && 0 <= m < split_on(s, c)[k].len() implies #[trigger] split_on(s, c)[k][m] != c by {
                if k < prev.len() {
                    assert(split_on(s, c)[k] == prev[k]);
                }
            }
        }
    }
}

/// Prepending text without the separator extends the first piece.
pub proof fn lemma_split_prepend_free(p: Seq<char>, x: Seq<char>, c: char)
    requires
        forall|m: int| 0 <= m < p.len() ==> #[trigger] p[m] != c,
    ensures
        split_on(p + x, c) == split_on(x, c).update(0, p + split_on(x, c)[0]),
    decreases x.len(),
{
    lemma_split_on_nonempty(x, c);
    if x.len() == 0 {
        lemma_split_append_free(Seq::<char>::empty(), p, c);
        assert(Seq::<char>::empty() + p =~= p + x);
        assert(split_on(Seq::<char>::empty(), c) == seq![Seq::<char>::empty()]);
        assert(seq![Seq::<char>::empty()].update(0, Seq::<char>::empty() + p) =~= seq![Seq::<char>::empty()].update(
            0,
            p + Seq::<char>::empty(),
        ));
        assert(p + Seq::<char>::empty() =~= p);
        assert(Seq::<char>::empty() + p =~= p);
    } else {
        let x0 = x.drop_last();
        lemma_split_prepend_free(p, x0, c);
        lemma_split_on_nonempty(x0, c);
        assert((p + x).drop_last() =~= p + x0);
        assert((p + x).last() == x.last());
        let s0 = split_on(x0, c);
        if x.last() == c {
            assert(split_on(x, c) == s0.push(Seq::<char>::empty()));
            assert(split_on(p + x, c) == split_on(p + x0, c).push(Seq::<char>::empty()));
            assert(split_on(p + x, c) =~= split_on(x, c).update(0, p + split_on(x, c)[0]));
        } else {
            assert(split_on(x, c) == s0.update(s0.len() - 1, s0.last().push(x.last())));
            let q = split_on(p + x0, c);
            assert(split_on(p + x, c) == q.update(q.len() - 1, q.last().push(x.last())));
            if s0.len() == 1 {
                assert(p + s0[0].push(x.last()) =~= (p + s0[0]).push(x.last()));
            }
            assert(split_on(p + x, c) =~= split_on(x, c).update(0, p + split_on(x, c)[0]));
        }
    }
}

/// Whether no character of `s` is `c`.
pub open spec fn free_of(s: Seq<char>, c: char) -> bool {
    forall|m: int| 0 <= m < s.len() ==> #[trigger] s[m] != c
}

/// The pieces of a split hold only characters of the text.
pub proof fn lemma_split_pieces_from(s: Seq<char>, c: char, d: char)
    requires
        free_of(s, d),
    ensures
        forall|k: int| 0 <= k < split_on(s, c).len() ==> free_of(#[trigger] split_on(s, c)[k], d),
    decreases s.len(),
{
    if s.len() > 0 {
        lemma_split_pieces_from(s.drop_last(), c, d);
        lemma_split_on_nonempty(s.drop_last(), c);
        let prev = split_on(s.drop_last(), c);
        assert(s.last() != d);
        assert forall|k: int| 0 <= k < split_on(s, c).len() implies free_of(#[trigger] split_on(s, c)[k], d) by {
            if k < prev.len() && !(s.last() != c && k == prev.len() - 1) {
                assert(split_on(s, c)[k] == prev[k]);
            } else if s.last() != c && k == prev.len() - 1 {
                assert(split_on(s, c)[k] == prev[k].push(s.last()));
                assert(free_of(prev[k], d));
                assert forall|m: int| 0 <= m < split_on(s, c)[k].len() implies #[trigger] split_on(s, c)[k][m] != d by {
                    if m < prev[k].len() {
                        assert(split_on(s, c)[k][m] == prev[k][m]);
                    }
                }
            } else {
                assert(split_on(s, c)[k].len() == 0);
            }
        }
    }
}

/// Joined items hold only characters of the items and the separator.
pub proof fn lemma_join_from(items: Seq<Seq<char>>, sep: Seq<char>, d: char)
    requires
        forall|k: int| 0 <= k < items.len() ==> free_of(#[trigger] items[k], d),
        free_of(sep, d),
    ensures
        free_of(join(items, sep), d),
    decreases items.len(),
{
    if items.len() > 1 {
        lemma_join_from(items.drop_last(), sep, d);
        assert(free_of(items[items.len() - 1], d));
        let a = join(items.drop_last(), sep);
        assert forall|m: int| 0 <= m < join(items, sep).len() implies #[trigger] join(items, sep)[m] != d by {
            let l = items.last();
            if m < a.len() {
                assert(join(items, sep)[m] == a[m]);
            } else if m < a.len() + sep.len() {
                assert(join(items, sep)[m] == sep[m - a.len()]);
            } else {
                assert(join(items, sep)[m] == l[m - a.len() - sep.len()]);
            }
        }
    } else if items.len() == 1 {
        assert(free_of(items[0], d));
    }
}

/// Appending text without the separator extends the last piece.
pub proof fn lemma_split_append_free(x: Seq<char>, y: Seq<char>, c: char)
    requires
        forall|m: int| 0 <= m < y.len() ==> #[trigger] y[m] != c,
    ensures
        split_on(x + y, c) == split_on(x, c).update(
            split_on(x, c).len() - 1,
            split_on(x, c).last() + y,
        ),
    decreases y.len(),
{
    lemma_split_on_nonempty(x, c);
    let px = split_on(x, c);
    if y.len() == 0 {
        assert(x + y =~= x);
        assert(px.last() + y =~= px.last());
        assert(px.update(px.len() - 1, px.last()) =~= px);
    } else {
        lemma_split_append_free(x, y.drop_last(), c);
        assert((x + y).drop_last() =~= x + y.drop_last());
        assert((x + y).last() == y.last());
        assert(px.last() + y.drop_last() + seq![y.last()] =~= px.last() + y);
        let prev = split_on(x + y.drop_last(), c);
        assert(prev.last() == px.last() + y.drop_last());
        assert(split_on(x + y, c) =~= prev.update(prev.len() - 1, prev.last().push(y.last())));
        assert(prev.last().push(y.last()) =~= px.last() + y);
        assert(split_on(x + y, c) =~= px.update(px.len() - 1, px.last() + y));
    }
}

/// Splitting the join of separator-free items gives the items back.
pub proof fn lemma_split_join(items: Seq<Seq<char>>, c: char)
    requires
        items.len() > 0,
        forall|k: int, m: int| 0 <= k < items.len() && 0 <= m < items[k].len() ==> #[trigger] items[k][m] != c,
    ensures
        split_on(join(items, seq![c]), c) == items,
    decreases items.len(),
{
    let e = Seq::<char>::empty();
    assert(split_on(e, c) == seq![e]);
    if items.len() == 1 {
        assert forall|m: int| 0 <= m < items[0].len() implies #[trigger] items[0][m] != c by {
            assert(items[0][m] != c);
        }
        lemma_split_append_free(e, items[0], c);
        assert(e + items[0] =~= items[0]);
        assert(e + items[0] =~= items[0]);
        assert(split_on(items[0], c) =~= items);
    } else {
        let init = items.drop_last();
        assert forall|k: int, m: int| 0 <= k < init.len() && 0 <= m < init[k].len() implies #[trigger] init[k][m] != c by {
            assert(init[k] == items[k]);
        }
        lemma_split_join(init, c);
        let x = join(init, seq![c]);
        let last = items.last();
        assert forall|m: int| 0 <= m < last.len() implies #[trigger] last[m] != c by {
            assert(items[items.len() - 1][m] != c);
        }
        assert(x + seq![c] =~= x.push(c));
        assert(split_on(x.push(c), c) == split_on(x, c).push(e)) by {
            assert(x.push(c).drop_last() =~= x);
        }
        lemma_split_append_free(x.push(c), last, c);
        assert(join(items, seq![c]) == x + seq![c] + last);
        assert(e + last =~= last);
        assert(split_on(join(items, seq![c]), c) =~= init.push(last));
        assert(init.push(last) =~= items);
    }
}

/// Joining the concatenation of two non-empty lists.
pub proof fn lemma_join_concat(a: Seq<Seq<char>>, b: Seq<Seq<char>>, sep: Seq<char>)
    requires
        a.len() > 0,
        b.len() > 0,
    ensures
        join(a + b, sep) == join(a, sep) + sep + join(b, sep),
    decreases b.len(),
{
    if b.len() == 1 {
        assert((a + b).drop_last() =~= a);
        assert((a + b).last() == b[0]);
    } else {
        lemma_join_concat(a, b.drop_last(), sep);
        assert((a + b).drop_last() =~= a + b.drop_last());
        assert((a + b).last() == b.last());
        assert(join(a + b, sep) =~= join(a, sep) + sep + join(b, sep));
    }
}

/// The join of non-empty items starts with the first item's first character
/// and ends with the last item's last character.
pub proof fn lemma_join_ends(items: Seq<Seq<char>>, sep: Seq<char>)
    requires
        items.len() > 0,
        forall|k: int| 0 <= k < items.len() ==> #[trigger] items[k].len() > 0,
    ensures
        join(items, sep).len() > 0,
        join(items, sep)[0] == items[0][0],
        join(items, sep).last() == items.last().last(),
    decreases items.len(),
{
    if items.len() > 1 {
        let init = items.drop_last();
        assert forall|k: int| 0 <= k < init.len() implies #[trigger] init[k].len() > 0 by {
            assert(init[k] == items[k]);
        }
        lemma_join_ends(init, sep);
    }
}

/// The items kept by `non_empty` are non-empty items of the list.
pub proof fn lemma_non_empty_items(items: Seq<Seq<char>>)
    ensures
        forall|k: int| 0 <= k < non_empty(items).len() ==> (#[trigger] non_empty(items)[k]).len() > 0
            && items.contains(non_empty(items)[k]),
    decreases items.len(),
{
    if items.len() > 0 {
        lemma_non_empty_items(items.drop_last());
        let r = non_empty(items.drop_last());
        assert forall|k: int| 0 <= k < non_empty(items).len() implies (#[trigger] non_empty(items)[k]).len() > 0
            && items.contains(non_empty(items)[k]) by {
            if k < r.len() {
                assert(non_empty(items)[k] == r[k]);
                let i = choose|i: int| 0 <= i < items.drop_last().len() && #[trigger] items.drop_last()[i] == r[k];
                assert(items[i] == r[k]);
            } else {
                assert(non_empty(items)[k] == items.last());
                assert(items[items.len() - 1] == items.last());
            }
        }
    }
}

/// A list of non-empty items is kept whole by `non_empty`.
pub proof fn lemma_non_empty_id(items: Seq<Seq<char>>)
    requires
        forall|k: int| 0 <= k < items.len() ==> #[trigger] items[k].len() > 0,
    ensures
        non_empty(items) == items,
    decreases items.len(),
{
    if items.len() > 0 {
        let init = items.drop_last();
        assert forall|k: int| 0 <= k < init.len() implies #[trigger] init[k].len() > 0 by {
            assert(init[k] == items[k]);
        }
        lemma_non_empty_id(init);
        assert(items[items.len() - 1].len() > 0);
        assert(init.push(items.last()) =~= items);
    }
}

/// A list of trimmed items is kept whole by `trim_all`.
pub proof fn lemma_trim_all_id(items: Seq<Seq<char>>)
    requires
        forall|k: int| 0 <= k < items.len() ==> trim(#[trigger] items[k]) == items[k],
    ensures
        trim_all(items) == items,
{
    assert(trim_all(items) =~= items);
}

/// The characters of `s`, in order.
pub fn chars_of(s: &str) -> (v: Vec<char>)
    ensures
        v@ == s@,
{
    let mut v: Vec<char> = Vec::new();
    for c in it: s.chars()
        invariant
            v@ == it.seq().take(it.index() as int),
            it.seq() == s@,
    {
        v.push(c);
    }
    v
}

/// `String::from_iter` over characters: the string made of exactly these
/// characters, in order. Trusted: std documents that collecting an iterator of
/// `char` into a `String` pushes each character in turn.
#[verifier::external_body]
pub(crate) fn string_from_chars(chars: &Vec<char>) -> (s: String)
    ensures
        s@ == chars@,
{
    String::from_iter(chars.iter())
}

/// A copy of `s[a..b]`.
pub fn copy_range(s: &Vec<char>, a: usize, b: usize) -> (v: Vec<char>)
    requires
        a <= b <= s@.len(),
    ensures
        v@ == s@.subrange(a as int, b as int),
{
    let mut v: Vec<char> = Vec::new();
    let mut i = a;
    while i < b
        invariant
            a <= i <= b <= s@.len(),
            v@ == s@.subrange(a as int, i as int),
        decreases b - i,
    {
        v.push(s[i]);
        i += 1;
        assert(v@ =~= s@.subrange(a as int, i as int));
    }
    v
}

/// Appends all of `other` to `v`.
pub fn append_chars(v: &mut Vec<char>, other: &Vec<char>)
    ensures
        final(v)@ == old(v)@ + other@,
{
    let mut i: usize = 0;
    while i < other.len()
        invariant
            i <= other@.len(),
            v@ == old(v)@ + other@.take(i as int),
        decreases other@.len() - i,
    {
        v.push(other[i]);
        i += 1;
        assert(v@ =~= old(v)@ + other@.take(i as int));
    }
    assert(other@.take(other@.len() as int) =~= other@);
}

/// ASCII lower-casing of one character.
pub fn lower_char(c: char) -> (r: char)
    ensures
        r == ascii_lower(c),
{
    if 'A' <= c && c <= 'Z' {
        let b: u8 = (c as u32 + 32) as u8;
        b as char
    } else {
        c
    }
}

/// ASCII lower-casing of a character sequence.
pub fn to_ascii_lowercase(s: &Vec<char>) -> (r: Vec<char>)
    ensures
        r@ == lower(s@),
{
    let mut r: Vec<char> = Vec::new();
    let mut i: usize = 0;
    while i < s.len()
        invariant
            i <= s@.len(),
            r@ == lower(s@.take(i as int)),
        decreases s@.len() - i,
    {
        r.push(lower_char(s[i]));
        i += 1;
        assert(r@ =~= lower(s@.take(i as int)));
    }
    assert(s@.take(s@.len() as int) =~= s@);
    r
}

/// Whether the two sequences are equal.
pub fn chars_eq(a: &Vec<char>, b: &Vec<char>) -> (r: bool)
    ensures
        r == (a@ == b@),
{
    if a.len() != b.len() {
        return false;
    }
    let mut i: usize = 0;
    while i < a.len()
        invariant
            a@.len() == b@.len(),
            i <= a@.len(),
            forall|j: int| 0 <= j < i ==> a@[j] == b@[j],
        decreases a@.len() - i,
    {
        if a[i] != b[i] {
            return false;
        }
        i += 1;
    }
    assert(a@ =~= b@);
    true
}

/// Whether the two sequences are equal up to ASCII case.
pub fn eq_ignore_ascii_case(a: &Vec<char>, b: &Vec<char>) -> (r: bool)
    ensures
        r == eq_ignore_case(a@, b@),
{
    let la = to_ascii_lowercase(a);
    let lb = to_ascii_lowercase(b);
    chars_eq(&la, &lb)
}

/// Whether `p` is a prefix of `s` starting at position `at`.
pub fn matches_at(s: &Vec<char>, p: &Vec<char>, at: usize) -> (r: bool)
    requires
        at <= s@.len(),
    ensures
        r == occurs_at(s@, p@, at as int),
{
    if p.len() > s.len() - at {
        return false;
    }
    let mut i: usize = 0;
    while i < p.len()
        invariant
            at + p@.len() <= s@.len(),
            s@.len() == s.len(),
            i <= p@.len(),
            forall|j: int| 0 <= j < i ==> s@[at + j] == p@[j],
        decreases p@.len() - i,
    {
        if s[at + i] != p[i] {
            assert(s@.subrange(at as int, at + p@.len())[i as int] != p@[i as int]);
            return false;
        }
        i += 1;
    }
    assert(s@.subrange(at as int, at + p@.len()) =~= p@);
    true
}

/// Whether `p` is a prefix of `s`.
pub fn has_prefix(s: &Vec<char>, p: &Vec<char>) -> (r: bool)
    ensures
        r == starts_with(s@, p@),
{
    let r = matches_at(s, p, 0);
    proof {
        if p@.len() <= s@.len() {
            assert(s@.subrange(0, p@.len() as int) =~= s@.take(p@.len() as int));
        }
    }
    r
}

/// The first position where `p` occurs in `s`.
pub fn find_chars(s: &Vec<char>, p: &Vec<char>) -> (r: Option<usize>)
    ensures
        match r {
            Some(i) => find(s@, p@) == Some(i as int) && occurs_at(s@, p@, i as int),
            None => find(s@, p@) is None,
        },
{
    if p.len() > s.len() {
        return None;
    }
    let last = s.len() - p.len();
    let mut i: usize = 0;
    while i <= last
        invariant
            last + p@.len() == s@.len(),
            i <= last + 1,
            find(s@, p@) == find_from(s@, p@, i as int),
        decreases last + 1 - i,
    {
        if matches_at(s, p, i) {
            return Some(i);
        }
        if i == last {
            assert(find_from(s@, p@, i + 1) is None);
            return None;
        }
        i += 1;
    }
    None
}

/// `s` without its leading whitespace.
pub fn trim_start_chars(s: &Vec<char>) -> (r: Vec<char>)
    ensures
        r@ == trim_start(s@),
{
    let mut i: usize = 0;
    while i < s.len() && is_whitespace(s[i])
        invariant
            i <= s@.len(),
            forall|j: int| 0 <= j < i ==> is_ws(#[trigger] s@[j]),
        decreases s@.len() - i,
    {
        i += 1;
    }
    proof {
        lemma_trim_start_skip(s@, i as int);
        assert(trim_start(s@.skip(i as int)) == s@.skip(i as int));
        assert(s@.skip(i as int) =~= s@.subrange(i as int, s@.len() as int));
    }
    copy_range(s, i, s.len())
}

/// `s` without its trailing whitespace.
pub fn trim_end_chars(s: &Vec<char>) -> (r: Vec<char>)
    ensures
        r@ == trim_end(s@),
{
    let mut k: usize = s.len();
    while k > 0 && is_whitespace(s[k - 1])
        invariant
            k <= s@.len(),
            forall|j: int| k <= j < s@.len() ==> is_ws(#[trigger] s@[j]),
        decreases k,
    {
        k -= 1;
    }
    proof {
        lemma_trim_end_take(s@, k as int);
        assert(trim_end(s@.take(k as int)) == s@.take(k as int));
        assert(s@.take(k as int) =~= s@.subrange(0, k as int));
    }
    copy_range(s, 0, k)
}

/// `s` without leading and trailing whitespace.
pub fn trim_chars(s: &Vec<char>) -> (r: Vec<char>)
    ensures
        r@ == trim(s@),
{
    let t = trim_start_chars(s);
    trim_end_chars(&t)
}

/// The pieces of `s` between occurrences of `sep`.
pub fn split_chars(s: &Vec<char>, sep: char) -> (r: Vec<Vec<char>>)
    ensures
        r.deep_view() == split_on(s@, sep),
{
    let mut pieces: Vec<Vec<char>> = Vec::new();
    let mut cur: Vec<char> = Vec::new();
    let mut i: usize = 0;
    while i < s.len()
        invariant
            i <= s@.len(),
            pieces.deep_view().push(cur@) == split_on(s@.take(i as int), sep),
        decreases s@.len() - i,
    {
        let ghost prev = pieces.deep_view().push(cur@);
        assert(s@.take(i + 1).drop_last() =~= s@.take(i as int));
        if s[i] == sep {
            pieces.push(cur);
            cur = Vec::new();
            assert(pieces.deep_view().push(cur@) =~= prev.push(Seq::<char>::empty()));
        } else {
            cur.push(s[i]);
            assert(pieces.deep_view().push(cur@) =~= prev.update(
                prev.len() - 1,
                prev.last().push(s@[i as int]),
            ));
        }
        i += 1;
    }
    assert(s@.take(s@.len() as int) =~= s@);
    pieces.push(cur);
    pieces
}

/// The items joined with `sep` between neighbours.
pub fn join_chars(items: &Vec<Vec<char>>, sep: &Vec<char>) -> (r: Vec<char>)
    ensures
        r@ == join(items.deep_view(), sep@),
{
    let mut r: Vec<char> = Vec::new();
    let mut i: usize = 0;
    while i < items.len()
        invariant
            i <= items@.len(),
            r@ == join(items.deep_view().take(i as int), sep@),
        decreases items@.len() - i,
    {
        let ghost before = items.deep_view().take(i as int);
        let ghost after = items.deep_view().take(i + 1);
        assert(after.drop_last() =~= before);
        if i > 0 {
            append_chars(&mut r, sep);
        }
        append_chars(&mut r, &items[i]);
        i += 1;
        assert(r@ =~= join(after, sep@));
    }
    assert(items.deep_view().take(items@.len() as int) =~= items.deep_view());
    r
}

/// Each item trimmed, with the items that are then empty left out.
pub fn trim_and_drop_empty(items: &Vec<Vec<char>>) -> (r: Vec<Vec<char>>)
    ensures
        r.deep_view() == non_empty(trim_all(items.deep_view())),
{
    let mut r: Vec<Vec<char>> = Vec::new();
    let mut i: usize = 0;
    while i < items.len()
        invariant
            i <= items@.len(),
            r.deep_view() == non_empty(trim_all(items.deep_view().take(i as int))),
        decreases items@.len() - i,
    {
        let ghost before = items.deep_view().take(i as int);
        let ghost after = items.deep_view().take(i + 1);
        assert(trim_all(after).drop_last() =~= trim_all(before));
        let t = trim_chars(&items[i]);
        if t.len() > 0 {
            r.push(t);
        }
        i += 1;
        assert(r.deep_view() =~= non_empty(trim_all(after)));
    }
    assert(items.deep_view().take(items@.len() as int) =~= items.deep_view());
    r
}

/// The occurrences of `p` in `s` at or after `i`, found from left to right, each
/// search going on after the previous occurrence; each as (start, end).
pub open spec fn occurrences_from(s: Seq<char>, p: Seq<char>, i: int) -> Seq<(int, int)>
    decreases s.len() + 1 - i,
{
    if p.len() == 0 || i < 0 || i > s.len() {
        seq![]
    } else {
        match find_from(s, p, i) {
            Some(k) => {
                proof {
                    lemma_find_from_some(s, p, i);
                }
                seq![(k, k + p.len())] + occurrences_from(s, p, k + p.len())
            },
            None => seq![],
        }
    }
}

/// The occurrences of a non-empty `needle` in `haystack` (character positions),
/// found from left to right without overlapping.
pub fn find_all(haystack: &Vec<char>, needle: &Vec<char>) -> (r: Vec<(usize, usize)>)
    requires
        needle@.len() > 0,
    ensures
        r@.map_values(|x: (usize, usize)| (x.0 as int, x.1 as int)) == occurrences_from(haystack@, needle@, 0),
{
    let ghost s = haystack@;
    let ghost p = needle@;
    let mut r: Vec<(usize, usize)> = Vec::new();
    let mut i: usize = 0;
    let mut j: usize = 0;
    if needle.len() > haystack.len() {
        assert(find_from(s, p, 0) is None);
        return r;
    }
    let last = haystack.len() - needle.len();
    while j <= last
        invariant
            s == haystack@,
            p == needle@,
            p.len() > 0,
            last + p.len() == s.len(),
            s.len() <= usize::MAX,
            i <= j <= s.len(),
            i <= s.len(),
            find_from(s, p, i as int) == find_from(s, p, j as int),
            r@.map_values(|x: (usize, usize)| (x.0 as int, x.1 as int)) + occurrences_from(s, p, i as int)
                == occurrences_from(s, p, 0),
        decreases s.len() - j,
    {
        if matches_at(haystack, needle, j) {
            let ghost before = r@.map_values(|x: (usize, usize)| (x.0 as int, x.1 as int));
            let end = j + needle.len();
            assert(find_from(s, p, j as int) == Some(j as int));
            assert(occurrences_from(s, p, i as int) == seq![(j as int, end as int)] + occurrences_from(
                s,
                p,
                end as int,
            ));
            r.push((j, end));
            assert(r@.map_values(|x: (usize, usize)| (x.0 as int, x.1 as int)) =~= before.push(
                (j as int, end as int),
            ));
            assert(before.push((j as int, end as int)) + occurrences_from(s, p, end as int) =~= before + (seq![
                (j as int, end as int),
            ] + occurrences_from(s, p, end as int)));
            i = end;
            j = end;
        } else {
            j += 1;
        }
    }
    assert(find_from(s, p, j as int) is None);
    assert(occurrences_from(s, p, i as int) == Seq::<(int, int)>::empty());
    assert(r@.map_values(|x: (usize, usize)| (x.0 as int, x.1 as int)) + Seq::<(int, int)>::empty()
        =~= r@.map_values(|x: (usize, usize)| (x.0 as int, x.1 as int)));
    r
}

/// The number of UTF-8 bytes of the first `k` characters of `s`.
pub open spec fn utf8_prefix_len(s: Seq<char>, k: int) -> int
    decreases k,
{
    if k <= 0 {
        0
    } else {
        utf8_prefix_len(s, k - 1) + utf8_char_len(s[k - 1])
    }
}

/// The number of UTF-8 bytes of a character.
pub open spec fn utf8_char_len(c: char) -> int {
    if (c as u32) < 0x80 {
        1
    } else if (c as u32) < 0x800 {
        2
    } else if (c as u32) < 0x10000 {
        3
    } else {
        4
    }
}

/// The byte position in UTF-8 of character position `k` of `s`.
pub fn byte_offset_of_char(s: &Vec<char>, k: usize) -> (r: usize)
    requires
        k <= s@.len(),
        k <= usize::MAX / 4,
    ensures
        r == utf8_prefix_len(s@, k as int),
{
    let mut r: usize = 0;
    let mut i: usize = 0;
    while i < k
        invariant
            i <= k,
            k <= s@.len(),
            k <= usize::MAX / 4,
            r == utf8_prefix_len(s@, i as int),
            r <= 4 * i,
        decreases k - i,
    {
        let code = s[i] as u32;
        let n: usize = if code < 0x80 {
            1
        } else if code < 0x800 {
            2
        } else if code < 0x10000 {
            3
        } else {
            4
        };
        r = r + n;
        i += 1;
    }
    r
}

} // verus!
