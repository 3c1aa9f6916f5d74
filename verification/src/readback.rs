//! Reading back what the Custom fields wrote: the option string composed from
//! the fields gives the same feature lists and standalone switches when its
//! flags are read back out of a shortcut's arguments, and normalizing a field
//! that is already normalized changes nothing.
use vstd::prelude::*;

use crate::options::{
    after_switch, custom_options, custom_parts, disable_option, disable_switch, enable_option,
    enable_switch, equals_token, is_value_token, separated_value, feature_items, feature_list, feature_list_of_arguments,
    features_from, is_exact_managed, is_inline_managed, is_switch, keep_if_non_empty, standalone,
    standalone_from, standalone_of_arguments, strip_feature_switch, strip_quotes, take_switch,
};
use crate::text::{
    ascii_lower, eq_ignore_case, is_ws, join, lemma_join_concat, lemma_join_ends,
    lemma_non_empty_id, lemma_non_empty_items, lemma_split_join, lemma_split_on_nonempty,
    lemma_split_pieces_free, lemma_trim_all_id, lemma_trim_fixed, lemma_trim_idempotent,
    lemma_trim_end_amount, lemma_trim_of_trim_start, lemma_trim_pad, lemma_trim_shape,
    lemma_trim_start_amount, lemma_trim_start_skip, lower, non_empty, split_on, starts_with, trim,
    trim_all, trim_start, free_of, lemma_join_from, lemma_split_append_free, lemma_split_pieces_from,
    lemma_split_prepend_free,
};
use crate::tokens::{
    closed_token, has_quote, has_ws, is_quote, lemma_closed_token_trimmed, lemma_open_token_trimmed,
    lemma_plain_token_closed, lemma_quote_after_concat, lemma_quote_after_inside,
    lemma_quote_after_plain, lemma_quote_after_prefix, lemma_split_join_open_tokens,
    lemma_split_join_tokens, lemma_split_tokens_open, lemma_tokens_well_formed, open_token,
    quote_after, split_tokens, well_formed_token,
};

verus! {

/// A standalone token that reads back unchanged and is never taken for a
/// managed feature switch: it holds no quote character and does not begin,
/// in any ASCII case, with `--enable-features` or `--disable-features`.
pub open spec fn plain_standalone_token(t: Seq<char>) -> bool {
    &&& !has_quote(t)
    &&& !starts_with(lower(t), enable_switch())
    &&& !starts_with(lower(t), disable_switch())
}

/// `t` holds no double quote.
pub open spec fn no_double_quote(t: Seq<char>) -> bool {
    forall|m: int| 0 <= m < t.len() ==> #[trigger] t[m] != '"'
}

proof fn lemma_lower_concat(a: Seq<char>, b: Seq<char>)
    ensures
        lower(a + b) == lower(a) + lower(b),
{
    assert(lower(a + b) =~= lower(a) + lower(b));
}

proof fn lemma_switches()
    ensures
        lower(enable_switch()) == enable_switch(),
        lower(disable_switch()) == disable_switch(),
        seq!['-', '-'] + lower("enable-features"@) == enable_switch(),
        seq!['-', '-'] + lower("disable-features"@) == disable_switch(),
        enable_switch().len() == 17,
        disable_switch().len() == 18,
        enable_switch()[2] == 'e',
        disable_switch()[2] == 'd',
        enable_switch()[0] == '-',
        disable_switch()[0] == '-',
        forall|m: int| 0 <= m < enable_switch().len() ==> !is_quote(#[trigger] enable_switch()[m]) && !is_ws(enable_switch()[m]),
        forall|m: int| 0 <= m < disable_switch().len() ==> !is_quote(#[trigger] disable_switch()[m]) && !is_ws(disable_switch()[m]),
{
    reveal_strlit("--enable-features");
    reveal_strlit("--disable-features");
    reveal_strlit("enable-features");
    reveal_strlit("disable-features");
    assert(lower(enable_switch()) =~= enable_switch());
    assert(lower(disable_switch()) =~= disable_switch());
    assert(seq!['-', '-'] + lower("enable-features"@) =~= enable_switch());
    assert(seq!['-', '-'] + lower("disable-features"@) =~= disable_switch());
}

/// A normalized feature list is trimmed and normalizes back to itself once
/// any switch and quotes are off.
proof fn lemma_normalized_list(x: Seq<char>)
    ensures
        trim(feature_list(x)) == feature_list(x),
        join(non_empty(trim_all(split_on(feature_list(x), ','))), seq![',']) == feature_list(x),
{
    let n = feature_list(x);
    let items = feature_items(x);
    let pieces = split_on(trim(strip_quotes(trim(strip_feature_switch(x)))), ',');
    lemma_split_pieces_free(trim(strip_quotes(trim(strip_feature_switch(x)))), ',');
    lemma_non_empty_items(trim_all(pieces));
    assert forall|k: int| 0 <= k < items.len() implies #[trigger] items[k].len() > 0 && trim(items[k]) == items[k] && (forall|m: int| 0 <= m < items[k].len() ==> items[k][m] != ',') by {
        let i = choose|i: int| 0 <= i < trim_all(pieces).len() && #[trigger] trim_all(pieces)[i] == items[k];
        assert(trim_all(pieces)[i] == trim(pieces[i]));
        lemma_trim_idempotent(pieces[i]);
        let ab = lemma_trim_shape(pieces[i]);
        assert forall|m: int| 0 <= m < items[k].len() implies items[k][m] != ',' by {
            assert(items[k][m] == pieces[i][ab.0 + m]);
        }
    }
    if items.len() == 0 {
        assert(n == Seq::<char>::empty());
        lemma_trim_fixed(n);
        let e = Seq::<char>::empty();
        assert(split_on(e, ',') == seq![e]);
        assert(trim_all(seq![e]) =~= seq![trim(e)]);
        lemma_trim_fixed(e);
        let one = seq![e];
        assert(one.drop_last() =~= Seq::<Seq<char>>::empty());
        assert(one.last().len() == 0);
        assert(non_empty(one) == non_empty(one.drop_last()));
        assert(non_empty(one.drop_last()) == one.drop_last());
    } else {
        lemma_join_ends(items, seq![',']);
        let ab0 = lemma_trim_shape(items[0]);
        let abl = lemma_trim_shape(items.last());
        assert(!is_ws(n[0]));
        assert(!is_ws(n.last()));
        lemma_trim_fixed(n);
        lemma_split_join(items, ',');
        lemma_trim_all_id(items);
        lemma_non_empty_id(items);
    }
}

/// A normalized feature list in double quotes normalizes to itself.
proof fn lemma_feature_list_quoted(x: Seq<char>)
    requires
        no_double_quote(feature_list(x)),
    ensures
        feature_list(seq!['"'] + feature_list(x) + seq!['"']) == feature_list(x),
{
    let n = feature_list(x);
    lemma_normalized_list(x);
    let q = seq!['"'] + n + seq!['"'];
    assert(q[0] == '"');
    assert(q.last() == '"');
    lemma_trim_fixed(q);
    lemma_switches();
    assert(after_switch(q, enable_switch()) is None) by {
        if q.len() >= 17 {
            assert(lower(q.take(17))[0] == '"');
            assert(lower(enable_switch())[0] == '-');
        }
    }
    assert(after_switch(q, disable_switch()) is None) by {
        if q.len() >= 18 {
            assert(lower(q.take(18))[0] == '"');
            assert(lower(disable_switch())[0] == '-');
        }
    }
    assert(strip_feature_switch(q) == q);
    assert(strip_quotes(q) =~= n);
}

/// Normalizing a normalized feature list changes nothing, unless the list
/// begins with a managed feature switch and `=`, or is wrapped in matching
/// quotes; normalizing then drops those and gives a shorter list.
pub proof fn law_feature_list_idempotent(x: Seq<char>)
    requires
        after_switch(feature_list(x), enable_switch()) is None,
        after_switch(feature_list(x), disable_switch()) is None,
        strip_quotes(feature_list(x)) == feature_list(x),
    ensures
        feature_list(feature_list(x)) == feature_list(x),
{
    lemma_normalized_list(x);
}

/// A managed option token `<sw>="<list>"` is closed.
proof fn lemma_option_closed(sw: Seq<char>, n: Seq<char>)
    requires
        forall|m: int| 0 <= m < sw.len() ==> !is_quote(#[trigger] sw[m]) && !is_ws(sw[m]),
        no_double_quote(n),
    ensures
        closed_token(sw + seq!['=', '"'] + n + seq!['"']),
{
    let plain = sw + seq!['='];
    let head = plain + seq!['"'];
    let body = head + n;
    let t = body + seq!['"'];
    assert(sw + seq!['=', '"'] + n + seq!['"'] =~= t);
    assert forall|m: int| 0 <= m < plain.len() implies !is_quote(#[trigger] plain[m]) && !is_ws(plain[m]) by {
        if m < sw.len() {
            assert(plain[m] == sw[m]);
        }
    }
    assert(quote_after(plain, plain.len() as int, None) is None) by {
        lemma_quote_after_plain(plain, plain.len() as int);
    }
    assert(quote_after(head, head.len() as int, None) == Some('"')) by {
        lemma_quote_after_prefix(plain, seq!['"'], plain.len() as int, None);
        assert(head[head.len() - 1] == '"');
    }
    assert forall|k: int| 0 <= k < t.len() && quote_after(t, k, None) is None implies !is_ws(#[trigger] t[k]) by {
        if k < plain.len() {
            assert(t[k] == plain[k]);
        } else if k == plain.len() {
            assert(t[k] == '"');
        } else {
            let j = k - head.len();
            lemma_quote_after_prefix(body, seq!['"'], k, None);
            lemma_quote_after_concat(head, n, j, None);
            lemma_quote_after_inside(n, j, '"');
        }
    }
    lemma_quote_after_prefix(body, seq!['"'], body.len() as int, None);
    lemma_quote_after_concat(head, n, n.len() as int, None);
    lemma_quote_after_inside(n, n.len() as int, '"');
    assert(quote_after(t, t.len() as int, None) is None);
}

/// Tokens that are not given to the switch `needle` add no feature list.
proof fn lemma_features_skip(ts: Seq<Seq<char>>, needle: Seq<char>, i: int, j: int)
    requires
        0 <= i <= j <= ts.len(),
        forall|k: int| i <= k < j ==> !starts_with(lower(#[trigger] ts[k]), needle),
    ensures
        features_from(ts, needle, i) == features_from(ts, needle, j),
    decreases j - i,
{
    if i < j {
        lemma_features_skip(ts, needle, i + 1, j);
        assert(!starts_with(lower(ts[i]), needle));
        if lower(ts[i]) == needle {
            assert(lower(ts[i]).take(needle.len() as int) =~= needle);
        }
    }
}

/// `<sw>="<list>"` is given to the switch `sw` and reads back as the list.
proof fn lemma_option_token_reads(ts: Seq<Seq<char>>, i: int, sw: Seq<char>, x: Seq<char>)
    requires
        0 <= i < ts.len(),
        sw == enable_switch() || sw == disable_switch(),
        ts[i] == sw + seq!['=', '"'] + feature_list(x) + seq!['"'],
        feature_list(x).len() > 0,
        no_double_quote(feature_list(x)),
    ensures
        features_from(ts, sw, i) == seq![feature_list(x)] + features_from(ts, sw, i + 1),
{
    lemma_switches();
    let n = feature_list(x);
    let t = ts[i];
    let tail = seq!['=', '"'] + n + seq!['"'];
    assert(t =~= sw + tail);
    lemma_lower_concat(sw, tail);
    let l = lower(t);
    assert(l.take(sw.len() as int) =~= sw);
    assert(starts_with(l, sw));
    assert(l != sw) by {
        assert(l.len() > sw.len());
    }
    let rest = t.skip(sw.len() as int);
    assert(rest =~= tail);
    assert(starts_with(rest, equals_token())) by {
        assert(rest.take(1) =~= equals_token());
    }
    assert(rest.drop_first() =~= seq!['"'] + n + seq!['"']);
    lemma_feature_list_quoted(x);
    assert(keep_if_non_empty(n) == seq![n]);
}

/// A managed option token for the other switch is not given to `sw`.
proof fn lemma_other_option_not_given(t: Seq<char>, sw: Seq<char>, other: Seq<char>, n: Seq<char>)
    requires
        (sw == enable_switch() && other == disable_switch()) || (sw == disable_switch() && other
            == enable_switch()),
        t == other + seq!['=', '"'] + n + seq!['"'],
    ensures
        !starts_with(lower(t), sw),
{
    lemma_switches();
    let tail = seq!['=', '"'] + n + seq!['"'];
    assert(t =~= other + tail);
    lemma_lower_concat(other, tail);
    let l = lower(t);
    assert(l[2] == other[2]);
    if starts_with(l, sw) {
        assert(l.take(sw.len() as int)[2] == sw[2]);
    }
}

/// What the composed option string is made of: the standalone tokens, then the
/// enable option and the disable option when their lists are not empty.
spec fn composed_tokens(s: Seq<char>, e: Seq<char>, d: Seq<char>) -> Seq<Seq<char>> {
    let en: Seq<Seq<char>> = if feature_list(e).len() > 0 {
        seq![enable_option(feature_list(e))]
    } else {
        seq![]
    };
    let dn: Seq<Seq<char>> = if feature_list(d).len() > 0 {
        seq![disable_option(feature_list(d))]
    } else {
        seq![]
    };
    split_tokens(s) + en + dn
}

/// Under the law's conditions, the composed option string is its tokens joined
/// by spaces, and each of them is closed.
proof fn lemma_composed(s: Seq<char>, e: Seq<char>, d: Seq<char>)
    requires
        forall|k: int| 0 <= k < split_tokens(s).len() ==> plain_standalone_token(#[trigger] split_tokens(s)[k]),
        no_double_quote(feature_list(e)),
        no_double_quote(feature_list(d)),
    ensures
        custom_options(s, e, d) == join(composed_tokens(s, e, d), seq![' ']),
        standalone(s) == join(split_tokens(s), seq![' ']),
        forall|k: int| 0 <= k < composed_tokens(s, e, d).len() ==> closed_token(#[trigger] composed_tokens(s, e, d)[k]),
{
    let ts = split_tokens(s);
    let sep = seq![' '];
    lemma_tokens_well_formed(s);
    lemma_switches();
    assert forall|k: int| 0 <= k < ts.len() implies trim(#[trigger] ts[k]) == ts[k] && ts[k].len() > 0 && closed_token(ts[k]) by {
        let t = ts[k];
        assert(well_formed_token(t));
        assert(plain_standalone_token(t));
        assert(!has_ws(t));
        assert forall|m: int| 0 <= m < t.len() implies !is_quote(#[trigger] t[m]) && !is_ws(t[m]) by {
            if is_quote(t[m]) {
                assert(has_quote(t));
            }
            if is_ws(t[m]) {
                assert(has_ws(t));
            }
        }
        lemma_trim_fixed(t);
        lemma_plain_token_closed(t);
    }
    lemma_trim_all_id(ts);
    lemma_non_empty_id(ts);
    assert(standalone(s) == join(ts, sep));
    let n = feature_list(e);
    let m = feature_list(d);
    let en: Seq<Seq<char>> = if n.len() > 0 { seq![enable_option(n)] } else { seq![] };
    let dn: Seq<Seq<char>> = if m.len() > 0 { seq![disable_option(m)] } else { seq![] };
    let y = en + dn;
    let all = ts + en + dn;
    assert(all == composed_tokens(s, e, d));
    let parts = custom_parts(standalone(s), n, m);
    if ts.len() == 0 {
        assert(join(ts, sep) == Seq::<char>::empty());
        assert(parts =~= y);
        assert(all =~= y);
    } else {
        lemma_join_ends(ts, sep);
        let jt = join(ts, sep);
        assert(parts =~= seq![jt] + y);
        if y.len() == 0 {
            assert(parts =~= seq![jt]);
            assert(all =~= ts);
        } else {
            lemma_join_concat(seq![jt], y, sep);
            lemma_join_concat(ts, y, sep);
            assert(all =~= ts + y);
        }
    }
    if n.len() > 0 {
        lemma_option_closed(enable_switch(), n);
    }
    if m.len() > 0 {
        lemma_option_closed(disable_switch(), m);
    }
    assert forall|k: int| 0 <= k < all.len() implies closed_token(#[trigger] all[k]) by {
        if k < ts.len() {
            assert(all[k] == ts[k]);
        } else if k < ts.len() + en.len() {
            assert(all[k] == en[k - ts.len()]);
        } else {
            assert(all[k] == dn[k - ts.len() - en.len()]);
        }
    }
}

/// Reading the enable and disable lists back out of the option string that the
/// Custom fields compose gives the normalized lists that went in. This holds
/// when the standalone field's tokens hold no quote characters and none of them
/// begins with a managed feature switch, and when neither normalized list holds
/// a double quote.
pub proof fn law_custom_options_read_back(s: Seq<char>, e: Seq<char>, d: Seq<char>)
    requires
        forall|k: int| 0 <= k < split_tokens(s).len() ==> plain_standalone_token(#[trigger] split_tokens(s)[k]),
        no_double_quote(feature_list(e)),
        no_double_quote(feature_list(d)),
    ensures
        feature_list_of_arguments(custom_options(s, e, d), "enable-features"@) == feature_list(e),
        feature_list_of_arguments(custom_options(s, e, d), "disable-features"@) == feature_list(d),
{
    lemma_switches();
    lemma_composed(s, e, d);
    let all = composed_tokens(s, e, d);
    lemma_split_join_tokens(all);
    let ts = split_tokens(s);
    let n = feature_list(e);
    let m = feature_list(d);
    let en: Seq<Seq<char>> = if n.len() > 0 { seq![enable_option(n)] } else { seq![] };
    let b = ts.len() as int;
    let c = b + en.len();
    let sep = seq![','];
    assert forall|k: int| 0 <= k < b implies !starts_with(lower(#[trigger] all[k]), enable_switch()) && !starts_with(lower(all[k]), disable_switch()) by {
        assert(all[k] == ts[k]);
        assert(plain_standalone_token(ts[k]));
    }
    // The enable list.
    lemma_features_skip(all, enable_switch(), 0, b);
    if n.len() > 0 {
        assert(all[b] == enable_option(n));
        lemma_option_token_reads(all, b, enable_switch(), e);
    }
    if m.len() > 0 {
        assert(all[c] == disable_option(m));
        lemma_other_option_not_given(all[c], enable_switch(), disable_switch(), m);
        lemma_features_skip(all, enable_switch(), c, c + 1);
    }
    assert(features_from(all, enable_switch(), all.len() as int) == Seq::<Seq<char>>::empty());
    if n.len() > 0 {
        assert(features_from(all, enable_switch(), 0) =~= seq![n]);
    } else {
        assert(features_from(all, enable_switch(), 0) =~= Seq::<Seq<char>>::empty());
        assert(n =~= Seq::<char>::empty());
    }
    // The disable list.
    lemma_features_skip(all, disable_switch(), 0, b);
    if n.len() > 0 {
        lemma_other_option_not_given(all[b], disable_switch(), enable_switch(), n);
        lemma_features_skip(all, disable_switch(), b, b + 1);
    }
    if m.len() > 0 {
        lemma_option_token_reads(all, c, disable_switch(), d);
    }
    assert(features_from(all, disable_switch(), all.len() as int) == Seq::<Seq<char>>::empty());
    if m.len() > 0 {
        assert(features_from(all, disable_switch(), 0) =~= seq![m]);
    } else {
        assert(features_from(all, disable_switch(), 0) =~= Seq::<Seq<char>>::empty());
        assert(m =~= Seq::<char>::empty());
    }
}

/// A standalone field whose tokens read back exactly: each is plain, none is a
/// lone `=`, and each token that is not a switch directly follows a switch.
pub open spec fn switch_value_tokens(ts: Seq<Seq<char>>) -> bool {
    forall|k: int|
        0 <= k < ts.len() ==> {
            &&& plain_standalone_token(#[trigger] ts[k])
            &&& ts[k] != equals_token()
            &&& !is_switch(ts[k]) ==> k > 0 && is_switch(ts[k - 1])
        }
}

/// A plain standalone token is neither kind of managed feature switch.
proof fn lemma_plain_not_managed(t: Seq<char>)
    requires
        plain_standalone_token(t),
    ensures
        !is_inline_managed(t),
        !is_exact_managed(t),
{
    lemma_switches();
    if eq_ignore_case(t, enable_switch()) {
        assert(lower(t).take(17) =~= enable_switch());
    }
    if eq_ignore_case(t, disable_switch()) {
        assert(lower(t).take(18) =~= disable_switch());
    }
}

/// A managed option token is a managed switch with its value inline.
proof fn lemma_option_inline_managed(sw: Seq<char>, n: Seq<char>)
    requires
        sw == enable_switch() || sw == disable_switch(),
    ensures
        is_inline_managed(sw + seq!['=', '"'] + n + seq!['"']),
        is_switch(sw + seq!['=', '"'] + n + seq!['"']),
        sw + seq!['=', '"'] + n + seq!['"'] != equals_token(),
{
    lemma_switches();
    let tail = seq!['=', '"'] + n + seq!['"'];
    let t = sw + tail;
    assert(sw + seq!['=', '"'] + n + seq!['"'] =~= t);
    lemma_lower_concat(sw, tail);
    let l = lower(t);
    assert(l.take(sw.len() as int) =~= sw);
    assert(l[sw.len() as int] == ascii_lower('='));
    assert(t.take(2) =~= seq!['-', '-']) by {
        assert(t[0] == '-');
        assert(t[1] == sw[1]);
        reveal_strlit("--enable-features");
        reveal_strlit("--disable-features");
    }
    assert(t.len() > 1);
}

/// After the standalone tokens, nothing more is kept.
proof fn lemma_standalone_tail(all: Seq<Seq<char>>, i: int)
    requires
        0 <= i <= all.len(),
        forall|k: int| i <= k < all.len() ==> is_inline_managed(#[trigger] all[k]),
    ensures
        standalone_from(all, i) == Seq::<Seq<char>>::empty(),
    decreases all.len() - i,
{
    if i < all.len() {
        lemma_standalone_tail(all, i + 1);
    }
}

/// Walking the standalone tokens from a switch keeps every token up to the end
/// of the standalone tokens.
proof fn lemma_standalone_walk(all: Seq<Seq<char>>, b: int, i: int)
    requires
        0 <= i <= b <= all.len(),
        switch_value_tokens(all.take(b)),
        forall|k: int| b <= k < all.len() ==> is_switch(#[trigger] all[k]) && all[k] != equals_token(),
        i == b || is_switch(all[i]),
    ensures
        standalone_from(all, i) == all.subrange(i, b) + standalone_from(all, b),
    decreases b - i,
{
    let ts = all.take(b);
    if i == b {
        assert(all.subrange(i, b) =~= Seq::<Seq<char>>::empty());
        assert(Seq::<Seq<char>>::empty() + standalone_from(all, b) =~= standalone_from(all, b));
    } else {
        assert(ts[i] == all[i]);
        lemma_plain_not_managed(all[i]);
        let next = i + 1;
        if next >= all.len() {
            assert(b == all.len());
            assert(take_switch(all, i) == (seq![all[i]], next));
        } else if next < b {
            assert(ts[next] == all[next]);
            assert(all[next] != equals_token());
            if is_switch(all[next]) {
                assert(!starts_with(all[next], equals_token())) by {
                    if starts_with(all[next], equals_token()) {
                        assert(all[next].take(1)[0] == '=');
                        assert(all[next].take(2)[0] == '-');
                    }
                }
                lemma_standalone_walk(all, b, next);
                assert(all.subrange(i, b) =~= seq![all[i]] + all.subrange(next, b));
            } else {
                if next + 1 < b {
                    assert(ts[next + 1] == all[next + 1]);
                    if !is_switch(all[next + 1]) {
                        assert(is_switch(ts[next]));
                    }
                }
                lemma_standalone_walk(all, b, next + 1);
                assert(all.subrange(i, b) =~= seq![all[i], all[next]] + all.subrange(next + 1, b));
            }
        } else {
            assert(next == b);
            assert(is_switch(all[next]) && all[next] != equals_token());
            assert(!starts_with(all[next], equals_token())) by {
                if starts_with(all[next], equals_token()) {
                    assert(all[next].take(1)[0] == '=');
                    assert(all[next].take(2)[0] == '-');
                }
            }
            assert(all.subrange(i, b) =~= seq![all[i]]);
        }
    }
}

/// Reading the standalone switches back out of the option string that the
/// Custom fields compose gives the normalized standalone field. This holds when
/// each standalone token is plain (as for the feature lists), none is a lone
/// `=`, each token that is not a switch directly follows a switch, and neither
/// normalized feature list holds a double quote.
pub proof fn law_custom_standalone_read_back(s: Seq<char>, e: Seq<char>, d: Seq<char>)
    requires
        switch_value_tokens(split_tokens(s)),
        no_double_quote(feature_list(e)),
        no_double_quote(feature_list(d)),
    ensures
        standalone_of_arguments(custom_options(s, e, d)) == standalone(s),
{
    let ts = split_tokens(s);
    assert forall|k: int| 0 <= k < ts.len() implies plain_standalone_token(#[trigger] ts[k]) by {
        assert(switch_value_tokens(ts));
    }
    lemma_composed(s, e, d);
    let all = composed_tokens(s, e, d);
    lemma_split_join_tokens(all);
    let b = ts.len() as int;
    let n = feature_list(e);
    let m = feature_list(d);
    if n.len() > 0 {
        lemma_option_inline_managed(enable_switch(), n);
    }
    if m.len() > 0 {
        lemma_option_inline_managed(disable_switch(), m);
    }
    assert(all.take(b) =~= ts);
    assert forall|k: int| b <= k < all.len() implies is_switch(#[trigger] all[k]) && all[k] != equals_token()
        && is_inline_managed(all[k]) by {
        let en: Seq<Seq<char>> = if n.len() > 0 { seq![enable_option(n)] } else { seq![] };
        if k < b + en.len() {
            assert(all[k] == enable_option(n));
        } else {
            assert(all[k] == disable_option(m));
        }
    }
    lemma_standalone_tail(all, b);
    if b > 0 {
        assert(is_switch(ts[0])) by {
            assert(switch_value_tokens(ts));
        }
    }
    lemma_standalone_walk(all, b, 0);
    assert(all.subrange(0, b) =~= ts);
    assert(standalone_from(all, 0) =~= ts);
}

/// Normalizing the Standalone field again changes nothing: the normalized text
/// is trimmed, and it splits back into the input's tokens, each trimmed
/// (whitespace inside quotes kept, runs of separating whitespace now one space).
pub proof fn law_standalone_idempotent(x: Seq<char>)
    ensures
        standalone(standalone(x)) == standalone(x),
        split_tokens(standalone(x)) == trim_all(split_tokens(x)),
        trim(standalone(x)) == standalone(x),
{
    let ts = split_tokens(x);
    lemma_split_tokens_open(x);
    let a = trim_all(ts);
    assert forall|k: int| 0 <= k < a.len() implies #[trigger] a[k].len() > 0 && trim(a[k]) == a[k] && (k
        < a.len() - 1 ==> closed_token(a[k])) && (k == a.len() - 1 ==> open_token(a[k])) by {
        assert(open_token(ts[k]));
        lemma_open_token_trimmed(ts[k]);
        lemma_trim_idempotent(ts[k]);
        if k < a.len() - 1 {
            assert(closed_token(ts[k]));
            lemma_closed_token_trimmed(ts[k]);
        }
    }
    lemma_non_empty_id(a);
    assert(standalone(x) == join(a, seq![' ']));
    if a.len() > 0 {
        assert(open_token(a[a.len() - 1]));
    }
    lemma_split_join_open_tokens(a);
    lemma_trim_all_id(a);
    if a.len() > 0 {
        lemma_join_ends(a, seq![' ']);
        assert(trim(a[0]) == a[0]);
        assert(trim(a.last()) == a.last());
        lemma_trim_shape(a[0]);
        lemma_trim_shape(a.last());
    }
    lemma_trim_fixed(join(a, seq![' ']));
}

/// Text without `=` and without quote characters.
pub open spec fn plain_text(t: Seq<char>) -> bool {
    forall|k: int| 0 <= k < t.len() ==> #[trigger] t[k] != '=' && !is_quote(t[k])
}

/// Text made only of whitespace.
pub open spec fn all_ws(t: Seq<char>) -> bool {
    forall|k: int| 0 <= k < t.len() ==> is_ws(#[trigger] t[k])
}

/// Plain text has no switch or quotes to strip: what is split is the text
/// trimmed.
proof fn lemma_plain_stripped(x: Seq<char>)
    requires
        plain_text(x),
    ensures
        trim(strip_quotes(trim(strip_feature_switch(x)))) == trim(x),
{
    let t = trim(x);
    let ab = lemma_trim_shape(x);
    assert forall|k: int| 0 <= k < t.len() implies #[trigger] t[k] != '=' && !is_quote(t[k]) by {
        assert(t[k] == x[ab.0 + k]);
    }
    assert forall|sw: Seq<char>| #[trigger] after_switch(t, sw) is Some implies false by {
        let u = t.skip(sw.len() as int);
        let i = lemma_trim_start_amount(u);
        assert(trim_start(u)[0] == t[sw.len() + i]);
    }
    assert(after_switch(t, enable_switch()) is None);
    assert(after_switch(t, disable_switch()) is None);
    lemma_trim_idempotent(x);
    if t.len() >= 2 {
        assert(!is_quote(t[0]));
    }
    assert(strip_quotes(t) == t);
}

/// The value of a managed switch, given as `<switch><ws>=<ws><body>`, trims to
/// the body trimmed.
proof fn lemma_switch_value(sw: Seq<char>, target: Seq<char>, ws1: Seq<char>, ws2: Seq<char>, body: Seq<char>)
    requires
        target == enable_switch() || target == disable_switch(),
        lower(sw) == target,
        all_ws(ws1),
        all_ws(ws2),
    ensures
        ({
            let text = sw + ws1 + seq!['='] + ws2 + body;
            &&& after_switch(trim(text), target) is Some
            &&& trim(after_switch(trim(text), target)->0) == trim(body)
            &&& trim(text).take(sw.len() as int) == sw
        }),
{
    lemma_switches();
    let text = sw + ws1 + seq!['='] + ws2 + body;
    let l = sw.len() as int;
    let e = l + ws1.len();
    assert(lower(sw)[0] == '-');
    assert(!is_ws(text[0]));
    assert(trim_start(text) == text);
    let j = lemma_trim_end_amount(text);
    let t = text.take(j);
    assert(trim(text) == t);
    assert(text[e] == '=');
    if j <= e {
        assert(is_ws(text[e]));
    }
    assert(t.take(l) =~= sw);
    assert(eq_ignore_case(t.take(target.len() as int), target));
    let u = t.skip(l);
    assert(u =~= (ws1 + seq!['='] + ws2 + body).take(j - l));
    assert forall|k: int| 0 <= k < ws1.len() implies is_ws(#[trigger] u[k]) by {
        assert(u[k] == ws1[k]);
    }
    lemma_trim_start_skip(u, ws1.len() as int);
    let w = u.skip(ws1.len() as int);
    assert(w[0] == '=');
    assert(trim_start(w) == w);
    let y = ws2 + body;
    let n = j - e - 1;
    assert(w.drop_first() =~= y.take(n));
    let v = trim_start(y.take(n));
    assert(after_switch(t, target) == Some(v));
    lemma_trim_of_trim_start(y.take(n));
    assert forall|k: int| 0 <= k < y.skip(n).len() implies is_ws(#[trigger] y.skip(n)[k]) by {
        assert(y.skip(n)[k] == text[j + k]);
    }
    lemma_trim_pad(Seq::<char>::empty(), y.take(n), y.skip(n));
    assert(Seq::<char>::empty() + y.take(n) + y.skip(n) =~= y);
    lemma_trim_pad(ws2, body, Seq::<char>::empty());
    assert(ws2 + body + Seq::<char>::empty() =~= y);
}

/// A feature list given as the value of `--enable-features` or
/// `--disable-features` (in any ASCII case, with whitespace around `=`, in
/// double quotes or not) normalizes to the same list as the list alone.
pub proof fn law_feature_list_switch_prefix(
    sw: Seq<char>,
    ws1: Seq<char>,
    ws2: Seq<char>,
    list: Seq<char>,
    quoted: bool,
)
    requires
        lower(sw) == enable_switch() || lower(sw) == disable_switch(),
        all_ws(ws1),
        all_ws(ws2),
        plain_text(list),
    ensures
        feature_list(
            sw + ws1 + seq!['='] + ws2 + (if quoted {
                seq!['"'] + list + seq!['"']
            } else {
                list
            }),
        ) == feature_list(list),
{
    lemma_switches();
    let body = if quoted {
        seq!['"'] + list + seq!['"']
    } else {
        list
    };
    let text = sw + ws1 + seq!['='] + ws2 + body;
    if lower(sw) == enable_switch() {
        lemma_switch_value(sw, enable_switch(), ws1, ws2, body);
    } else {
        lemma_switch_value(sw, disable_switch(), ws1, ws2, body);
        let t = trim(text);
        assert(after_switch(t, enable_switch()) is None) by {
            assert(t.take(18) == sw);
            assert(lower(t.take(17))[2] == lower(sw)[2]);
        }
    }
    let v = strip_feature_switch(text);
    assert(trim(v) == trim(body));
    if quoted {
        assert(body[0] == '"' && body.last() == '"');
        lemma_trim_fixed(body);
        assert(strip_quotes(body) =~= list);
    } else {
        lemma_plain_stripped(list);
        let tl = trim(list);
        let ab = lemma_trim_shape(list);
        if tl.len() >= 2 {
            assert(tl[0] == list[ab.0]);
        }
        assert(strip_quotes(tl) == tl);
        lemma_trim_idempotent(list);
    }
    lemma_plain_stripped(list);
    assert(feature_items(text) == feature_items(list));
}

/// The feature list of plain text: its comma-separated pieces, trimmed, without
/// the empty ones, joined by commas.
proof fn lemma_plain_feature_list_form(text: Seq<char>)
    requires
        plain_text(text),
    ensures
        feature_list(text) == join(non_empty(trim_all(split_on(text, ','))), seq![',']),
{
    lemma_plain_stripped(text);
    let i = lemma_trim_start_amount(text);
    let rest = text.skip(i);
    let j = lemma_trim_end_amount(rest);
    let pre = text.take(i);
    let m = rest.take(j);
    let suf = rest.skip(j);
    assert(trim(text) == m);
    assert(text =~= pre + m + suf);
    assert forall|k: int| 0 <= k < pre.len() implies #[trigger] pre[k] != ',' && is_ws(pre[k]) by {
        assert(pre[k] == text[k]);
    }
    assert forall|k: int| 0 <= k < suf.len() implies #[trigger] suf[k] != ',' && is_ws(suf[k]) by {
        assert(suf[k] == rest[j + k]);
    }
    lemma_split_prepend_free(pre, m, ',');
    lemma_split_append_free(pre + m, suf, ',');
    lemma_split_on_nonempty(m, ',');
    let sp = split_on(m, ',');
    let sp1 = split_on(pre + m, ',');
    let full = split_on(text, ',');
    assert(full == sp1.update(sp1.len() - 1, sp1.last() + suf));
    assert(sp1 == sp.update(0, pre + sp[0]));
    let e = Seq::<char>::empty();
    assert forall|k: int| 0 <= k < full.len() implies #[trigger] trim_all(full)[k] == trim_all(sp)[k] by {
        let p: Seq<char> = if k == 0 {
            pre
        } else {
            e
        };
        let q: Seq<char> = if k == full.len() - 1 {
            suf
        } else {
            e
        };
        assert(full[k] =~= p + sp[k] + q);
        lemma_trim_pad(p, sp[k], q);
    }
    assert(trim_all(full) =~= trim_all(sp));
}

/// Plain text is free of `=` and of both quote characters.
proof fn lemma_plain_text_free(t: Seq<char>)
    ensures
        plain_text(t) == (free_of(t, '=') && free_of(t, '"') && free_of(t, '\'')),
{
    if free_of(t, '=') && free_of(t, '"') && free_of(t, '\'') {
        assert forall|k: int| 0 <= k < t.len() implies #[trigger] t[k] != '=' && !is_quote(t[k]) by {
            assert(t[k] != '=' && t[k] != '"' && t[k] != '\'');
        }
    }
}

/// The feature list of text free of `d` is free of `d` too (when the comma is
/// not `d`).
proof fn lemma_feature_list_free(text: Seq<char>, d: char)
    requires
        plain_text(text),
        free_of(text, d),
        d != ',',
    ensures
        free_of(feature_list(text), d),
{
    lemma_plain_stripped(text);
    let m = trim(text);
    let ab = lemma_trim_shape(text);
    assert forall|k: int| 0 <= k < m.len() implies #[trigger] m[k] != d by {
        assert(m[k] == text[ab.0 + k]);
    }
    lemma_split_pieces_from(m, ',', d);
    let pieces = trim_all(split_on(m, ','));
    assert forall|k: int| 0 <= k < pieces.len() implies free_of(#[trigger] pieces[k], d) by {
        let piece = split_on(m, ',')[k];
        assert(free_of(piece, d));
        let cd = lemma_trim_shape(piece);
        assert forall|n: int| 0 <= n < pieces[k].len() implies #[trigger] pieces[k][n] != d by {
            assert(pieces[k][n] == piece[cd.0 + n]);
        }
    }
    let items = non_empty(pieces);
    lemma_non_empty_items(pieces);
    assert forall|k: int| 0 <= k < items.len() implies free_of(#[trigger] items[k], d) by {
        let i = choose|i: int| 0 <= i < pieces.len() && pieces[i] == items[k];
        assert(free_of(pieces[i], d));
    }
    assert(seq![','][0] == ',');
    lemma_join_from(items, seq![','], d);
}

/// A feature list given as plain text (no `=`, no quotes) normalizes to its
/// comma-separated names, trimmed, without the empty ones, joined by commas;
/// normalizing that again changes nothing.
pub proof fn law_plain_feature_list(text: Seq<char>)
    requires
        plain_text(text),
    ensures
        feature_list(text) == join(non_empty(trim_all(split_on(text, ','))), seq![',']),
        feature_list(feature_list(text)) == feature_list(text),
{
    lemma_plain_feature_list_form(text);
    lemma_plain_text_free(text);
    lemma_feature_list_free(text, '=');
    lemma_feature_list_free(text, '"');
    lemma_feature_list_free(text, '\'');
    let fl = feature_list(text);
    lemma_plain_text_free(fl);
    lemma_plain_feature_list_form(fl);
    lemma_normalized_list(text);
}

proof fn lemma_join_two(a: Seq<char>, b: Seq<char>)
    ensures
        join(seq![a, b], seq![' ']) == a + seq![' '] + b,
{
    let ts = seq![a, b];
    assert(ts.drop_last() =~= seq![a]);
    assert(join(seq![a], seq![' ']) == a);
}

proof fn lemma_join_three(a: Seq<char>, b: Seq<char>, c: Seq<char>)
    ensures
        join(seq![a, b, c], seq![' ']) == a + seq![' '] + b + seq![' '] + c,
{
    let ts = seq![a, b, c];
    assert(ts.drop_last() =~= seq![a, b]);
    lemma_join_two(a, b);
}

/// A switch followed by a value given as a separate token reads back that
/// value, normalized, whatever the value's first character is (a quote
/// included), unless the value begins with `=` or is itself a switch.
pub proof fn law_separated_feature_value(name: Seq<char>, value: Seq<char>)
    requires
        forall|k: int| 0 <= k < name.len() ==> !is_quote(#[trigger] name[k]) && !is_ws(name[k]),
        closed_token(value),
        value[0] != '=',
        !starts_with(value, seq!['-', '-']),
    ensures
        feature_list_of_arguments(seq!['-', '-'] + name + seq![' '] + value, name) == feature_list(value),
{
    let t0 = seq!['-', '-'] + name;
    assert forall|k: int| 0 <= k < t0.len() implies !is_quote(#[trigger] t0[k]) && !is_ws(t0[k]) by {
        if k >= 2 {
            assert(t0[k] == name[k - 2]);
        }
    }
    lemma_plain_token_closed(t0);
    let ts = seq![t0, value];
    lemma_join_two(t0, value);
    lemma_split_join_tokens(ts);
    assert(seq!['-', '-'] + name + seq![' '] + value =~= t0 + seq![' '] + value);
    let needle = seq!['-', '-'] + lower(name);
    lemma_lower_concat(seq!['-', '-'], name);
    assert(lower(seq!['-', '-']) =~= seq!['-', '-']);
    assert(lower(ts[0]) == needle);
    assert(ts[1] != equals_token()) by {
        if ts[1] == equals_token() {
            assert(value[0] == '=');
        }
    }
    assert(!starts_with(ts[1], equals_token())) by {
        if starts_with(ts[1], equals_token()) {
            assert(value.take(1)[0] == value[0]);
        }
    }
    assert(separated_value(ts, 0) == Some((value, 2int)));
    let fl = feature_list(value);
    assert(features_from(ts, needle, 2) == Seq::<Seq<char>>::empty());
    assert(features_from(ts, needle, 0) == keep_if_non_empty(fl) + Seq::<Seq<char>>::empty());
    if fl.len() > 0 {
        assert(keep_if_non_empty(fl) + Seq::<Seq<char>>::empty() =~= seq![fl]);
    } else {
        assert(keep_if_non_empty(fl) + Seq::<Seq<char>>::empty() =~= Seq::<Seq<char>>::empty());
        assert(fl =~= Seq::<char>::empty());
    }
}

/// A standalone switch keeps the token after it as its value whenever that
/// token begins with `=` or is not itself a switch, whatever quote characters it
/// holds: `--s "x y" --t` reads back as itself.
pub proof fn law_standalone_value_kept(sw: Seq<char>, value: Seq<char>, next: Seq<char>)
    requires
        starts_with(sw, seq!['-', '-']),
        starts_with(next, seq!['-', '-']),
        forall|k: int| 0 <= k < sw.len() ==> !is_quote(#[trigger] sw[k]) && !is_ws(sw[k]),
        forall|k: int| 0 <= k < next.len() ==> !is_quote(#[trigger] next[k]) && !is_ws(next[k]),
        !starts_with(lower(sw), "--enable-features"@),
        !starts_with(lower(sw), "--disable-features"@),
        !starts_with(lower(next), "--enable-features"@),
        !starts_with(lower(next), "--disable-features"@),
        closed_token(value),
        !starts_with(value, seq!['-', '-']),
    ensures
        standalone_of_arguments(sw + seq![' '] + value + seq![' '] + next) == sw + seq![' '] + value + seq![' ']
            + next,
{
    lemma_plain_token_closed(sw);
    lemma_plain_token_closed(next);
    assert(!is_inline_managed(sw) && !is_exact_managed(sw)) by {
        lemma_plain_not_managed(sw);
    }
    assert(!is_inline_managed(next) && !is_exact_managed(next)) by {
        lemma_plain_not_managed(next);
    }
    let ts = seq![sw, value, next];
    lemma_join_three(sw, value, next);
    assert forall|k: int| 0 <= k < ts.len() implies closed_token(#[trigger] ts[k]) by {}
    lemma_split_join_tokens(ts);
    assert(is_switch(sw) && is_switch(next));
    assert(is_switch(value) == false);
    assert(standalone_from(ts, 3) == Seq::<Seq<char>>::empty());
    if value == equals_token() {
        assert(take_switch(ts, 0) == (seq![sw, value, next], 3int));
        assert(standalone_from(ts, 0) =~= ts);
    } else {
        assert(is_value_token(value));
        assert(take_switch(ts, 0) == (seq![sw, value], 2int));
        assert(take_switch(ts, 2) == (seq![next], 3int));
        assert(standalone_from(ts, 2) =~= seq![next]);
        assert(standalone_from(ts, 0) =~= ts);
    }
}

/// Text without quotes or whitespace in front of a closed token leaves it
/// closed.
proof fn lemma_plain_then_closed(p: Seq<char>, v: Seq<char>)
    requires
        forall|k: int| 0 <= k < p.len() ==> !is_quote(#[trigger] p[k]) && !is_ws(p[k]),
        closed_token(v),
    ensures
        closed_token(p + v),
{
    let t = p + v;
    lemma_quote_after_plain(p, p.len() as int);
    assert forall|k: int| 0 <= k < t.len() && quote_after(t, k, None) is None implies !is_ws(#[trigger] t[k]) by {
        if k < p.len() {
            assert(t[k] == p[k]);
        } else {
            lemma_quote_after_concat(p, v, k - p.len(), None);
            assert(t[k] == v[k - p.len()]);
        }
    }
    lemma_quote_after_concat(p, v, v.len() as int, None);
}

/// A switch given its value in the same token (`--<name>=<value>`) reads back
/// that value, normalized.
pub proof fn law_inline_feature_value(name: Seq<char>, value: Seq<char>)
    requires
        forall|k: int| 0 <= k < name.len() ==> !is_quote(#[trigger] name[k]) && !is_ws(name[k]),
        closed_token(value),
    ensures
        feature_list_of_arguments(seq!['-', '-'] + name + seq!['='] + value, name) == feature_list(value),
{
    let pre = seq!['-', '-'] + name + seq!['='];
    assert forall|k: int| 0 <= k < pre.len() implies !is_quote(#[trigger] pre[k]) && !is_ws(pre[k]) by {
        if 2 <= k < pre.len() - 1 {
            assert(pre[k] == name[k - 2]);
        }
    }
    lemma_plain_then_closed(pre, value);
    let t = pre + value;
    let ts = seq![t];
    assert(join(ts, seq![' ']) == t);
    assert forall|k: int| 0 <= k < ts.len() implies closed_token(#[trigger] ts[k]) by {}
    lemma_split_join_tokens(ts);
    let needle = seq!['-', '-'] + lower(name);
    lemma_lower_concat(seq!['-', '-'], name);
    lemma_lower_concat(seq!['-', '-'] + name, seq!['=']);
    lemma_lower_concat(pre, value);
    assert(lower(seq!['-', '-']) =~= seq!['-', '-']);
    assert(lower(seq!['=']) =~= seq!['=']);
    let l = lower(t);
    assert(l == needle + seq!['='] + lower(value));
    assert(l.len() > needle.len());
    assert(l != needle);
    assert(l.take(needle.len() as int) =~= needle);
    let rest = t.skip(needle.len() as int);
    assert(rest =~= seq!['='] + value);
    assert(rest.take(1) =~= seq!['=']);
    assert(rest.drop_first() =~= value);
    let fl = feature_list(value);
    assert(features_from(ts, needle, 1) == Seq::<Seq<char>>::empty());
    assert(features_from(ts, needle, 0) == keep_if_non_empty(fl) + Seq::<Seq<char>>::empty());
    if fl.len() > 0 {
        assert(keep_if_non_empty(fl) + Seq::<Seq<char>>::empty() =~= seq![fl]);
    } else {
        assert(keep_if_non_empty(fl) + Seq::<Seq<char>>::empty() =~= Seq::<Seq<char>>::empty());
        assert(fl =~= Seq::<char>::empty());
    }
}

} // verus!
