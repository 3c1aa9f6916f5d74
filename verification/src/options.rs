//! Edge launch options: normalizing the Custom fields, composing the managed
//! option string, and reading flags back out of existing shortcut arguments.
use vstd::prelude::*;

use crate::text::{
    append_chars, chars_eq, chars_of, copy_range, eq_ignore_ascii_case, eq_ignore_case, has_prefix,
    is_ws, join, join_chars, lower, non_empty, split_chars, split_on, starts_with,
    string_from_chars, to_ascii_lowercase, trim, trim_all, trim_and_drop_empty, trim_chars,
    trim_start, trim_start_chars,
};
use crate::tokens::{split_tokens, tokenize, tokenize_str};

verus! {

broadcast use crate::lemma_char_vec_deep_view;

/// The switch that enables Edge features.
pub open spec fn enable_switch() -> Seq<char> {
    "--enable-features"@
}

/// The switch that disables Edge features.
pub open spec fn disable_switch() -> Seq<char> {
    "--disable-features"@
}

/// The text after `sw=` when `t` begins with the switch `sw` (in any ASCII case),
/// then optional whitespace, then `=`; whitespace after `=` is dropped too.
pub open spec fn after_switch(t: Seq<char>, sw: Seq<char>) -> Option<Seq<char>> {
    if t.len() >= sw.len() && eq_ignore_case(t.take(sw.len() as int), sw) {
        let rest = trim_start(t.skip(sw.len() as int));
        if rest.len() > 0 && rest[0] == '=' {
            Some(trim_start(rest.drop_first()))
        } else {
            None
        }
    } else {
        None
    }
}

/// `text` trimmed, and without a leading `--enable-features=` or
/// `--disable-features=`.
pub open spec fn strip_feature_switch(text: Seq<char>) -> Seq<char> {
    let t = trim(text);
    match after_switch(t, enable_switch()) {
        Some(v) => v,
        None => match after_switch(t, disable_switch()) {
            Some(v) => v,
            None => t,
        },
    }
}

/// `t` without one pair of matching outer quotes (`"` or `'`).
pub open spec fn strip_quotes(t: Seq<char>) -> Seq<char> {
    if t.len() >= 2 && ((t[0] == '"' && t.last() == '"') || (t[0] == '\'' && t.last() == '\'')) {
        t.subrange(1, t.len() - 1)
    } else {
        t
    }
}

/// The feature names in `text`: the comma-separated pieces, trimmed, without the
/// empty ones, in order.
pub open spec fn feature_items(text: Seq<char>) -> Seq<Seq<char>> {
    non_empty(trim_all(split_on(trim(strip_quotes(trim(strip_feature_switch(text)))), ',')))
}

/// The normalized feature list of `text`: its feature names joined by commas.
pub open spec fn feature_list(text: Seq<char>) -> Seq<char> {
    join(feature_items(text), seq![','])
}

/// The normalized standalone options of `text`: its tokens, trimmed, without the
/// empty ones, joined by single spaces.
pub open spec fn standalone(text: Seq<char>) -> Seq<char> {
    join(non_empty(trim_all(split_tokens(text))), seq![' '])
}

/// `--enable-features="<list>"`.
pub open spec fn enable_option(list: Seq<char>) -> Seq<char> {
    enable_switch() + seq!['=', '"'] + list + seq!['"']
}

/// `--disable-features="<list>"`.
pub open spec fn disable_option(list: Seq<char>) -> Seq<char> {
    disable_switch() + seq!['=', '"'] + list + seq!['"']
}

/// The parts of the managed option string, in order, each present only when
/// its field is not empty after normalization.
pub open spec fn custom_parts(s: Seq<char>, e: Seq<char>, d: Seq<char>) -> Seq<Seq<char>> {
    let p1: Seq<Seq<char>> = if s.len() > 0 { seq![s] } else { seq![] };
    let p2: Seq<Seq<char>> = if e.len() > 0 { seq![enable_option(e)] } else { seq![] };
    let p3: Seq<Seq<char>> = if d.len() > 0 { seq![disable_option(d)] } else { seq![] };
    p1 + p2 + p3
}

/// The managed option string made from the three Custom fields.
pub open spec fn custom_options(s: Seq<char>, e: Seq<char>, d: Seq<char>) -> Seq<char> {
    join(custom_parts(standalone(s), feature_list(e), feature_list(d)), seq![' '])
}

/// A switch token: it begins with `--`.
pub open spec fn is_switch(t: Seq<char>) -> bool {
    starts_with(t, seq!['-', '-'])
}

/// `t`, in any ASCII case, begins with the switch `sw` directly followed by `=`.
pub open spec fn has_inline_value(t: Seq<char>, sw: Seq<char>) -> bool {
    let l = lower(t);
    starts_with(l, sw) && l.len() > sw.len() && l[sw.len() as int] == '='
}

/// A managed feature switch with its value in the same token.
pub open spec fn is_inline_managed(t: Seq<char>) -> bool {
    has_inline_value(t, enable_switch()) || has_inline_value(t, disable_switch())
}

/// A managed feature switch on its own, in any ASCII case.
pub open spec fn is_exact_managed(t: Seq<char>) -> bool {
    eq_ignore_case(t, enable_switch()) || eq_ignore_case(t, disable_switch())
}

/// The token that is just `=`.
pub open spec fn equals_token() -> Seq<char> {
    seq!['=']
}

/// The token after a switch at `i` is its value when it begins with `=` or is
/// not itself a switch.
pub open spec fn is_value_token(t: Seq<char>) -> bool {
    starts_with(t, equals_token()) || !is_switch(t)
}

/// The index after a managed switch at `i` and its separated value, if any.
pub open spec fn skip_value(ts: Seq<Seq<char>>, i: int) -> int {
    let next = i + 1;
    if next >= ts.len() {
        next
    } else if ts[next] == equals_token() {
        if next + 1 < ts.len() {
            next + 2
        } else {
            next + 1
        }
    } else if is_value_token(ts[next]) {
        next + 1
    } else {
        next
    }
}

/// The tokens kept for a standalone switch at `i` (the switch and its separated
/// value, if any) and the index after them.
pub open spec fn take_switch(ts: Seq<Seq<char>>, i: int) -> (Seq<Seq<char>>, int) {
    let next = i + 1;
    if next >= ts.len() {
        (seq![ts[i]], next)
    } else if ts[next] == equals_token() {
        if next + 1 < ts.len() {
            (seq![ts[i], ts[next], ts[next + 1]], next + 2)
        } else {
            (seq![ts[i], ts[next]], next + 1)
        }
    } else if is_value_token(ts[next]) {
        (seq![ts[i], ts[next]], next + 1)
    } else {
        (seq![ts[i]], next)
    }
}

/// The standalone tokens among `ts[i..]`: every switch other than the managed
/// feature switches, with its value, in order; the managed switches and their
/// values and stray non-switch tokens are dropped.
pub open spec fn standalone_from(ts: Seq<Seq<char>>, i: int) -> Seq<Seq<char>>
    decreases ts.len() - i,
{
    if i < 0 || i >= ts.len() {
        seq![]
    } else if is_inline_managed(ts[i]) {
        standalone_from(ts, i + 1)
    } else if is_exact_managed(ts[i]) {
        standalone_from(ts, skip_value(ts, i))
    } else if is_switch(ts[i]) {
        let (p, j) = take_switch(ts, i);
        p + standalone_from(ts, j)
    } else {
        standalone_from(ts, i + 1)
    }
}

/// The standalone options of existing shortcut arguments.
pub open spec fn standalone_of_arguments(args: Seq<char>) -> Seq<char> {
    join(standalone_from(split_tokens(args), 0), seq![' '])
}

/// The value of a switch at `i` given in the following token(s), with the index
/// after it: `= v`, `=v` or `v` (when `v` is not a switch).
pub open spec fn separated_value(ts: Seq<Seq<char>>, i: int) -> Option<(Seq<char>, int)> {
    let next = i + 1;
    if next >= ts.len() {
        None
    } else if ts[next] == equals_token() {
        if next + 1 < ts.len() {
            Some((ts[next + 1], next + 2))
        } else {
            None
        }
    } else if starts_with(ts[next], equals_token()) {
        Some((ts[next].drop_first(), next + 1))
    } else if is_switch(ts[next]) {
        None
    } else {
        Some((ts[next], next + 1))
    }
}

/// `seq![c]` when `c` is not empty, else nothing.
pub open spec fn keep_if_non_empty(c: Seq<char>) -> Seq<Seq<char>> {
    if c.len() > 0 {
        seq![c]
    } else {
        seq![]
    }
}

/// The normalized feature lists given to the switch `needle` in `ts[i..]`, in
/// order: as `needle=v` in one token, or as a separated value.
pub open spec fn features_from(ts: Seq<Seq<char>>, needle: Seq<char>, i: int) -> Seq<Seq<char>>
    decreases ts.len() - i,
{
    if i < 0 || i >= ts.len() {
        seq![]
    } else {
        let l = lower(ts[i]);
        if l == needle {
            match separated_value(ts, i) {
                Some((v, j)) => if j > i {
                    keep_if_non_empty(feature_list(v)) + features_from(ts, needle, j)
                } else {
                    seq![]
                },
                None => features_from(ts, needle, i + 1),
            }
        } else if starts_with(l, needle) {
            let rest = ts[i].skip(needle.len() as int);
            let found = if starts_with(rest, equals_token()) {
                keep_if_non_empty(feature_list(rest.drop_first()))
            } else {
                seq![]
            };
            found + features_from(ts, needle, i + 1)
        } else {
            features_from(ts, needle, i + 1)
        }
    }
}

/// The feature list that existing shortcut arguments give to the switch
/// `--<name>` (the name in any ASCII case).
pub open spec fn feature_list_of_arguments(args: Seq<char>, name: Seq<char>) -> Seq<char> {
    join(features_from(split_tokens(args), seq!['-', '-'] + lower(name), 0), seq![','])
}

/// Appends `t` to `items`.
fn push_item(items: &mut Vec<Vec<char>>, t: Vec<char>)
    ensures
        final(items).deep_view() == old(items).deep_view().push(t@),
{
    items.push(t);
    assert(items.deep_view() =~= old(items).deep_view().push(t@));
}

/// A copy of `v`.
fn clone_chars(v: &Vec<char>) -> (r: Vec<char>)
    ensures
        r@ == v@,
{
    let r = copy_range(v, 0, v.len());
    assert(r@ =~= v@);
    r
}

/// A separator of one character.
fn one_char(c: char) -> (r: Vec<char>)
    ensures
        r@ == seq![c],
{
    let r = vec![c];
    assert(r@ =~= seq![c]);
    r
}

/// If `t` begins with the switch `sw` followed by `=`, the value after it.
fn strip_switch_prefix(t: &Vec<char>, sw: &Vec<char>) -> (r: Option<Vec<char>>)
    ensures
        match r {
            Some(v) => after_switch(t@, sw@) == Some(v@),
            None => after_switch(t@, sw@) is None,
        },
{
    if t.len() < sw.len() {
        return None;
    }
    let head = copy_range(t, 0, sw.len());
    assert(head@ =~= t@.take(sw@.len() as int));
    if !eq_ignore_ascii_case(&head, sw) {
        return None;
    }
    let tail = copy_range(t, sw.len(), t.len());
    assert(tail@ =~= t@.skip(sw@.len() as int));
    let rest = trim_start_chars(&tail);
    if rest.len() > 0 && rest[0] == '=' {
        let after = copy_range(&rest, 1, rest.len());
        assert(after@ =~= rest@.drop_first());
        Some(trim_start_chars(&after))
    } else {
        None
    }
}

/// `text` trimmed, and without a leading managed feature switch and `=`.
pub fn strip_optional_feature_switch(text: &Vec<char>) -> (r: Vec<char>)
    ensures
        r@ == strip_feature_switch(text@),
{
    let trimmed = trim_chars(text);
    let enable = chars_of("--enable-features");
    if let Some(v) = strip_switch_prefix(&trimmed, &enable) {
        return v;
    }
    let disable = chars_of("--disable-features");
    if let Some(v) = strip_switch_prefix(&trimmed, &disable) {
        return v;
    }
    trimmed
}

/// `text` without one pair of matching outer quotes.
pub fn strip_matching_quotes(text: &Vec<char>) -> (r: Vec<char>)
    ensures
        r@ == strip_quotes(text@),
{
    let n = text.len();
    if n >= 2 {
        let first = text[0];
        let last = text[n - 1];
        if (first == '"' && last == '"') || (first == '\'' && last == '\'') {
            return copy_range(text, 1, n - 1);
        }
    }
    copy_range(text, 0, n)
}

/// The normalized feature list of `text`, as characters.
pub fn normalize_feature_chars(text: &Vec<char>) -> (r: Vec<char>)
    ensures
        r@ == feature_list(text@),
{
    let value = strip_optional_feature_switch(text);
    let value = trim_chars(&value);
    let value = strip_matching_quotes(&value);
    let value = trim_chars(&value);
    let pieces = split_chars(&value, ',');
    let items = trim_and_drop_empty(&pieces);
    join_chars(&items, &one_char(','))
}

/// Normalizes a feature list given either as a plain comma list or as a full
/// `--enable-features=` / `--disable-features=` switch: the names are trimmed,
/// empty names are dropped, and the rest are joined by commas.
pub fn normalize_feature_list(text: &str) -> (r: String)
    ensures
        r@ == feature_list(text@),
{
    let chars = chars_of(text);
    let list = normalize_feature_chars(&chars);
    string_from_chars(&list)
}

/// The normalized standalone options of `text`, as characters.
pub fn normalize_standalone_chars(text: &Vec<char>) -> (r: Vec<char>)
    ensures
        r@ == standalone(text@),
{
    let tokens = tokenize(text);
    let items = trim_and_drop_empty(&tokens);
    join_chars(&items, &one_char(' '))
}

/// Normalizes standalone switches entered as an ordinary command line: its
/// tokens (quoted stretches kept together), trimmed, joined by single spaces.
pub fn normalize_standalone_options(text: &str) -> (r: String)
    ensures
        r@ == standalone(text@),
{
    let chars = chars_of(text);
    let s = normalize_standalone_chars(&chars);
    string_from_chars(&s)
}

/// `<switch>="<list>"`.
fn quoted_switch_option(switch_name: &str, list: &Vec<char>) -> (r: Vec<char>)
    ensures
        r@ == switch_name@ + seq!['=', '"'] + list@ + seq!['"'],
{
    let mut r = chars_of(switch_name);
    r.push('=');
    r.push('"');
    append_chars(&mut r, list);
    r.push('"');
    r
}

/// The managed option string from the Custom fields, as characters.
pub fn custom_options_chars(standalone_text: &Vec<char>, enable_text: &Vec<char>, disable_text: &Vec<char>) -> (r: Vec<char>)
    ensures
        r@ == custom_options(standalone_text@, enable_text@, disable_text@),
{
    let standalone_options = normalize_standalone_chars(standalone_text);
    let enable_features = normalize_feature_chars(enable_text);
    let disable_features = normalize_feature_chars(disable_text);
    let mut parts: Vec<Vec<char>> = Vec::new();
    let ghost s = standalone_options@;
    let ghost e = enable_features@;
    let ghost d = disable_features@;
    if standalone_options.len() > 0 {
        push_item(&mut parts, standalone_options);
    }
    if enable_features.len() > 0 {
        push_item(&mut parts, quoted_switch_option("--enable-features", &enable_features));
    }
    if disable_features.len() > 0 {
        push_item(&mut parts, quoted_switch_option("--disable-features", &disable_features));
    }
    assert(parts.deep_view() =~= custom_parts(s, e, d));
    join_chars(&parts, &one_char(' '))
}

/// Composes the managed option string from the three Custom fields: the
/// normalized standalone switches, then `--enable-features="<list>"`, then
/// `--disable-features="<list>"`, each only when not empty, separated by
/// single spaces.
pub fn get_custom_options_from_text(standalone_text: &str, enable_text: &str, disable_text: &str) -> (r: String)
    ensures
        r@ == custom_options(standalone_text@, enable_text@, disable_text@),
{
    let s = chars_of(standalone_text);
    let e = chars_of(enable_text);
    let d = chars_of(disable_text);
    let r = custom_options_chars(&s, &e, &d);
    string_from_chars(&r)
}

/// Whether a token is a switch, that is, begins with `--`.
pub fn is_switch_token(token: &Vec<char>) -> (b: bool)
    ensures
        b == is_switch(token@),
{
    let dashes = vec!['-', '-'];
    assert(dashes@ =~= seq!['-', '-']);
    has_prefix(token, &dashes)
}

fn has_inline_switch_value(lower_token: &Vec<char>, sw: &Vec<char>) -> (b: bool)
    ensures
        b == (starts_with(lower_token@, sw@) && lower_token@.len() > sw@.len()
            && lower_token@[sw@.len() as int] == '='),
{
    has_prefix(lower_token, sw) && lower_token.len() > sw.len() && lower_token[sw.len()] == '='
}

/// Whether a token is a managed feature switch with its value inline
/// (`--enable-features=...` or `--disable-features=...`, in any ASCII case).
pub fn is_managed_feature_switch_with_inline_value(token: &Vec<char>) -> (b: bool)
    ensures
        b == is_inline_managed(token@),
{
    let l = to_ascii_lowercase(token);
    let enable = chars_of("--enable-features");
    if has_inline_switch_value(&l, &enable) {
        return true;
    }
    let disable = chars_of("--disable-features");
    has_inline_switch_value(&l, &disable)
}

/// Whether a token is exactly a managed feature switch, in any ASCII case.
pub fn is_exact_managed_feature_switch(token: &Vec<char>) -> (b: bool)
    ensures
        b == is_exact_managed(token@),
{
    let enable = chars_of("--enable-features");
    if eq_ignore_ascii_case(token, &enable) {
        return true;
    }
    let disable = chars_of("--disable-features");
    eq_ignore_ascii_case(token, &disable)
}

fn is_equals_token(t: &Vec<char>) -> (b: bool)
    ensures
        b == (t@ == equals_token()),
{
    chars_eq(t, &one_char('='))
}

fn is_value_token_exec(t: &Vec<char>) -> (b: bool)
    ensures
        b == is_value_token(t@),
{
    has_prefix(t, &one_char('=')) || !is_switch_token(t)
}

/// The index after a managed switch at `switch_index` and its separated value.
pub fn skip_separated_switch_value(tokens: &Vec<Vec<char>>, switch_index: usize) -> (r: usize)
    requires
        switch_index < usize::MAX,
    ensures
        r as int == skip_value(tokens.deep_view(), switch_index as int),
{
    let n = tokens.len();
    let next_index = switch_index + 1;
    if next_index >= n {
        return next_index;
    }
    let next = &tokens[next_index];
    assert(next@ == tokens.deep_view()[next_index as int]);
    if is_equals_token(next) {
        if next_index + 1 < tokens.len() {
            return next_index + 2;
        }
        return next_index + 1;
    }
    if is_value_token_exec(next) {
        return next_index + 1;
    }
    next_index
}

/// Appends the standalone switch at `switch_index` and its separated value, if
/// any, to `items`, and returns the index after them.
pub fn push_standalone_switch(tokens: &Vec<Vec<char>>, switch_index: usize, items: &mut Vec<Vec<char>>) -> (r: usize)
    requires
        switch_index < tokens@.len(),
    ensures
        ({
            let (p, j) = take_switch(tokens.deep_view(), switch_index as int);
            &&& final(items).deep_view() == old(items).deep_view() + p
            &&& r as int == j
        }),
{
    let ghost ts = tokens.deep_view();
    let ghost before = items.deep_view();
    let token = clone_chars(&tokens[switch_index]);
    assert(token@ =~= ts[switch_index as int]);
    push_item(items, token);
    let n = tokens.len();
    let next_index = switch_index + 1;
    if next_index >= n {
        assert(items.deep_view() =~= before + seq![ts[switch_index as int]]);
        return next_index;
    }
    let next = &tokens[next_index];
    assert(next@ == ts[next_index as int]);
    if is_equals_token(next) {
        push_item(items, clone_chars(next));
        if next_index + 1 < tokens.len() {
            let value = &tokens[next_index + 1];
            assert(value@ == ts[next_index + 1]);
            push_item(items, clone_chars(value));
            assert(items.deep_view() =~= before + seq![
                ts[switch_index as int],
                ts[next_index as int],
                ts[next_index + 1],
            ]);
            return next_index + 2;
        }
        assert(items.deep_view() =~= before + seq![ts[switch_index as int], ts[next_index as int]]);
        return next_index + 1;
    }
    if is_value_token_exec(next) {
        push_item(items, clone_chars(next));
        assert(items.deep_view() =~= before + seq![ts[switch_index as int], ts[next_index as int]]);
        return next_index + 1;
    }
    assert(items.deep_view() =~= before + seq![ts[switch_index as int]]);
    next_index
}

/// The standalone options of existing shortcut arguments, as characters.
pub fn standalone_options_of_tokens(tokens: &Vec<Vec<char>>) -> (r: Vec<Vec<char>>)
    ensures
        r.deep_view() == standalone_from(tokens.deep_view(), 0),
{
    let ghost ts = tokens.deep_view();
    let mut items: Vec<Vec<char>> = Vec::new();
    let mut index: usize = 0;
    assert(items.deep_view() =~= Seq::<Seq<char>>::empty());
    while index < tokens.len()
        invariant
            ts == tokens.deep_view(),
            index <= tokens@.len(),
            standalone_from(ts, 0) == items.deep_view() + standalone_from(ts, index as int),
        decreases tokens@.len() - index,
    {
        let token = &tokens[index];
        assert(token@ == ts[index as int]);
        if is_managed_feature_switch_with_inline_value(token) {
            index += 1;
        } else if is_exact_managed_feature_switch(token) {
            index = skip_separated_switch_value(tokens, index);
        } else if is_switch_token(token) {
            let ghost before = items.deep_view();
            let ghost (p, j) = take_switch(ts, index as int);
            index = push_standalone_switch(tokens, index, &mut items);
            assert(before + (p + standalone_from(ts, j)) =~= items.deep_view() + standalone_from(ts, j));
        } else {
            index += 1;
        }
    }
    assert(items.deep_view() + standalone_from(ts, index as int) =~= items.deep_view());
    items
}

/// Collects every existing non-feature switch (with its value) from shortcut
/// arguments, to prefill the Custom standalone field.
pub fn get_standalone_options_from_arguments(arguments: &str) -> (r: String)
    ensures
        r@ == standalone_of_arguments(arguments@),
{
    let tokens = tokenize_str(arguments);
    let items = standalone_options_of_tokens(&tokens);
    let joined = join_chars(&items, &one_char(' '));
    string_from_chars(&joined)
}

/// The separated value of the switch at `switch_index` and the index after it.
pub fn get_separated_switch_value(tokens: &Vec<Vec<char>>, switch_index: usize) -> (r: Option<(Vec<char>, usize)>)
    requires
        switch_index < usize::MAX,
    ensures
        match r {
            Some((v, j)) => separated_value(tokens.deep_view(), switch_index as int) == Some((v@, j as int)),
            None => separated_value(tokens.deep_view(), switch_index as int) is None,
        },
{
    let ghost ts = tokens.deep_view();
    let n = tokens.len();
    let next_index = switch_index + 1;
    if next_index >= n {
        return None;
    }
    let next = &tokens[next_index];
    assert(next@ == ts[next_index as int]);
    if is_equals_token(next) {
        if next_index + 1 < tokens.len() {
            let value = &tokens[next_index + 1];
            assert(value@ == ts[next_index + 1]);
            return Some((clone_chars(value), next_index + 2));
        }
        return None;
    }
    if has_prefix(next, &one_char('=')) {
        let v = copy_range(next, 1, next.len());
        assert(v@ =~= next@.drop_first());
        return Some((v, next_index + 1));
    }
    if is_switch_token(next) {
        return None;
    }
    Some((clone_chars(next), next_index + 1))
}

/// The normalized feature lists given to `needle` in the tokens.
pub fn feature_lists_of_tokens(tokens: &Vec<Vec<char>>, needle: &Vec<char>) -> (r: Vec<Vec<char>>)
    ensures
        r.deep_view() == features_from(tokens.deep_view(), needle@, 0),
{
    let ghost ts = tokens.deep_view();
    let mut items: Vec<Vec<char>> = Vec::new();
    let mut index: usize = 0;
    assert(items.deep_view() =~= Seq::<Seq<char>>::empty());
    while index < tokens.len()
        invariant
            ts == tokens.deep_view(),
            index <= tokens@.len(),
            features_from(ts, needle@, 0) == items.deep_view() + features_from(ts, needle@, index as int),
        decreases tokens@.len() - index,
    {
        let token = &tokens[index];
        assert(token@ == ts[index as int]);
        let l = to_ascii_lowercase(token);
        let ghost before = items.deep_view();
        if chars_eq(&l, needle) {
            match get_separated_switch_value(tokens, index) {
                Some((value, next_index)) => {
                    let clean = normalize_feature_chars(&value);
                    if clean.len() > 0 {
                        push_item(&mut items, clean);
                    }
                    assert(before + (keep_if_non_empty(feature_list(value@)) + features_from(ts, needle@, next_index as int))
                        =~= items.deep_view() + features_from(ts, needle@, next_index as int));
                    index = next_index;
                },
                None => {
                    index += 1;
                },
            }
        } else {
            if has_prefix(&l, needle) {
                let rest = copy_range(token, needle.len(), token.len());
                assert(rest@ =~= ts[index as int].skip(needle@.len() as int));
                if has_prefix(&rest, &one_char('=')) {
                    let value = copy_range(&rest, 1, rest.len());
                    assert(value@ =~= rest@.drop_first());
                    let clean = normalize_feature_chars(&value);
                    if clean.len() > 0 {
                        push_item(&mut items, clean);
                    }
                }
                assert(before + (
                    (if starts_with(rest@, equals_token()) { keep_if_non_empty(feature_list(rest@.drop_first())) } else { seq![] })
                        + features_from(ts, needle@, index + 1))
                    =~= items.deep_view() + features_from(ts, needle@, index + 1));
            }
            index += 1;
        }
    }
    assert(items.deep_view() + features_from(ts, needle@, index as int) =~= items.deep_view());
    items
}

/// Reads the flags of the switch `--<switch_name>` (name in any ASCII case) back
/// out of existing shortcut arguments, to prefill a Custom field: every value
/// given to it, normalized, joined by commas.
pub fn get_feature_list_from_arguments(arguments: &str, switch_name: &str) -> (r: String)
    ensures
        r@ == feature_list_of_arguments(arguments@, switch_name@),
{
    let name = chars_of(switch_name);
    let mut needle = vec!['-', '-'];
    assert(needle@ =~= seq!['-', '-']);
    let lowered = to_ascii_lowercase(&name);
    append_chars(&mut needle, &lowered);
    let tokens = tokenize_str(arguments);
    let items = feature_lists_of_tokens(&tokens, &needle);
    let joined = join_chars(&items, &one_char(','));
    string_from_chars(&joined)
}

/// The new argument string of a shortcut: the managed options, trimmed. The
/// existing arguments are replaced as a whole.
pub fn merge_shortcut_arguments(existing_arguments: &str, managed_options: &str) -> (r: String)
    ensures
        r@ == trim(managed_options@),
{
    let chars = chars_of(managed_options);
    let t = trim_chars(&chars);
    string_from_chars(&t)
}

/// The Old workaround's options: disable `msFeatureGroupNewLookAndFeelHoldout`,
/// and also `msShowSignInIndicator` (listed first) when the sign-in dot is to be
/// hidden.
pub fn get_old_options(hide_sign_in_indicator: bool) -> (r: String)
    ensures
        hide_sign_in_indicator ==> r@ == "--disable-features=\"msShowSignInIndicator,msFeatureGroupNewLookAndFeelHoldout\""@,
        !hide_sign_in_indicator ==> r@ == "--disable-features=\"msFeatureGroupNewLookAndFeelHoldout\""@,
{
    if hide_sign_in_indicator {
        String::from_str("--disable-features=\"msShowSignInIndicator,msFeatureGroupNewLookAndFeelHoldout\"")
    } else {
        String::from_str("--disable-features=\"msFeatureGroupNewLookAndFeelHoldout\"")
    }
}

/// The New workaround's options: enable `msForceNoRoundedCornerAndMargin`, and
/// also disable `msShowSignInIndicator` when the sign-in dot is to be hidden.
pub fn get_new_options(hide_sign_in_indicator: bool) -> (r: String)
    ensures
        hide_sign_in_indicator ==> r@ == "--enable-features=\"msForceNoRoundedCornerAndMargin\" --disable-features=\"msShowSignInIndicator\""@,
        !hide_sign_in_indicator ==> r@ == "--enable-features=\"msForceNoRoundedCornerAndMargin\""@,
{
    if hide_sign_in_indicator {
        String::from_str("--enable-features=\"msForceNoRoundedCornerAndMargin\" --disable-features=\"msShowSignInIndicator\"")
    } else {
        String::from_str("--enable-features=\"msForceNoRoundedCornerAndMargin\"")
    }
}

} // verus!
