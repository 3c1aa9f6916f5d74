//! Path order: paths compared by their components (as the standard library's
//! `Path` compares them), as lists of shortcut paths are sorted and freed of
//! repeats.
use vstd::prelude::*;

use crate::path_parse::{lemma_path_key_injective, path_components, path_key, path_key_of};
use crate::text::chars_of;

verus! {

broadcast use crate::lemma_char_vec_deep_view;

/// Two paths are the same path when their components are the same.
pub open spec fn same_path(a: Seq<char>, b: Seq<char>) -> bool {
    path_components(a) == path_components(b)
}

/// Texts in lexicographic order of their characters: negative when `a` comes
/// first, zero when they are equal, positive when `b` comes first.
pub open spec fn text_order(a: Seq<char>, b: Seq<char>) -> int
    decreases a.len(),
{
    if a.len() == 0 {
        if b.len() == 0 {
            0
        } else {
            -1
        }
    } else if b.len() == 0 {
        1
    } else if a[0] < b[0] {
        -1
    } else if b[0] < a[0] {
        1
    } else {
        text_order(a.drop_first(), b.drop_first())
    }
}

/// Component keys in order: kind first, then the first text, then the second.
pub open spec fn key_order(a: (u8, Seq<char>, Seq<char>), b: (u8, Seq<char>, Seq<char>)) -> int {
    if a.0 < b.0 {
        -1
    } else if b.0 < a.0 {
        1
    } else if text_order(a.1, b.1) != 0 {
        text_order(a.1, b.1)
    } else {
        text_order(a.2, b.2)
    }
}

/// Lists of component keys in lexicographic order.
pub open spec fn keys_order(a: Seq<(u8, Seq<char>, Seq<char>)>, b: Seq<(u8, Seq<char>, Seq<char>)>) -> int
    decreases a.len(),
{
    if a.len() == 0 {
        if b.len() == 0 {
            0
        } else {
            -1
        }
    } else if b.len() == 0 {
        1
    } else if key_order(a[0], b[0]) != 0 {
        key_order(a[0], b[0])
    } else {
        keys_order(a.drop_first(), b.drop_first())
    }
}

/// Paths ordered by their components.
pub open spec fn path_order(a: Seq<char>, b: Seq<char>) -> int {
    keys_order(path_key(a), path_key(b))
}

/// `r` is `ps` sorted by path order with repeats removed: strictly increasing,
/// every path of `ps` has the same path in `r`, and every path of `r` is the
/// first of its kind in `ps`.
pub open spec fn sorted_unique_of(r: Seq<Seq<char>>, ps: Seq<Seq<char>>) -> bool {
    &&& forall|i: int, j: int| 0 <= i < j < r.len() ==> path_order(#[trigger] r[i], #[trigger] r[j]) < 0
    &&& forall|m: int| 0 <= m < ps.len() ==> has_same_path(r, #[trigger] ps[m])
    &&& forall|i: int| 0 <= i < r.len() ==> first_in(ps, #[trigger] r[i])
}

/// `ps` sorted by path order with repeats removed (the one list that
/// `sorted_unique_of` describes; see `lemma_sorted_unique_determined`).
pub open spec fn sorted_unique(ps: Seq<Seq<char>>) -> Seq<Seq<char>> {
    choose|r: Seq<Seq<char>>| sorted_unique_of(r, ps)
}

/// Some path of `r` is the same path as `p`.
pub open spec fn has_same_path(r: Seq<Seq<char>>, p: Seq<char>) -> bool {
    exists|i: int| 0 <= i < r.len() && same_path(#[trigger] r[i], p)
}

/// `p` is a path of `ps` that no earlier path of `ps` is the same as.
pub open spec fn first_in(ps: Seq<Seq<char>>, p: Seq<char>) -> bool {
    exists|m: int| 0 <= m < ps.len() && #[trigger] ps[m] == p && first_of_kind(ps, m)
}

/// No path before `ps[m]` is the same path.
pub open spec fn first_of_kind(ps: Seq<Seq<char>>, m: int) -> bool {
    forall|k: int| 0 <= k < m ==> !same_path(#[trigger] ps[k], ps[m])
}

proof fn lemma_text_order(a: Seq<char>, b: Seq<char>)
    ensures
        (text_order(a, b) == 0) == (a == b),
        text_order(a, b) == -text_order(b, a),
        -1 <= text_order(a, b) <= 1,
    decreases a.len(),
{
    if a == b && a.len() > 0 {
        assert(a.drop_first() == b.drop_first());
    }
    if a.len() == 0 && b.len() == 0 {
        assert(a =~= b);
    }
    if a.len() > 0 && b.len() > 0 && a[0] == b[0] {
        lemma_text_order(a.drop_first(), b.drop_first());
        if a.drop_first() == b.drop_first() {
            assert(a =~= seq![a[0]] + a.drop_first());
            assert(b =~= seq![b[0]] + b.drop_first());
        }
    }
}

proof fn lemma_text_order_trans(a: Seq<char>, b: Seq<char>, c: Seq<char>)
    requires
        text_order(a, b) < 0,
        text_order(b, c) < 0,
    ensures
        text_order(a, c) < 0,
    decreases a.len(),
{
    if a.len() > 0 && b.len() > 0 && c.len() > 0 && a[0] == b[0] && b[0] == c[0] {
        lemma_text_order_trans(a.drop_first(), b.drop_first(), c.drop_first());
    }
}

proof fn lemma_key_order(a: (u8, Seq<char>, Seq<char>), b: (u8, Seq<char>, Seq<char>))
    ensures
        (key_order(a, b) == 0) == (a == b),
        key_order(a, b) == -key_order(b, a),
{
    lemma_text_order(a.1, b.1);
    lemma_text_order(a.2, b.2);
}

proof fn lemma_key_order_trans(
    a: (u8, Seq<char>, Seq<char>),
    b: (u8, Seq<char>, Seq<char>),
    c: (u8, Seq<char>, Seq<char>),
)
    requires
        key_order(a, b) < 0,
        key_order(b, c) < 0,
    ensures
        key_order(a, c) < 0,
{
    lemma_text_order(a.1, b.1);
    lemma_text_order(b.1, c.1);
    lemma_text_order(a.1, c.1);
    lemma_text_order(a.2, b.2);
    lemma_text_order(b.2, c.2);
    lemma_text_order(a.2, c.2);
    if a.0 == b.0 && b.0 == c.0 {
        if a.1 == b.1 && b.1 == c.1 {
            lemma_text_order_trans(a.2, b.2, c.2);
        } else if a.1 != b.1 && b.1 != c.1 {
            lemma_text_order_trans(a.1, b.1, c.1);
        }
    }
}

proof fn lemma_keys_order(a: Seq<(u8, Seq<char>, Seq<char>)>, b: Seq<(u8, Seq<char>, Seq<char>)>)
    ensures
        (keys_order(a, b) == 0) == (a == b),
        keys_order(a, b) == -keys_order(b, a),
    decreases a.len(),
{
    if a == b && a.len() > 0 {
        assert(a.drop_first() == b.drop_first());
    }
    if a.len() == 0 && b.len() == 0 {
        assert(a =~= b);
    }
    if a.len() > 0 && b.len() > 0 {
        lemma_key_order(a[0], b[0]);
        if a[0] == b[0] {
            lemma_keys_order(a.drop_first(), b.drop_first());
            if a.drop_first() == b.drop_first() {
                assert(a =~= seq![a[0]] + a.drop_first());
                assert(b =~= seq![b[0]] + b.drop_first());
            }
        }
    }
}

proof fn lemma_keys_order_trans(
    a: Seq<(u8, Seq<char>, Seq<char>)>,
    b: Seq<(u8, Seq<char>, Seq<char>)>,
    c: Seq<(u8, Seq<char>, Seq<char>)>,
)
    requires
        keys_order(a, b) < 0,
        keys_order(b, c) < 0,
    ensures
        keys_order(a, c) < 0,
    decreases a.len(),
{
    if a.len() > 0 && b.len() > 0 && c.len() > 0 {
        lemma_key_order(a[0], b[0]);
        lemma_key_order(b[0], c[0]);
        lemma_key_order(a[0], c[0]);
        if a[0] == b[0] && b[0] == c[0] {
            lemma_keys_order_trans(a.drop_first(), b.drop_first(), c.drop_first());
        } else if a[0] == b[0] {
        } else if b[0] == c[0] {
        } else {
            lemma_key_order_trans(a[0], b[0], c[0]);
        }
    }
}

/// Path order is a strict total order whose equality is `same_path`.
pub proof fn lemma_path_order(a: Seq<char>, b: Seq<char>)
    ensures
        (path_order(a, b) == 0) == same_path(a, b),
        path_order(a, b) == -path_order(b, a),
{
    lemma_keys_order(path_key(a), path_key(b));
    if path_key(a) == path_key(b) {
        lemma_path_key_injective(a, b);
    }
}

/// Path order is transitive.
pub proof fn lemma_path_order_trans(a: Seq<char>, b: Seq<char>, c: Seq<char>)
    requires
        path_order(a, b) < 0,
        path_order(b, c) < 0,
    ensures
        path_order(a, c) < 0,
{
    lemma_keys_order_trans(path_key(a), path_key(b), path_key(c));
}

/// Strictly increasing in path order.
pub open spec fn strictly_sorted(r: Seq<Seq<char>>) -> bool {
    forall|i: int, j: int| 0 <= i < j < r.len() ==> path_order(#[trigger] r[i], #[trigger] r[j]) < 0
}

/// Every path of `a` is in `b`.
pub open spec fn all_in(a: Seq<Seq<char>>, b: Seq<Seq<char>>) -> bool {
    forall|i: int| 0 <= i < a.len() ==> #[trigger] b.contains(a[i])
}

proof fn lemma_first_in_unique(ps: Seq<Seq<char>>, x: Seq<char>, y: Seq<char>)
    requires
        first_in(ps, x),
        first_in(ps, y),
        same_path(x, y),
    ensures
        x == y,
{
    let m = choose|m: int| 0 <= m < ps.len() && #[trigger] ps[m] == x && first_of_kind(ps, m);
    let n = choose|n: int| 0 <= n < ps.len() && #[trigger] ps[n] == y && first_of_kind(ps, n);
    if m < n {
        assert(!same_path(ps[m], ps[n]));
    } else if n < m {
        assert(!same_path(ps[n], ps[m]));
    }
}

proof fn lemma_sorted_unique_member(r1: Seq<Seq<char>>, r2: Seq<Seq<char>>, ps: Seq<Seq<char>>, i: int)
    requires
        forall|k: int| 0 <= k < r1.len() ==> first_in(ps, #[trigger] r1[k]),
        forall|m: int| 0 <= m < ps.len() ==> has_same_path(r2, #[trigger] ps[m]),
        forall|k: int| 0 <= k < r2.len() ==> first_in(ps, #[trigger] r2[k]),
        0 <= i < r1.len(),
    ensures
        r2.contains(r1[i]),
{
    let x = r1[i];
    assert(first_in(ps, x));
    let m = choose|m: int| 0 <= m < ps.len() && #[trigger] ps[m] == x && first_of_kind(ps, m);
    assert(has_same_path(r2, ps[m]));
    let j = choose|j: int| 0 <= j < r2.len() && same_path(#[trigger] r2[j], ps[m]);
    let y = r2[j];
    assert(first_in(ps, y));
    lemma_first_in_unique(ps, y, x);
    assert(r2[j] == x);
}

proof fn lemma_sorted_unique_members(r1: Seq<Seq<char>>, r2: Seq<Seq<char>>, ps: Seq<Seq<char>>)
    requires
        sorted_unique_of(r1, ps),
        sorted_unique_of(r2, ps),
    ensures
        all_in(r1, r2),
{
    assert forall|i: int| 0 <= i < r1.len() implies #[trigger] r2.contains(r1[i]) by {
        lemma_sorted_unique_member(r1, r2, ps, i);
    }
}

proof fn lemma_sorted_same_members(r1: Seq<Seq<char>>, r2: Seq<Seq<char>>)
    requires
        strictly_sorted(r1),
        strictly_sorted(r2),
        all_in(r1, r2),
        all_in(r2, r1),
    ensures
        r1 == r2,
    decreases r1.len(),
{
    if r1.len() == 0 {
        if r2.len() > 0 {
            assert(r1.contains(r2[0]));
        }
        assert(r1 =~= r2);
    } else {
        assert(r2.contains(r1[0]));
        let j = choose|j: int| 0 <= j < r2.len() && r2[j] == r1[0];
        assert(r1.contains(r2[0]));
        let i = choose|i: int| 0 <= i < r1.len() && r1[i] == r2[0];
        if j > 0 {
            assert(path_order(r2[0], r2[j]) < 0);
            if i > 0 {
                assert(path_order(r1[0], r1[i]) < 0);
                lemma_path_order(r1[0], r1[i]);
            } else {
                lemma_path_order(r2[0], r2[j]);
            }
        }
        assert(r1[0] == r2[0]);
        let t1 = r1.drop_first();
        let t2 = r2.drop_first();
        assert forall|a: int| 0 <= a < t1.len() implies #[trigger] t2.contains(t1[a]) by {
            assert(r2.contains(r1[a + 1]));
            let b = choose|b: int| 0 <= b < r2.len() && r2[b] == r1[a + 1];
            assert(path_order(r1[0], r1[a + 1]) < 0);
            lemma_path_order(r1[0], r1[a + 1]);
            assert(b != 0);
            assert(t2[b - 1] == t1[a]);
        }
        assert forall|a: int| 0 <= a < t2.len() implies #[trigger] t1.contains(t2[a]) by {
            assert(r1.contains(r2[a + 1]));
            let b = choose|b: int| 0 <= b < r1.len() && r1[b] == r2[a + 1];
            assert(path_order(r2[0], r2[a + 1]) < 0);
            lemma_path_order(r2[0], r2[a + 1]);
            assert(b != 0);
            assert(t1[b - 1] == t2[a]);
        }
        assert forall|a: int, b: int| 0 <= a < b < t1.len() implies path_order(#[trigger] t1[a], #[trigger] t1[b]) < 0 by {
            assert(path_order(r1[a + 1], r1[b + 1]) < 0);
        }
        assert forall|a: int, b: int| 0 <= a < b < t2.len() implies path_order(#[trigger] t2[a], #[trigger] t2[b]) < 0 by {
            assert(path_order(r2[a + 1], r2[b + 1]) < 0);
        }
        lemma_sorted_same_members(t1, t2);
        assert(r1 =~= seq![r1[0]] + t1);
        assert(r2 =~= seq![r2[0]] + t2);
    }
}

/// The sorted list without repeats is determined by the list it was made from.
pub proof fn lemma_sorted_unique_determined(r1: Seq<Seq<char>>, r2: Seq<Seq<char>>, ps: Seq<Seq<char>>)
    requires
        sorted_unique_of(r1, ps),
        sorted_unique_of(r2, ps),
    ensures
        r1 == r2,
{
    lemma_sorted_unique_members(r1, r2, ps);
    lemma_sorted_unique_members(r2, r1, ps);
    lemma_sorted_same_members(r1, r2);
}

/// `text_order` of two character vectors.
fn text_order_exec(a: &Vec<char>, b: &Vec<char>) -> (r: i8)
    ensures
        r as int == text_order(a@, b@),
{
    let mut i: usize = 0;
    assert(a@.skip(0) =~= a@);
    assert(b@.skip(0) =~= b@);
    loop
        invariant
            i <= a@.len(),
            i <= b@.len(),
            text_order(a@, b@) == text_order(a@.skip(i as int), b@.skip(i as int)),
        decreases a@.len() - i,
    {
        if i == a.len() {
            if i == b.len() {
                return 0;
            }
            return -1;
        }
        if i == b.len() {
            return 1;
        }
        if a[i] < b[i] {
            return -1;
        }
        if b[i] < a[i] {
            return 1;
        }
        assert(a@.skip(i as int).drop_first() =~= a@.skip(i + 1));
        assert(b@.skip(i as int).drop_first() =~= b@.skip(i + 1));
        i += 1;
    }
}

/// `key_order` of two component keys.
fn key_order_exec(a: &(u8, Vec<char>, Vec<char>), b: &(u8, Vec<char>, Vec<char>)) -> (r: i8)
    ensures
        r as int == key_order(a.deep_view(), b.deep_view()),
{
    if a.0 < b.0 {
        return -1;
    }
    if b.0 < a.0 {
        return 1;
    }
    let c = text_order_exec(&a.1, &b.1);
    if c != 0 {
        return c;
    }
    text_order_exec(&a.2, &b.2)
}

/// `keys_order` of two key lists.
fn keys_order_exec(a: &Vec<(u8, Vec<char>, Vec<char>)>, b: &Vec<(u8, Vec<char>, Vec<char>)>) -> (r: i8)
    ensures
        r as int == keys_order(a.deep_view(), b.deep_view()),
{
    let ghost av = a.deep_view();
    let ghost bv = b.deep_view();
    let mut i: usize = 0;
    assert(av.skip(0) =~= av);
    assert(bv.skip(0) =~= bv);
    loop
        invariant
            i <= av.len(),
            i <= bv.len(),
            av == a.deep_view(),
            bv == b.deep_view(),
            keys_order(av, bv) == keys_order(av.skip(i as int), bv.skip(i as int)),
        decreases av.len() - i,
    {
        if i == a.len() {
            if i == b.len() {
                return 0;
            }
            return -1;
        }
        if i == b.len() {
            return 1;
        }
        assert(av[i as int] == a@[i as int].deep_view());
        assert(bv[i as int] == b@[i as int].deep_view());
        let c = key_order_exec(&a[i], &b[i]);
        if c != 0 {
            return c;
        }
        assert(av.skip(i as int).drop_first() =~= av.skip(i + 1));
        assert(bv.skip(i as int).drop_first() =~= bv.skip(i + 1));
        i += 1;
    }
}

/// The paths sorted by path order, each path once: of paths that are the same
/// path, the first one given is kept.
pub fn sorted_unique_paths(paths: &Vec<String>) -> (r: Vec<String>)
    ensures
        sorted_unique_of(r.deep_view(), paths.deep_view()),
        r.deep_view() == sorted_unique(paths.deep_view()),
{
    let ghost ps = paths.deep_view();
    let mut r: Vec<String> = Vec::new();
    let mut keys: Vec<Vec<(u8, Vec<char>, Vec<char>)>> = Vec::new();
    let ghost mut origin: Seq<int> = Seq::empty();
    let mut m: usize = 0;
    while m < paths.len()
        invariant
            m <= ps.len(),
            ps == paths.deep_view(),
            r@.len() == keys@.len(),
            r@.len() == origin.len(),
            forall|i: int| 0 <= i < keys@.len() ==> #[trigger] keys@[i].deep_view() == path_key(r@[i]@),
            forall|i: int, j: int| 0 <= i < j < r@.len() ==> path_order(#[trigger] r@[i]@, #[trigger] r@[j]@) < 0,
            forall|i: int|
                0 <= i < r@.len() ==> 0 <= #[trigger] origin[i] < m && ps[origin[i]] == r@[i]@ && first_of_kind(
                    ps,
                    origin[i],
                ),
            forall|k: int|
                #![trigger ps[k]]
                0 <= k < m ==> exists|i: int| #![trigger r@[i]] 0 <= i < r@.len() && same_path(r@[i]@, ps[k]),
        decreases ps.len() - m,
    {
        let x = chars_of(paths[m].as_str());
        assert(x@ == ps[m as int]);
        let key = path_key_of(&x);
        let mut j: usize = 0;
        let mut equal = false;
        while j < keys.len()
            invariant_except_break
                !equal,
                forall|i: int| 0 <= i < j ==> path_order(ps[m as int], #[trigger] r@[i]@) > 0,
            invariant
                j <= keys@.len(),
                r@.len() == keys@.len(),
                key.deep_view() == path_key(ps[m as int]),
                forall|i: int| 0 <= i < keys@.len() ==> #[trigger] keys@[i].deep_view() == path_key(r@[i]@),
            ensures
                equal ==> j < r@.len() && same_path(r@[j as int]@, ps[m as int]),
                !equal ==> forall|i: int| 0 <= i < j ==> path_order(ps[m as int], #[trigger] r@[i]@) > 0,
                !equal ==> (j == r@.len() || path_order(ps[m as int], r@[j as int]@) < 0),
            decreases keys@.len() - j,
        {
            assert(keys@[j as int].deep_view() == path_key(r@[j as int]@));
            let c = keys_order_exec(&key, &keys[j]);
            if c == 0 {
                proof {
                    lemma_path_order(ps[m as int], r@[j as int]@);
                }
                equal = true;
                break;
            }
            if c < 0 {
                break;
            }
            j += 1;
        }
        let ghost rv = r@;
        if equal {
            proof {
                assert forall|k: int| #![trigger ps[k]] 0 <= k < m + 1 implies exists|i: int|
                    #![trigger r@[i]]
                    0 <= i < r@.len() && same_path(r@[i]@, ps[k]) by {
                    if k == m {
                        assert(same_path(r@[j as int]@, ps[k]));
                    }
                }
            }
        } else {
            proof {
                assert forall|i: int| 0 <= i < rv.len() implies !same_path(rv[i]@, ps[m as int]) by {
                    lemma_path_order(ps[m as int], rv[i]@);
                    if i >= j {
                        lemma_path_order(ps[m as int], rv[j as int]@);
                        if i > j {
                            lemma_path_order_trans(ps[m as int], rv[j as int]@, rv[i]@);
                        }
                    }
                }
                assert forall|k: int| 0 <= k < m implies !same_path(#[trigger] ps[k], ps[m as int]) by {
                    let i = choose|i: int| #![trigger rv[i]] 0 <= i < rv.len() && same_path(rv[i]@, ps[k]);
                }
            }
            let p = paths[m].clone();
            assert(p@ == ps[m as int]);
            let ghost ko = keys@;
            let ghost og = origin;
            r.insert(j, p);
            keys.insert(j, key);
            proof {
                origin = og.insert(j as int, m as int);
                let x = ps[m as int];
                assert(r@ == rv.insert(j as int, p));
                assert(keys@ == ko.insert(j as int, key));
                assert forall|i: int| 0 <= i < keys@.len() implies #[trigger] keys@[i].deep_view()
                    == path_key(r@[i]@) by {
                    if i > j {
                        assert(keys@[i] == ko[i - 1]);
                        assert(r@[i] == rv[i - 1]);
                    } else if i < j {
                        assert(keys@[i] == ko[i]);
                        assert(r@[i] == rv[i]);
                    }
                }
                assert forall|a: int, b: int| 0 <= a < b < r@.len() implies path_order(
                    #[trigger] r@[a]@,
                    #[trigger] r@[b]@,
                ) < 0 by {
                    if a < j && b < j {
                        assert(r@[a] == rv[a] && r@[b] == rv[b]);
                    } else if a > j {
                        assert(r@[a] == rv[a - 1] && r@[b] == rv[b - 1]);
                    } else if a < j && b > j {
                        assert(r@[a] == rv[a] && r@[b] == rv[b - 1]);
                    } else if a == j {
                        assert(r@[b] == rv[b - 1]);
                        if b - 1 > j {
                            lemma_path_order_trans(x, rv[j as int]@, rv[b - 1]@);
                        }
                    } else {
                        assert(r@[a] == rv[a]);
                        lemma_path_order(x, rv[a]@);
                    }
                }
                assert forall|i: int| 0 <= i < r@.len() implies 0 <= #[trigger] origin[i] < m + 1 && ps[origin[i]]
                    == r@[i]@ && first_of_kind(ps, origin[i]) by {
                    if i > j {
                        assert(origin[i] == og[i - 1]);
                        assert(r@[i] == rv[i - 1]);
                    } else if i < j {
                        assert(origin[i] == og[i]);
                        assert(r@[i] == rv[i]);
                    }
                }
                assert forall|k: int| #![trigger ps[k]] 0 <= k < m + 1 implies exists|i: int|
                    #![trigger r@[i]]
                    0 <= i < r@.len() && same_path(r@[i]@, ps[k]) by {
                    if k == m {
                        assert(same_path(r@[j as int]@, ps[k]));
                    } else {
                        let i = choose|i: int| #![trigger rv[i]] 0 <= i < rv.len() && same_path(rv[i]@, ps[k]);
                        if i < j {
                            assert(r@[i] == rv[i]);
                            assert(same_path(r@[i]@, ps[k]));
                        } else {
                            assert(r@[i + 1] == rv[i]);
                            assert(same_path(r@[i + 1]@, ps[k]));
                        }
                    }
                }
            }
        }
        m += 1;
    }
    proof {
        let rd = r.deep_view();
        assert(rd.len() == r@.len());
        assert forall|i: int| 0 <= i < rd.len() implies #[trigger] rd[i] == r@[i]@ by {}
        assert forall|i: int, j: int| 0 <= i < j < rd.len() implies path_order(#[trigger] rd[i], #[trigger] rd[j])
            < 0 by {
            assert(rd[i] == r@[i]@ && rd[j] == r@[j]@);
        }
        assert forall|k: int| 0 <= k < ps.len() implies has_same_path(rd, #[trigger] ps[k]) by {
            let i = choose|i: int| #![trigger r@[i]] 0 <= i < r@.len() && same_path(r@[i]@, ps[k]);
            assert(rd[i] == r@[i]@);
        }
        assert forall|i: int| 0 <= i < rd.len() implies first_in(ps, #[trigger] rd[i]) by {
            assert(rd[i] == r@[i]@);
            assert(ps[origin[i]] == rd[i]);
        }
        assert(sorted_unique_of(rd, ps));
        lemma_sorted_unique_determined(rd, sorted_unique(ps), ps);
    }
    r
}

} // verus!
