//! Windows paths read as components, the way the standard library's `Path`
//! reads them: an optional prefix (verbatim `\\?\...`, device `\\.\...`, UNC
//! `\\server\share` or a drive `C:`), an optional root, then the parts between
//! separators.
use vstd::prelude::*;

use crate::text::{ascii_lower, copy_range, lower_char, non_empty, split_chars, split_on};

verus! {

broadcast use crate::lemma_char_vec_deep_view;

/// `/` read as `\`.
pub open spec fn unify_sep(c: char) -> char {
    if c == '/' {
        '\\'
    } else {
        c
    }
}

/// A path separator: `\` or `/`.
pub open spec fn is_separator(c: char) -> bool {
    c == '\\' || c == '/'
}

/// A separator inside a path: only `\` after a verbatim prefix.
pub open spec fn is_separator_in(c: char, verbatim: bool) -> bool {
    if verbatim {
        c == '\\'
    } else {
        is_separator(c)
    }
}

/// An ASCII letter.
pub open spec fn is_ascii_letter(c: char) -> bool {
    ('A' <= c && c <= 'Z') || ('a' <= c && c <= 'z')
}

/// The `i`-th character of `p` with `/` read as `\`.
pub open spec fn lead(p: Seq<char>, i: int) -> char {
    unify_sep(p[i])
}

/// Where the first separator is in `s`, or its length.
pub open spec fn first_separator(s: Seq<char>, verbatim: bool) -> int
    decreases s.len(),
{
    if s.len() == 0 {
        0
    } else if is_separator_in(s[0], verbatim) {
        0
    } else {
        1 + first_separator(s.drop_first(), verbatim)
    }
}

/// The text before the first separator of `s`, and the text after it (empty
/// when there is no separator).
pub open spec fn next_component(s: Seq<char>, verbatim: bool) -> (Seq<char>, Seq<char>) {
    let i = first_separator(s, verbatim);
    if i < s.len() {
        (s.take(i), s.skip(i + 1))
    } else {
        (s, Seq::<char>::empty())
    }
}

/// The prefix of a Windows path. The variants stand in the order in which
/// prefixes compare; a drive letter is kept in lower case, as drive letters
/// compare without case.
pub enum PathPrefix {
    /// `\\?\name`
    Verbatim(Seq<char>),
    /// `\\?\UNC\server\share`
    VerbatimUnc(Seq<char>, Seq<char>),
    /// `\\?\C:`
    VerbatimDisk(char),
    /// `\\.\name`
    DeviceNs(Seq<char>),
    /// `\\server\share`
    Unc(Seq<char>, Seq<char>),
    /// `C:`
    Disk(char),
}

/// The prefix of `p`, if it has one, and how many characters it takes.
pub open spec fn parse_prefix(p: Seq<char>) -> Option<(PathPrefix, int)> {
    if p.len() >= 2 && lead(p, 0) == '\\' && lead(p, 1) == '\\' {
        if p.len() >= 4 && p[0] == '\\' && p[1] == '\\' && p[2] == '?' && p[3] == '\\' {
            if p.len() >= 8 && p[4] == 'U' && p[5] == 'N' && p[6] == 'C' && lead(p, 7) == '\\' {
                let (server, r) = next_component(p.skip(8), true);
                let (share, _u) = next_component(r, true);
                Some(
                    (
                        PathPrefix::VerbatimUnc(server, share),
                        8 + server.len() + if share.len() > 0 {
                            1 + share.len() as int
                        } else {
                            0int
                        },
                    ),
                )
            } else {
                let rest = p.skip(4);
                if rest.len() >= 2 && is_ascii_letter(rest[0]) && rest[1] == ':' && (rest.len() == 2
                    || rest[2] == '\\') {
                    Some((PathPrefix::VerbatimDisk(ascii_lower(rest[0])), 6))
                } else {
                    let (x, _u) = next_component(rest, true);
                    Some((PathPrefix::Verbatim(x), 4 + x.len() as int))
                }
            }
        } else if p.len() >= 4 && p[2] == '.' && lead(p, 3) == '\\' {
            let (x, _u) = next_component(p.skip(4), false);
            Some((PathPrefix::DeviceNs(x), 4 + x.len() as int))
        } else {
            let (server, r) = next_component(p.skip(2), false);
            let (share, _u) = next_component(r, false);
            if server.len() > 0 && share.len() > 0 {
                Some((PathPrefix::Unc(server, share), 3 + server.len() + share.len() as int))
            } else {
                None
            }
        }
    } else if p.len() >= 2 && is_ascii_letter(p[0]) && p[1] == ':' {
        Some((PathPrefix::Disk(ascii_lower(p[0])), 2))
    } else {
        None
    }
}

/// A verbatim prefix: inside it, only `\` separates and `.` is kept.
pub open spec fn is_verbatim_prefix(pre: PathPrefix) -> bool {
    pre is Verbatim || pre is VerbatimUnc || pre is VerbatimDisk
}

/// A drive prefix: it has no root of its own.
pub open spec fn is_drive_prefix(pre: PathPrefix) -> bool {
    pre is VerbatimDisk || pre is Disk
}

/// One component of a path, in the order in which component kinds compare.
pub enum PathComponent {
    Prefix(PathPrefix),
    RootDir,
    CurDir,
    ParentDir,
    Normal(Seq<char>),
}

/// The parts of a path's body between separators.
pub open spec fn split_body(body: Seq<char>, verbatim: bool) -> Seq<Seq<char>> {
    if verbatim {
        split_on(body, '\\')
    } else {
        split_on(body.map_values(|c: char| unify_sep(c)), '\\')
    }
}

/// The components of the body's parts: empty parts are left out, `.` is left
/// out (kept after a verbatim prefix), `..` is a parent component.
pub open spec fn body_components(parts: Seq<Seq<char>>, verbatim: bool) -> Seq<PathComponent>
    decreases parts.len(),
{
    if parts.len() == 0 {
        seq![]
    } else {
        let init = body_components(parts.drop_last(), verbatim);
        let c = parts.last();
        if c.len() == 0 {
            init
        } else if c == seq!['.'] {
            if verbatim {
                init.push(PathComponent::CurDir)
            } else {
                init
            }
        } else if c == seq!['.', '.'] {
            init.push(PathComponent::ParentDir)
        } else {
            init.push(PathComponent::Normal(c))
        }
    }
}

/// The components of a path: its prefix; a root when a separator follows the
/// prefix (or implicitly after a UNC or device prefix); or, with neither prefix
/// nor root, a leading `.` part; then the components of the rest.
pub open spec fn path_components(p: Seq<char>) -> Seq<PathComponent> {
    match parse_prefix(p) {
        Some((pre, n)) => {
            let after = p.skip(n);
            let verbatim = is_verbatim_prefix(pre);
            let physical = after.len() > 0 && is_separator(after[0]);
            let root: Seq<PathComponent> = if physical || (!is_drive_prefix(pre) && !verbatim) {
                seq![PathComponent::RootDir]
            } else {
                seq![]
            };
            let body = if physical {
                after.drop_first()
            } else {
                after
            };
            seq![PathComponent::Prefix(pre)] + root + body_components(split_body(body, verbatim), verbatim)
        },
        None => {
            let physical = p.len() > 0 && is_separator(p[0]);
            let cur = !physical && p.len() > 0 && p[0] == '.' && (p.len() == 1 || is_separator(p[1]));
            let head: Seq<PathComponent> = if physical {
                seq![PathComponent::RootDir]
            } else if cur {
                seq![PathComponent::CurDir]
            } else {
                seq![]
            };
            let body = if physical || cur {
                p.drop_first()
            } else {
                p
            };
            head + body_components(split_body(body, false), false)
        },
    }
}

/// A component as a key (kind, text, text) that orders as components do:
/// kinds by their order, then the texts.
pub open spec fn component_key(c: PathComponent) -> (u8, Seq<char>, Seq<char>) {
    let e = Seq::<char>::empty();
    match c {
        PathComponent::Prefix(pre) => match pre {
            PathPrefix::Verbatim(x) => (0u8, x, e),
            PathPrefix::VerbatimUnc(x, y) => (1u8, x, y),
            PathPrefix::VerbatimDisk(d) => (2u8, seq![d], e),
            PathPrefix::DeviceNs(x) => (3u8, x, e),
            PathPrefix::Unc(x, y) => (4u8, x, y),
            PathPrefix::Disk(d) => (5u8, seq![d], e),
        },
        PathComponent::RootDir => (6u8, e, e),
        PathComponent::CurDir => (7u8, e, e),
        PathComponent::ParentDir => (8u8, e, e),
        PathComponent::Normal(x) => (9u8, x, e),
    }
}

/// The keys of a path's components.
pub open spec fn path_key(p: Seq<char>) -> Seq<(u8, Seq<char>, Seq<char>)> {
    path_components(p).map_values(|c: PathComponent| component_key(c))
}

/// Different components have different keys.
pub proof fn lemma_component_key_injective(a: PathComponent, b: PathComponent)
    requires
        component_key(a) == component_key(b),
    ensures
        a == b,
{
    match a {
        PathComponent::Prefix(PathPrefix::VerbatimDisk(d)) => {
            assert(component_key(b).1[0] == d);
        },
        PathComponent::Prefix(PathPrefix::Disk(d)) => {
            assert(component_key(b).1[0] == d);
        },
        _ => {},
    }
}

/// Paths with the same keys have the same components.
pub proof fn lemma_path_key_injective(a: Seq<char>, b: Seq<char>)
    requires
        path_key(a) == path_key(b),
    ensures
        path_components(a) == path_components(b),
{
    let ca = path_components(a);
    let cb = path_components(b);
    assert(ca.len() == path_key(a).len());
    assert forall|i: int| 0 <= i < ca.len() implies ca[i] == cb[i] by {
        assert(path_key(a)[i] == component_key(ca[i]));
        assert(path_key(b)[i] == component_key(cb[i]));
        lemma_component_key_injective(ca[i], cb[i]);
    }
    assert(ca =~= cb);
}

proof fn lemma_first_separator(s: Seq<char>, verbatim: bool)
    ensures
        0 <= first_separator(s, verbatim) <= s.len(),
        first_separator(s, verbatim) < s.len() ==> is_separator_in(s[first_separator(s, verbatim)], verbatim),
        forall|k: int| 0 <= k < first_separator(s, verbatim) ==> !is_separator_in(#[trigger] s[k], verbatim),
    decreases s.len(),
{
    if s.len() > 0 && !is_separator_in(s[0], verbatim) {
        lemma_first_separator(s.drop_first(), verbatim);
        assert forall|k: int| 0 <= k < first_separator(s, verbatim) implies !is_separator_in(#[trigger] s[k], verbatim) by {
            if k > 0 {
                assert(s[k] == s.drop_first()[k - 1]);
            }
        }
    }
}

/// The lengths of the two parts of `next_component`.
pub proof fn lemma_next_component(s: Seq<char>, verbatim: bool)
    ensures
        next_component(s, verbatim).0.len() <= s.len(),
        next_component(s, verbatim).1.len() > 0 ==> next_component(s, verbatim).0.len() + 1
            + next_component(s, verbatim).1.len() == s.len(),
{
    lemma_first_separator(s, verbatim);
}

/// A prefix takes no more characters than the path has.
pub proof fn lemma_prefix_len(p: Seq<char>)
    ensures
        parse_prefix(p) matches Some((pre, n)) ==> 0 <= n <= p.len(),
{
    if p.len() >= 4 {
        lemma_next_component(p.skip(4), true);
        lemma_next_component(p.skip(4), false);
    }
    if p.len() >= 8 {
        let (server, r) = next_component(p.skip(8), true);
        lemma_next_component(p.skip(8), true);
        lemma_next_component(r, true);
    }
    if p.len() >= 2 {
        let (server, r) = next_component(p.skip(2), false);
        lemma_next_component(p.skip(2), false);
        lemma_next_component(r, false);
    }
}

/// Where the first separator is in `s`.
fn first_separator_exec(s: &Vec<char>, verbatim: bool) -> (r: usize)
    ensures
        r == first_separator(s@, verbatim),
        r <= s@.len(),
{
    let mut i: usize = 0;
    assert(s@.skip(0) =~= s@);
    while i < s.len() && !(s[i] == '\\' || (!verbatim && s[i] == '/'))
        invariant
            i <= s@.len(),
            first_separator(s@, verbatim) == i + first_separator(s@.skip(i as int), verbatim),
        decreases s@.len() - i,
    {
        assert(s@.skip(i as int).drop_first() =~= s@.skip(i + 1));
        i += 1;
    }
    if i < s.len() {
        assert(s@.skip(i as int)[0] == s@[i as int]);
    }
    i
}

/// The text before the first separator and the text after it.
fn next_component_exec(s: &Vec<char>, verbatim: bool) -> (r: (Vec<char>, Vec<char>))
    ensures
        (r.0@, r.1@) == next_component(s@, verbatim),
{
    let i = first_separator_exec(s, verbatim);
    if i < s.len() {
        let a = copy_range(s, 0, i);
        let b = copy_range(s, i + 1, s.len());
        assert(a@ =~= s@.take(i as int));
        assert(b@ =~= s@.skip(i + 1));
        (a, b)
    } else {
        let a = copy_range(s, 0, s.len());
        assert(a@ =~= s@);
        (a, Vec::new())
    }
}

/// `c` is `\` or `/`.
fn is_separator_exec(c: char) -> (b: bool)
    ensures
        b == is_separator(c),
{
    c == '\\' || c == '/'
}

/// `c` is an ASCII letter.
fn is_ascii_letter_exec(c: char) -> (b: bool)
    ensures
        b == is_ascii_letter(c),
{
    ('A' <= c && c <= 'Z') || ('a' <= c && c <= 'z')
}

/// The key of the prefix of `p`, with how many characters it takes and whether
/// it is verbatim and whether it is a drive.
fn parse_prefix_exec(p: &Vec<char>) -> (r: Option<((u8, Vec<char>, Vec<char>), usize, bool, bool)>)
    ensures
        r is Some == parse_prefix(p@) is Some,
        r matches Some((k, n, verbatim, drive)) ==> ({
            let (pre, m) = parse_prefix(p@)->0;
            &&& k.deep_view() == component_key(PathComponent::Prefix(pre))
            &&& n == m
            &&& verbatim == is_verbatim_prefix(pre)
            &&& drive == is_drive_prefix(pre)
        }),
{
    proof {
        lemma_prefix_len(p@);
    }
    let len = p.len();
    if len >= 2 && is_separator_exec(p[0]) && is_separator_exec(p[1]) {
        if len >= 4 && p[0] == '\\' && p[1] == '\\' && p[2] == '?' && p[3] == '\\' {
            if len >= 8 && p[4] == 'U' && p[5] == 'N' && p[6] == 'C' && is_separator_exec(p[7]) {
                let rest = copy_range(p, 8, len);
                assert(rest@ =~= p@.skip(8));
                let (server, r) = next_component_exec(&rest, true);
                let (share, _u) = next_component_exec(&r, true);
                proof {
                    lemma_next_component(rest@, true);
                    lemma_next_component(r@, true);
                }
                let n = if share.len() > 0 {
                    8 + server.len() + 1 + share.len()
                } else {
                    8 + server.len()
                };
                Some(((1u8, server, share), n, true, false))
            } else {
                let rest = copy_range(p, 4, len);
                assert(rest@ =~= p@.skip(4));
                if rest.len() >= 2 && is_ascii_letter_exec(rest[0]) && rest[1] == ':' && (rest.len() == 2
                    || rest[2] == '\\') {
                    let d = vec![lower_char(rest[0])];
                    assert(d@ =~= seq![ascii_lower(rest@[0])]);
                    Some(((2u8, d, Vec::new()), 6, true, true))
                } else {
                    let (x, _u) = next_component_exec(&rest, true);
                    proof {
                        lemma_next_component(rest@, true);
                    }
                    let n = 4 + x.len();
                    Some(((0u8, x, Vec::new()), n, true, false))
                }
            }
        } else if len >= 4 && p[2] == '.' && is_separator_exec(p[3]) {
            let rest = copy_range(p, 4, len);
            assert(rest@ =~= p@.skip(4));
            let (x, _u) = next_component_exec(&rest, false);
            proof {
                lemma_next_component(rest@, false);
            }
            let n = 4 + x.len();
            Some(((3u8, x, Vec::new()), n, false, false))
        } else {
            let rest = copy_range(p, 2, len);
            assert(rest@ =~= p@.skip(2));
            let (server, r) = next_component_exec(&rest, false);
            let (share, _u) = next_component_exec(&r, false);
            proof {
                lemma_next_component(rest@, false);
                lemma_next_component(r@, false);
            }
            if server.len() > 0 && share.len() > 0 {
                let n = 3 + server.len() + share.len();
                Some(((4u8, server, share), n, false, false))
            } else {
                None
            }
        }
    } else if len >= 2 && is_ascii_letter_exec(p[0]) && p[1] == ':' {
        let d = vec![lower_char(p[0])];
        assert(d@ =~= seq![ascii_lower(p@[0])]);
        Some(((5u8, d, Vec::new()), 2, false, true))
    } else {
        None
    }
}

/// `p` with `/` read as `\`.
pub(crate) fn unify_separators(p: &Vec<char>) -> (q: Vec<char>)
    ensures
        q@ == p@.map_values(|c: char| unify_sep(c)),
{
    let mut q: Vec<char> = Vec::new();
    let mut i: usize = 0;
    while i < p.len()
        invariant
            i <= p@.len(),
            q@ == p@.take(i as int).map_values(|c: char| unify_sep(c)),
        decreases p@.len() - i,
    {
        let c = p[i];
        q.push(if c == '/' {
            '\\'
        } else {
            c
        });
        assert(q@ =~= p@.take(i + 1).map_values(|c: char| unify_sep(c)));
        i += 1;
    }
    assert(p@.take(p@.len() as int) =~= p@);
    q
}

/// The parts of a body between separators.
fn split_body_exec(body: &Vec<char>, verbatim: bool) -> (r: Vec<Vec<char>>)
    ensures
        r.deep_view() == split_body(body@, verbatim),
{
    if verbatim {
        split_chars(body, '\\')
    } else {
        split_chars(&unify_separators(body), '\\')
    }
}

/// Appends the keys of the body's components.
fn push_body_keys(keys: &mut Vec<(u8, Vec<char>, Vec<char>)>, parts: &Vec<Vec<char>>, verbatim: bool)
    ensures
        final(keys).deep_view() == old(keys).deep_view() + body_components(parts.deep_view(), verbatim).map_values(
            |c: PathComponent| component_key(c),
        ),
{
    let ghost ps = parts.deep_view();
    let ghost start = old(keys).deep_view();
    let mut i: usize = 0;
    assert(ps.take(0) =~= Seq::<Seq<char>>::empty());
    assert(start + body_components(ps.take(0), verbatim).map_values(|c: PathComponent| component_key(c)) =~= start);
    while i < parts.len()
        invariant
            i <= ps.len(),
            ps == parts.deep_view(),
            start == old(keys).deep_view(),
            keys.deep_view() == start + body_components(ps.take(i as int), verbatim).map_values(
                |c: PathComponent| component_key(c),
            ),
        decreases ps.len() - i,
    {
        let ghost before = keys.deep_view();
        let ghost init = body_components(ps.take(i as int), verbatim);
        let c = &parts[i];
        assert(c@ == ps[i as int]);
        assert(ps.take(i + 1).drop_last() =~= ps.take(i as int));
        assert(ps.take(i + 1).last() == ps[i as int]);
        let one = c.len() == 1 && c[0] == '.';
        let two = c.len() == 2 && c[0] == '.' && c[1] == '.';
        proof {
            if c@ == seq!['.'] {
                assert(c@.len() == 1);
            }
            if c@ == seq!['.', '.'] {
                assert(c@.len() == 2);
            }
            if one {
                assert(c@ =~= seq!['.']);
            }
            if two {
                assert(c@ =~= seq!['.', '.']);
            }
        }
        let ghost e = Seq::<char>::empty();
        if c.len() == 0 {
        } else if one {
            if verbatim {
                keys.push((7u8, Vec::new(), Vec::new()));
                assert(keys.deep_view() =~= before.push((7u8, e, e)));
            }
        } else if two {
            keys.push((8u8, Vec::new(), Vec::new()));
            assert(keys.deep_view() =~= before.push((8u8, e, e)));
        } else {
            keys.push((9u8, c.clone(), Vec::new()));
            assert(keys.deep_view() =~= before.push((9u8, c@, e)));
        }
        proof {
            let next = body_components(ps.take(i + 1), verbatim);
            assert(next.map_values(|c: PathComponent| component_key(c)) =~= if next.len() == init.len() {
                init.map_values(|c: PathComponent| component_key(c))
            } else {
                init.map_values(|c: PathComponent| component_key(c)).push(component_key(next.last()))
            });
            assert(keys.deep_view() =~= start + next.map_values(|c: PathComponent| component_key(c)));
        }
        i += 1;
    }
    assert(ps.take(ps.len() as int) =~= ps);
}

/// The keys of the components of `p`.
pub fn path_key_of(p: &Vec<char>) -> (r: Vec<(u8, Vec<char>, Vec<char>)>)
    ensures
        r.deep_view() == path_key(p@),
{
    let mut keys: Vec<(u8, Vec<char>, Vec<char>)> = Vec::new();
    match parse_prefix_exec(p) {
        Some((k, n, verbatim, drive)) => {
            let ghost parsed = parse_prefix(p@)->0;
            let ghost pre = parsed.0;
            proof {
                lemma_prefix_len(p@);
            }
            keys.push(k);
            let ghost head = keys.deep_view();
            let after = copy_range(p, n, p.len());
            assert(after@ =~= p@.skip(n as int));
            let physical = after.len() > 0 && is_separator_exec(after[0]);
            let with_root = physical || (!drive && !verbatim);
            if with_root {
                keys.push((6u8, Vec::new(), Vec::new()));
            }
            let ghost root: Seq<PathComponent> = if with_root {
                seq![PathComponent::RootDir]
            } else {
                seq![]
            };
            assert(keys.deep_view() =~= (seq![PathComponent::Prefix(pre)] + root).map_values(
                |c: PathComponent| component_key(c),
            ));
            let body = if physical {
                copy_range(&after, 1, after.len())
            } else {
                copy_range(&after, 0, after.len())
            };
            assert(body@ =~= if physical {
                after@.drop_first()
            } else {
                after@
            });
            let parts = split_body_exec(&body, verbatim);
            push_body_keys(&mut keys, &parts, verbatim);
            assert(keys.deep_view() =~= (seq![PathComponent::Prefix(pre)] + root + body_components(
                split_body(body@, verbatim),
                verbatim,
            )).map_values(|c: PathComponent| component_key(c)));
        },
        None => {
            let len = p.len();
            let physical = len > 0 && is_separator_exec(p[0]);
            let cur = !physical && len > 0 && p[0] == '.' && (len == 1 || is_separator_exec(p[1]));
            if physical {
                keys.push((6u8, Vec::new(), Vec::new()));
            } else if cur {
                keys.push((7u8, Vec::new(), Vec::new()));
            }
            let ghost head: Seq<PathComponent> = if physical {
                seq![PathComponent::RootDir]
            } else if cur {
                seq![PathComponent::CurDir]
            } else {
                seq![]
            };
            assert(keys.deep_view() =~= head.map_values(|c: PathComponent| component_key(c)));
            let body = if physical || cur {
                copy_range(p, 1, len)
            } else {
                copy_range(p, 0, len)
            };
            assert(body@ =~= if physical || cur {
                p@.drop_first()
            } else {
                p@
            });
            let parts = split_body_exec(&body, false);
            push_body_keys(&mut keys, &parts, false);
            assert(keys.deep_view() =~= (head + body_components(split_body(body@, false), false)).map_values(
                |c: PathComponent| component_key(c),
            ));
        },
    }
    keys
}

/// The parts of a relative path between separators (`\` or `/`), without the
/// empty ones.
pub open spec fn rel_parts(p: Seq<char>) -> Seq<Seq<char>> {
    non_empty(split_on(p.map_values(|c: char| unify_sep(c)), '\\'))
}

/// The parts of a relative path.
pub fn rel_parts_of(p: &Vec<char>) -> (r: Vec<Vec<char>>)
    ensures
        r.deep_view() == rel_parts(p@),
{
    let pieces = split_chars(&unify_separators(p), '\\');
    non_empty_pieces(&pieces)
}

/// The pieces that are not empty, in order.
pub(crate) fn non_empty_pieces(pieces: &Vec<Vec<char>>) -> (r: Vec<Vec<char>>)
    ensures
        r.deep_view() == non_empty(pieces.deep_view()),
{
    let ghost ps = pieces.deep_view();
    let mut r: Vec<Vec<char>> = Vec::new();
    let mut k: usize = 0;
    assert(ps.take(0) =~= Seq::<Seq<char>>::empty());
    assert(r.deep_view() =~= Seq::<Seq<char>>::empty());
    while k < pieces.len()
        invariant
            k <= ps.len(),
            ps == pieces.deep_view(),
            r.deep_view() == non_empty(ps.take(k as int)),
        decreases ps.len() - k,
    {
        assert(ps.take(k + 1).drop_last() =~= ps.take(k as int));
        assert(ps.take(k + 1).last() == pieces@[k as int]@);
        if pieces[k].len() > 0 {
            let piece = pieces[k].clone();
            assert(piece@ == pieces@[k as int]@);
            let ghost before = r.deep_view();
            r.push(piece);
            assert(r.deep_view() =~= before.push(piece@));
        }
        k += 1;
    }
    assert(ps.take(ps.len() as int) =~= ps);
    r
}

} // verus!
