//! Where Edge shortcuts and Edge's executable are looked for. The directories
//! themselves come from the environment and the file system; this module
//! composes the candidate paths from them.
use vstd::prelude::*;

use crate::path_order::{has_same_path, sorted_unique, sorted_unique_of, sorted_unique_paths};
use crate::path_parse::{non_empty_pieces, rel_parts, rel_parts_of};
use crate::registry::{non_blank, opt_view};
use crate::targets::{names_of, ShortcutTarget, ShortcutTargetSelection};
use crate::text::{
    append_chars, chars_of, copy_range, eq_ignore_ascii_case, eq_ignore_case, join, join_chars, non_empty,
    split_chars, split_on, string_from_chars, trim_chars,
};

verus! {

broadcast use crate::lemma_char_vec_deep_view;

/// A path separator.
pub open spec fn is_sep(c: char) -> bool {
    c == '\\' || c == '/'
}

/// A bare drive such as `C:`.
pub open spec fn is_bare_drive(p: Seq<char>) -> bool {
    p.len() == 2 && p[1] == ':' && (('A' <= p[0] && p[0] <= 'Z') || ('a' <= p[0] && p[0] <= 'z'))
}

/// The verbatim prefix `\\?\`.
pub open spec fn verbatim_mark() -> Seq<char> {
    seq!['\\', '\\', '?', '\\']
}

/// `base` begins with the verbatim prefix `\\?\`.
pub open spec fn is_verbatim(base: Seq<char>) -> bool {
    base.len() >= 4 && base.take(4) == verbatim_mark()
}

/// Where the first `\` is in `s`, or its length.
pub open spec fn first_backslash(s: Seq<char>) -> int
    decreases s.len(),
{
    if s.len() == 0 {
        0
    } else if s[0] == '\\' {
        0
    } else {
        1 + first_backslash(s.drop_first())
    }
}

/// A component other than `.` and `..`.
pub open spec fn is_normal_component(c: Seq<char>) -> bool {
    c != seq!['.'] && c != seq!['.', '.']
}

/// The components after adding component `c`: `.` adds nothing, `..` takes
/// away the last component when it is a normal one, any other is added.
pub open spec fn add_component(buf: Seq<Seq<char>>, c: Seq<char>) -> Seq<Seq<char>> {
    if c == seq!['.'] {
        buf
    } else if c == seq!['.', '.'] {
        if buf.len() > 0 && is_normal_component(buf.last()) {
            buf.drop_last()
        } else {
            buf
        }
    } else {
        buf.push(c)
    }
}

/// The components after adding the components `cs` in order.
pub open spec fn add_components(buf: Seq<Seq<char>>, cs: Seq<Seq<char>>) -> Seq<Seq<char>>
    decreases cs.len(),
{
    if cs.len() == 0 {
        buf
    } else {
        add_components(add_component(buf, cs[0]), cs.drop_first())
    }
}

/// `rel` under a base with a verbatim prefix, rebuilt from components: the
/// prefix is `\\?\` and the name after it (up to the next `\`); a `\` after it
/// is the root; the base's other components are its non-empty parts between
/// `\` (in a verbatim path `/` is no separator); `rel`'s components (split at
/// `\` and `/`) are added with `.` and `..` resolved; the components are written
/// with one `\` between them, and after the prefix unless it is a drive (`X:`)
/// or empty.
pub open spec fn verbatim_join(base: Seq<char>, rel: Seq<char>) -> Seq<char> {
    let rest = base.skip(4);
    let f = first_backslash(rest);
    let name = rest.take(f);
    let after = rest.skip(f);
    let head = verbatim_mark() + name;
    let sep_after_prefix = !is_bare_drive(name) && name.len() > 0;
    let root = after.len() > 0;
    let comps = add_components(non_empty(split_on(after, '\\')), rel_parts(rel));
    let body = join(comps, seq!['\\']);
    if root {
        head + seq!['\\'] + body
    } else if comps.len() > 0 && sep_after_prefix {
        head + seq!['\\'] + body
    } else {
        head + body
    }
}

/// The relative path `rel` under `base`. Under a base with a verbatim prefix
/// (`\\?\`) and a non-empty `rel`, the path is rebuilt from its components (see
/// `verbatim_join`). Otherwise a backslash goes between them unless `base` is
/// empty, already ends with a separator, or is a bare drive.
pub open spec fn join_path(base: Seq<char>, rel: Seq<char>) -> Seq<char> {
    if is_verbatim(base) && rel.len() > 0 {
        verbatim_join(base, rel)
    } else if base.len() == 0 || is_sep(base.last()) || is_bare_drive(base) {
        base + rel
    } else {
        base + seq!['\\'] + rel
    }
}

/// Where the first `\` is in `s[from..]`, as an index into `s`.
fn find_backslash(s: &Vec<char>, from: usize) -> (r: usize)
    requires
        from <= s@.len(),
    ensures
        r == from + first_backslash(s@.skip(from as int)),
        from <= r <= s@.len(),
{
    let mut i = from;
    while i < s.len() && s[i] != '\\'
        invariant
            from <= i <= s@.len(),
            first_backslash(s@.skip(from as int)) == (i - from) + first_backslash(s@.skip(i as int)),
        decreases s@.len() - i,
    {
        assert(s@.skip(i as int).drop_first() =~= s@.skip(i + 1));
        i += 1;
    }
    if i < s.len() {
        assert(s@.skip(i as int)[0] == s@[i as int]);
    }
    i
}

/// `add_components` on vectors.
fn add_components_exec(buf: &mut Vec<Vec<char>>, cs: &Vec<Vec<char>>)
    ensures
        final(buf).deep_view() == add_components(old(buf).deep_view(), cs.deep_view()),
{
    let ghost csv = cs.deep_view();
    let mut i: usize = 0;
    assert(csv.skip(0) =~= csv);
    while i < cs.len()
        invariant
            i <= csv.len(),
            csv == cs.deep_view(),
            add_components(old(buf).deep_view(), csv) == add_components(buf.deep_view(), csv.skip(i as int)),
        decreases csv.len() - i,
    {
        let c = &cs[i];
        assert(c@ == csv[i as int]);
        assert(csv.skip(i as int)[0] == csv[i as int]);
        assert(csv.skip(i as int).drop_first() =~= csv.skip(i + 1));
        let ghost before = buf.deep_view();
        let dot = c.len() == 1 && c[0] == '.';
        let dots = c.len() == 2 && c[0] == '.' && c[1] == '.';
        proof {
            if c@ == seq!['.'] {
                assert(c@.len() == 1);
            }
            if c@ == seq!['.', '.'] {
                assert(c@.len() == 2);
            }
            if dot {
                assert(c@ =~= seq!['.']);
            }
            if dots {
                assert(c@ =~= seq!['.', '.']);
            }
        }
        if dot {
        } else if dots {
            let n = buf.len();
            if n > 0 {
                let last = &buf[n - 1];
                assert(last@ == before.last());
                let last_dot = last.len() == 1 && last[0] == '.';
                let last_dots = last.len() == 2 && last[0] == '.' && last[1] == '.';
                proof {
                    if last@ == seq!['.'] {
                        assert(last@.len() == 1);
                    }
                    if last@ == seq!['.', '.'] {
                        assert(last@.len() == 2);
                    }
                    if last_dot {
                        assert(last@ =~= seq!['.']);
                    }
                    if last_dots {
                        assert(last@ =~= seq!['.', '.']);
                    }
                }
                if !last_dot && !last_dots {
                    buf.pop();
                    assert(buf.deep_view() =~= before.drop_last());
                }
            }
        } else {
            buf.push(c.clone());
            assert(buf.deep_view() =~= before.push(c@));
        }
        i += 1;
    }
    assert(csv.skip(csv.len() as int) =~= Seq::<Seq<char>>::empty());
}

/// `rel` under a base with a verbatim prefix.
fn verbatim_join_chars(base: &Vec<char>, rel: &Vec<char>) -> (r: Vec<char>)
    requires
        is_verbatim(base@),
    ensures
        r@ == verbatim_join(base@, rel@),
{
    let ghost rest = base@.skip(4);
    let f = find_backslash(base, 4);
    assert(base@.skip(4) =~= rest);
    let name = copy_range(base, 4, f);
    assert(name@ =~= rest.take(f - 4));
    let after = copy_range(base, f, base.len());
    assert(after@ =~= rest.skip(f - 4));
    let mut r: Vec<char> = vec!['\\', '\\', '?', '\\'];
    assert(r@ =~= verbatim_mark());
    append_chars(&mut r, &name);
    let bare_drive = name.len() == 2 && name[1] == ':' && (('A' <= name[0] && name[0] <= 'Z') || ('a'
        <= name[0] && name[0] <= 'z'));
    let sep_after_prefix = !bare_drive && name.len() > 0;
    let root = after.len() > 0;
    let mut comps = non_empty_pieces(&split_chars(&after, '\\'));
    let rel_comps = rel_parts_of(rel);
    add_components_exec(&mut comps, &rel_comps);
    let sep: Vec<char> = vec!['\\'];
    assert(sep@ =~= seq!['\\']);
    let body = join_chars(&comps, &sep);
    if root || (comps.len() > 0 && sep_after_prefix) {
        r.push('\\');
    }
    append_chars(&mut r, &body);
    assert(r@ =~= verbatim_join(base@, rel@));
    r
}

/// The relative path `rel` under `base`.
pub fn join_path_chars(base: &Vec<char>, rel: &Vec<char>) -> (r: Vec<char>)
    ensures
        r@ == join_path(base@, rel@),
{
    let n = base.len();
    if n >= 4 && base[0] == '\\' && base[1] == '\\' && base[2] == '?' && base[3] == '\\' && rel.len() > 0 {
        assert(base@.take(4) =~= verbatim_mark());
        return verbatim_join_chars(base, rel);
    }
    proof {
        if is_verbatim(base@) {
            assert(base@.take(4)[0] == base@[0]);
            assert(base@.take(4)[1] == base@[1]);
            assert(base@.take(4)[2] == base@[2]);
            assert(base@.take(4)[3] == base@[3]);
        }
    }
    let mut r: Vec<char> = Vec::new();
    append_chars(&mut r, base);
    let bare_drive = n == 2 && base[1] == ':' && (('A' <= base[0] && base[0] <= 'Z') || ('a'
        <= base[0] && base[0] <= 'z'));
    if !(n == 0 || base[n - 1] == '\\' || base[n - 1] == '/' || bare_drive) {
        r.push('\\');
    }
    append_chars(&mut r, rel);
    assert(r@ =~= join_path(base@, rel@));
    r
}

/// The relative path `rel` under `base`, as strings.
pub fn join_path_str(base: &str, rel: &str) -> (r: String)
    ensures
        r@ == join_path(base@, rel@),
{
    let b = chars_of(base);
    let l = chars_of(rel);
    let j = join_path_chars(&b, &l);
    string_from_chars(&j)
}

/// The Start Menu programs folder under an application-data or ProgramData folder.
pub const START_MENU_PROGRAMS: &'static str = "Microsoft\\Windows\\Start Menu\\Programs";

/// The Quick Launch folder under an application-data folder.
pub const QUICK_LAUNCH: &'static str = "Microsoft\\Internet Explorer\\Quick Launch";

/// The pinned Start Menu folder under an application-data folder.
pub const PINNED_START_MENU: &'static str = "Microsoft\\Internet Explorer\\Quick Launch\\User Pinned\\StartMenu";

/// The pinned taskbar folder under an application-data folder.
pub const PINNED_TASKBAR: &'static str = "Microsoft\\Internet Explorer\\Quick Launch\\User Pinned\\TaskBar";

/// The folder of hashed pinned-shortcut folders under an application-data folder.
pub const IMPLICIT_APP_SHORTCUTS: &'static str = "Microsoft\\Internet Explorer\\Quick Launch\\User Pinned\\ImplicitAppShortcuts";

/// The system profile's application data under the Windows folder.
pub const SYSTEM_PROFILE_APP_DATA: &'static str = "System32\\config\\systemprofile\\AppData\\Roaming";

/// A file found in one of the hashed pinned-shortcut folders.
pub struct PinnedFile {
    pub path: String,
    /// The file name, when it is valid Unicode.
    pub file_name: Option<String>,
}

/// The directories that shortcuts are looked for in, as found on this machine.
pub struct ShortcutLocations {
    /// `%Public%`
    pub public: Option<String>,
    /// `%UserProfile%`
    pub user_profile: Option<String>,
    /// The current user's Desktop known folder (which may be redirected).
    pub desktop: Option<String>,
    /// `%OneDrive%`, `%OneDriveConsumer%`, `%OneDriveCommercial%`: those set, in this order.
    pub one_drive: Vec<String>,
    /// `%ProgramData%`
    pub program_data: Option<String>,
    /// `%AppData%`
    pub app_data: Option<String>,
    /// The files in the hashed pinned-shortcut folders under `%AppData%`.
    pub app_data_pinned: Vec<PinnedFile>,
    /// `%SystemRoot%`, or else `%WinDir%`.
    pub windows_root: Option<String>,
    /// The files in the hashed pinned-shortcut folders under the system profile.
    pub system_pinned: Vec<PinnedFile>,
}

/// The view of the pinned files: (path, file name).
pub open spec fn pinned_view(files: Seq<PinnedFile>) -> Seq<(Seq<char>, Option<Seq<char>>)> {
    files.map_values(|f: PinnedFile| (f.path@, opt_view(f.file_name)))
}

/// `dir\<shortcut file name>` for each target.
pub open spec fn entries(dir: Seq<char>, ts: Seq<(Seq<char>, Seq<char>)>) -> Seq<Seq<char>>
    decreases ts.len(),
{
    if ts.len() == 0 {
        seq![]
    } else {
        seq![join_path(dir, ts[0].1)] + entries(dir, ts.drop_first())
    }
}

/// The entries under `dir`, or nothing when it is unknown.
pub open spec fn opt_entries(dir: Option<Seq<char>>, ts: Seq<(Seq<char>, Seq<char>)>) -> Seq<Seq<char>> {
    match dir {
        Some(d) => entries(d, ts),
        None => seq![],
    }
}

/// For each target in turn: its Start Menu, Quick Launch, pinned Start Menu and
/// pinned taskbar shortcut under the application-data folder `a`.
pub open spec fn roaming(a: Seq<char>, ts: Seq<(Seq<char>, Seq<char>)>) -> Seq<Seq<char>>
    decreases ts.len(),
{
    if ts.len() == 0 {
        seq![]
    } else {
        let n = ts[0].1;
        seq![
            join_path(join_path(a, START_MENU_PROGRAMS@), n),
            join_path(join_path(a, QUICK_LAUNCH@), n),
            join_path(join_path(a, PINNED_START_MENU@), n),
            join_path(join_path(a, PINNED_TASKBAR@), n),
        ] + roaming(a, ts.drop_first())
    }
}

/// The file name is, in any ASCII case, one of the targets' shortcut names.
pub open spec fn names_a_target(name: Option<Seq<char>>, ts: Seq<(Seq<char>, Seq<char>)>) -> bool {
    match name {
        Some(n) => exists|k: int| 0 <= k < ts.len() && eq_ignore_case(n, #[trigger] ts[k].1),
        None => false,
    }
}

/// The pinned files that are one of the targets' shortcuts, in order.
pub open spec fn pinned(files: Seq<(Seq<char>, Option<Seq<char>>)>, ts: Seq<(Seq<char>, Seq<char>)>) -> Seq<Seq<char>>
    decreases files.len(),
{
    if files.len() == 0 {
        seq![]
    } else {
        let rest = pinned(files.drop_last(), ts);
        if names_a_target(files.last().1, ts) {
            rest.push(files.last().0)
        } else {
            rest
        }
    }
}

/// Everything under one application-data folder: the roaming shortcuts, then
/// the pinned ones.
pub open spec fn roaming_and_pinned(
    a: Option<Seq<char>>,
    files: Seq<(Seq<char>, Option<Seq<char>>)>,
    ts: Seq<(Seq<char>, Seq<char>)>,
) -> Seq<Seq<char>> {
    match a {
        Some(a) => roaming(a, ts) + pinned(files, ts),
        None => seq![],
    }
}

/// The entries under each OneDrive folder's Desktop, folder by folder.
pub open spec fn one_drive_entries(dirs: Seq<Seq<char>>, ts: Seq<(Seq<char>, Seq<char>)>) -> Seq<Seq<char>>
    decreases dirs.len(),
{
    if dirs.len() == 0 {
        seq![]
    } else {
        one_drive_entries(dirs.drop_last(), ts) + entries(join_path(dirs.last(), "Desktop"@), ts)
    }
}

/// A directory under an optional base.
pub open spec fn opt_join(base: Option<Seq<char>>, rel: Seq<char>) -> Option<Seq<char>> {
    match base {
        Some(b) => Some(join_path(b, rel)),
        None => None,
    }
}

/// All candidate shortcut paths for the targets, in the order they are
/// composed: the public Desktop, the user's Desktop, the Desktop known folder,
/// the OneDrive Desktops, the system Start Menu, the user's application data,
/// then the system profile's application data.
pub open spec fn shortcut_paths(loc: ShortcutLocations, ts: Seq<(Seq<char>, Seq<char>)>) -> Seq<Seq<char>> {
    opt_entries(opt_join(opt_view(loc.public), "Desktop"@), ts)
        + opt_entries(opt_join(opt_view(loc.user_profile), "Desktop"@), ts)
        + opt_entries(non_blank(opt_view(loc.desktop)), ts)
        + one_drive_entries(loc.one_drive.deep_view(), ts)
        + opt_entries(opt_join(opt_view(loc.program_data), START_MENU_PROGRAMS@), ts)
        + roaming_and_pinned(opt_view(loc.app_data), pinned_view(loc.app_data_pinned@), ts)
        + roaming_and_pinned(
            opt_join(opt_view(loc.windows_root), SYSTEM_PROFILE_APP_DATA@),
            pinned_view(loc.system_pinned@),
            ts,
        )
}

proof fn lemma_entries_contain(dir: Seq<char>, ts: Seq<(Seq<char>, Seq<char>)>, k: int)
    requires
        0 <= k < ts.len(),
    ensures
        entries(dir, ts).contains(join_path(dir, ts[k].1)),
    decreases ts.len(),
{
    if k == 0 {
        assert(entries(dir, ts)[0] == join_path(dir, ts[0].1));
    } else {
        lemma_entries_contain(dir, ts.drop_first(), k - 1);
        let rest = entries(dir, ts.drop_first());
        let i = choose|i: int| 0 <= i < rest.len() && rest[i] == join_path(dir, ts[k].1);
        assert(entries(dir, ts)[i + 1] == rest[i]);
    }
}

proof fn lemma_one_drive_contain(dirs: Seq<Seq<char>>, ts: Seq<(Seq<char>, Seq<char>)>, d: int, k: int)
    requires
        0 <= d < dirs.len(),
        0 <= k < ts.len(),
    ensures
        one_drive_entries(dirs, ts).contains(join_path(join_path(dirs[d], "Desktop"@), ts[k].1)),
    decreases dirs.len(),
{
    let x = join_path(join_path(dirs[d], "Desktop"@), ts[k].1);
    let init = one_drive_entries(dirs.drop_last(), ts);
    if d == dirs.len() - 1 {
        let e = entries(join_path(dirs.last(), "Desktop"@), ts);
        lemma_entries_contain(join_path(dirs.last(), "Desktop"@), ts, k);
        let i = choose|i: int| 0 <= i < e.len() && e[i] == x;
        assert((init + e)[init.len() + i] == x);
    } else {
        lemma_one_drive_contain(dirs.drop_last(), ts, d, k);
        assert(dirs.drop_last()[d] == dirs[d]);
        let i = choose|i: int| 0 <= i < init.len() && init[i] == x;
        assert((init + entries(join_path(dirs.last(), "Desktop"@), ts))[i] == x);
    }
}

/// Every OneDrive folder given contributes the Desktop shortcut of every
/// target: `<folder>\Desktop\<shortcut file>` is among the candidate paths.
pub proof fn law_one_drive_desktops(loc: ShortcutLocations, ts: Seq<(Seq<char>, Seq<char>)>, d: int, k: int)
    requires
        0 <= d < loc.one_drive@.len(),
        0 <= k < ts.len(),
    ensures
        shortcut_paths(loc, ts).contains(join_path(join_path(loc.one_drive@[d]@, "Desktop"@), ts[k].1)),
{
    let dirs = loc.one_drive.deep_view();
    assert(dirs[d] == loc.one_drive@[d]@);
    lemma_one_drive_contain(dirs, ts, d, k);
    let x = join_path(join_path(dirs[d], "Desktop"@), ts[k].1);
    let a = opt_entries(opt_join(opt_view(loc.public), "Desktop"@), ts) + opt_entries(
        opt_join(opt_view(loc.user_profile), "Desktop"@),
        ts,
    ) + opt_entries(non_blank(opt_view(loc.desktop)), ts);
    let b = one_drive_entries(dirs, ts);
    let i = choose|i: int| 0 <= i < b.len() && b[i] == x;
    let all = shortcut_paths(loc, ts);
    assert(all[a.len() + i] == x);
}

fn push_path(paths: &mut Vec<String>, p: Vec<char>)
    ensures
        final(paths).deep_view() == old(paths).deep_view().push(p@),
{
    let s = string_from_chars(&p);
    paths.push(s);
    assert(paths.deep_view() =~= old(paths).deep_view().push(p@));
}

proof fn lemma_entries_push(dir: Seq<char>, ts: Seq<(Seq<char>, Seq<char>)>, i: int)
    requires
        0 <= i < ts.len(),
    ensures
        entries(dir, ts.take(i + 1)) == entries(dir, ts.take(i)).push(join_path(dir, ts[i].1)),
    decreases i,
{
    if i == 0 {
        assert(ts.take(1).drop_first() =~= Seq::<(Seq<char>, Seq<char>)>::empty());
        assert(entries(dir, ts.take(0)) =~= Seq::<Seq<char>>::empty());
        assert(entries(dir, ts.take(1).drop_first()) == Seq::<Seq<char>>::empty());
        assert(entries(dir, ts.take(1)) =~= seq![join_path(dir, ts[0].1)]);
    } else {
        lemma_entries_push(dir, ts.drop_first(), i - 1);
        assert(ts.take(i + 1).drop_first() =~= ts.drop_first().take(i));
        assert(ts.take(i).drop_first() =~= ts.drop_first().take(i - 1));
        let head = seq![join_path(dir, ts[0].1)];
        assert(entries(dir, ts.take(i + 1)) == head + entries(dir, ts.drop_first().take(i)));
        assert(entries(dir, ts.take(i)) == head + entries(dir, ts.drop_first().take(i - 1)));
        assert(head + entries(dir, ts.drop_first().take(i - 1)).push(join_path(dir, ts[i].1)) =~= (head
            + entries(dir, ts.drop_first().take(i - 1))).push(join_path(dir, ts[i].1)));
    }
}

proof fn lemma_roaming_push(a: Seq<char>, ts: Seq<(Seq<char>, Seq<char>)>, i: int)
    requires
        0 <= i < ts.len(),
    ensures
        roaming(a, ts.take(i + 1)) == roaming(a, ts.take(i)) + roaming(a, seq![ts[i]]),
    decreases i,
{
    if i == 0 {
        assert(ts.take(1) =~= seq![ts[0]]);
        assert(roaming(a, ts.take(0)) =~= Seq::<Seq<char>>::empty());
    } else {
        lemma_roaming_push(a, ts.drop_first(), i - 1);
        assert(ts.take(i + 1).drop_first() =~= ts.drop_first().take(i));
        assert(ts.take(i).drop_first() =~= ts.drop_first().take(i - 1));
        assert(ts.drop_first()[i - 1] == ts[i]);
        let n = ts[0].1;
        let head = seq![
            join_path(join_path(a, START_MENU_PROGRAMS@), n),
            join_path(join_path(a, QUICK_LAUNCH@), n),
            join_path(join_path(a, PINNED_START_MENU@), n),
            join_path(join_path(a, PINNED_TASKBAR@), n),
        ];
        assert(roaming(a, ts.take(i + 1)) == head + roaming(a, ts.drop_first().take(i)));
        assert(roaming(a, ts.take(i)) == head + roaming(a, ts.drop_first().take(i - 1)));
        assert(head + (roaming(a, ts.drop_first().take(i - 1)) + roaming(a, seq![ts[i]])) =~= (head
            + roaming(a, ts.drop_first().take(i - 1))) + roaming(a, seq![ts[i]]));
    }
}

/// Appends `dir\<shortcut file name>` for each target.
fn add_entries(paths: &mut Vec<String>, dir: &Vec<char>, targets: &Vec<ShortcutTarget>)
    ensures
        final(paths).deep_view() == old(paths).deep_view() + entries(dir@, names_of(targets@)),
{
    let ghost ts = names_of(targets@);
    let mut i: usize = 0;
    assert(old(paths).deep_view() + entries(dir@, ts.take(0)) =~= old(paths).deep_view());
    while i < targets.len()
        invariant
            i <= targets@.len(),
            ts == names_of(targets@),
            paths.deep_view() == old(paths).deep_view() + entries(dir@, ts.take(i as int)),
        decreases targets@.len() - i,
    {
        let name = chars_of(targets[i].shortcut_name);
        proof {
            lemma_entries_push(dir@, ts, i as int);
        }
        let ghost before = paths.deep_view();
        push_path(paths, join_path_chars(dir, &name));
        assert(paths.deep_view() =~= old(paths).deep_view() + entries(dir@, ts.take(i + 1)));
        i += 1;
    }
    assert(ts.take(targets@.len() as int) =~= ts);
}

/// Appends, for each target, its four shortcuts under the application-data
/// folder `app_data`.
pub fn add_roaming_shortcuts(paths: &mut Vec<String>, app_data: &Vec<char>, targets: &Vec<ShortcutTarget>)
    ensures
        final(paths).deep_view() == old(paths).deep_view() + roaming(app_data@, names_of(targets@)),
{
    let ghost ts = names_of(targets@);
    let start_menu = join_path_chars(app_data, &chars_of(START_MENU_PROGRAMS));
    let quick_launch = join_path_chars(app_data, &chars_of(QUICK_LAUNCH));
    let pinned_start = join_path_chars(app_data, &chars_of(PINNED_START_MENU));
    let pinned_taskbar = join_path_chars(app_data, &chars_of(PINNED_TASKBAR));
    let mut i: usize = 0;
    assert(old(paths).deep_view() + roaming(app_data@, ts.take(0)) =~= old(paths).deep_view());
    while i < targets.len()
        invariant
            i <= targets@.len(),
            ts == names_of(targets@),
            start_menu@ == join_path(app_data@, START_MENU_PROGRAMS@),
            quick_launch@ == join_path(app_data@, QUICK_LAUNCH@),
            pinned_start@ == join_path(app_data@, PINNED_START_MENU@),
            pinned_taskbar@ == join_path(app_data@, PINNED_TASKBAR@),
            paths.deep_view() == old(paths).deep_view() + roaming(app_data@, ts.take(i as int)),
        decreases targets@.len() - i,
    {
        let name = chars_of(targets[i].shortcut_name);
        proof {
            lemma_roaming_push(app_data@, ts, i as int);
            assert(seq![ts[i as int]].drop_first() =~= Seq::<(Seq<char>, Seq<char>)>::empty());
            assert(roaming(app_data@, seq![ts[i as int]].drop_first()) == Seq::<Seq<char>>::empty());
            assert(ts[i as int].1 == name@);
        }
        push_path(paths, join_path_chars(&start_menu, &name));
        push_path(paths, join_path_chars(&quick_launch, &name));
        push_path(paths, join_path_chars(&pinned_start, &name));
        push_path(paths, join_path_chars(&pinned_taskbar, &name));
        assert(paths.deep_view() =~= old(paths).deep_view() + roaming(app_data@, ts.take(i + 1)));
        i += 1;
    }
    assert(ts.take(targets@.len() as int) =~= ts);
}

/// Whether a file name is, in any ASCII case, one of the targets' shortcut names.
pub fn is_selected_edge_shortcut_file(file_name: &Option<String>, targets: &Vec<ShortcutTarget>) -> (b: bool)
    ensures
        b == names_a_target(opt_view(*file_name), names_of(targets@)),
{
    let ghost ts = names_of(targets@);
    match file_name {
        Some(n) => {
            let name = chars_of(n.as_str());
            let mut i: usize = 0;
            while i < targets.len()
                invariant
                    i <= targets@.len(),
                    ts == names_of(targets@),
                    name@ == n@,
                    opt_view(*file_name) == Some(name@),
                    forall|k: int| 0 <= k < i ==> !eq_ignore_case(name@, #[trigger] ts[k].1),
                decreases targets@.len() - i,
            {
                let target_name = chars_of(targets[i].shortcut_name);
                assert(target_name@ == ts[i as int].1);
                if eq_ignore_ascii_case(&name, &target_name) {
                    assert(eq_ignore_case(name@, ts[i as int].1));
                    assert(opt_view(*file_name) == Some(name@));
                    assert(names_a_target(Some(name@), ts));
                    return true;
                }
                i += 1;
            }
            false
        },
        None => false,
    }
}

/// Appends the pinned files that are one of the targets' shortcuts.
fn add_pinned_shortcuts(paths: &mut Vec<String>, files: &Vec<PinnedFile>, targets: &Vec<ShortcutTarget>)
    ensures
        final(paths).deep_view() == old(paths).deep_view() + pinned(pinned_view(files@), names_of(targets@)),
{
    let ghost ts = names_of(targets@);
    let ghost fs = pinned_view(files@);
    let mut i: usize = 0;
    assert(fs.take(0) =~= Seq::<(Seq<char>, Option<Seq<char>>)>::empty());
    assert(old(paths).deep_view() + pinned(fs.take(0), ts) =~= old(paths).deep_view());
    while i < files.len()
        invariant
            i <= files@.len(),
            ts == names_of(targets@),
            fs == pinned_view(files@),
            paths.deep_view() == old(paths).deep_view() + pinned(fs.take(i as int), ts),
        decreases files@.len() - i,
    {
        assert(fs.take(i + 1).drop_last() =~= fs.take(i as int));
        assert(fs.take(i + 1).last() == fs[i as int]);
        if is_selected_edge_shortcut_file(&files[i].file_name, targets) {
            let p = chars_of(files[i].path.as_str());
            push_path(paths, p);
        }
        assert(paths.deep_view() =~= old(paths).deep_view() + pinned(fs.take(i + 1), ts));
        i += 1;
    }
    assert(fs.take(files@.len() as int) =~= fs);
}

/// The folder holding the hashed pinned-shortcut folders under `app_data`.
pub fn implicit_shortcut_root(app_data: &str) -> (r: String)
    ensures
        r@ == join_path(app_data@, IMPLICIT_APP_SHORTCUTS@),
{
    join_path_str(app_data, IMPLICIT_APP_SHORTCUTS)
}

/// The system profile's application data folder under the Windows folder.
pub fn get_system_profile_app_data(windows_root: &str) -> (r: String)
    ensures
        r@ == join_path(windows_root@, SYSTEM_PROFILE_APP_DATA@),
{
    join_path_str(windows_root, SYSTEM_PROFILE_APP_DATA)
}

fn add_entries_under(paths: &mut Vec<String>, base: &Option<String>, rel: &str, targets: &Vec<ShortcutTarget>)
    ensures
        final(paths).deep_view() == old(paths).deep_view() + opt_entries(opt_join(opt_view(*base), rel@), names_of(targets@)),
{
    if let Some(b) = base {
        let dir = join_path_chars(&chars_of(b.as_str()), &chars_of(rel));
        add_entries(paths, &dir, targets);
    } else {
        assert(paths.deep_view() =~= old(paths).deep_view() + Seq::<Seq<char>>::empty());
    }
}

fn add_roaming_and_pinned(paths: &mut Vec<String>, app_data: &Option<Vec<char>>, files: &Vec<PinnedFile>, targets: &Vec<ShortcutTarget>)
    ensures
        final(paths).deep_view() == old(paths).deep_view() + roaming_and_pinned(
            match *app_data {
                Some(a) => Some(a@),
                None => None,
            },
            pinned_view(files@),
            names_of(targets@),
        ),
{
    if let Some(a) = app_data {
        add_roaming_shortcuts(paths, a, targets);
        let ghost mid = paths.deep_view();
        add_pinned_shortcuts(paths, files, targets);
        assert(paths.deep_view() =~= old(paths).deep_view() + (roaming(a@, names_of(targets@)) + pinned(
            pinned_view(files@),
            names_of(targets@),
        )));
    } else {
        assert(paths.deep_view() =~= old(paths).deep_view() + Seq::<Seq<char>>::empty());
    }
}

/// The current user's Desktop, one per OneDrive folder.
fn add_one_drive_shortcuts(paths: &mut Vec<String>, dirs: &Vec<String>, targets: &Vec<ShortcutTarget>)
    ensures
        final(paths).deep_view() == old(paths).deep_view() + one_drive_entries(dirs.deep_view(), names_of(targets@)),
{
    let ghost ds = dirs.deep_view();
    let mut i: usize = 0;
    assert(ds.take(0) =~= Seq::<Seq<char>>::empty());
    assert(old(paths).deep_view() + one_drive_entries(ds.take(0), names_of(targets@)) =~= old(paths).deep_view());
    while i < dirs.len()
        invariant
            i <= dirs@.len(),
            ds == dirs.deep_view(),
            paths.deep_view() == old(paths).deep_view() + one_drive_entries(ds.take(i as int), names_of(targets@)),
        decreases dirs@.len() - i,
    {
        assert(ds.take(i + 1).drop_last() =~= ds.take(i as int));
        assert(ds.take(i + 1).last() == dirs@[i as int]@);
        let desktop = join_path_chars(&chars_of(dirs[i].as_str()), &chars_of("Desktop"));
        let ghost before = paths.deep_view();
        add_entries(paths, &desktop, targets);
        assert(paths.deep_view() =~= old(paths).deep_view() + one_drive_entries(ds.take(i + 1), names_of(targets@)));
        i += 1;
    }
    assert(ds.take(dirs@.len() as int) =~= ds);
}

/// All candidate shortcut paths for the given targets, in the order they are
/// composed.
fn collect_shortcut_paths(locations: &ShortcutLocations, targets: &Vec<ShortcutTarget>) -> (r: Vec<String>)
    ensures
        r.deep_view() == shortcut_paths(*locations, names_of(targets@)),
{
    let ghost ts = names_of(targets@);
    let mut paths: Vec<String> = Vec::new();
    assert(paths.deep_view() =~= Seq::<Seq<char>>::empty());
    add_entries_under(&mut paths, &locations.public, "Desktop", targets);
    let ghost p1 = paths.deep_view();
    add_entries_under(&mut paths, &locations.user_profile, "Desktop", targets);
    let ghost p2 = paths.deep_view();
    let desktop: Option<String> = match &locations.desktop {
        Some(d) => {
            let t = trim_chars(&chars_of(d.as_str()));
            if t.len() > 0 {
                Some(d.clone())
            } else {
                None
            }
        },
        None => None,
    };
    assert(opt_view(desktop) == non_blank(opt_view(locations.desktop)));
    if let Some(d) = &desktop {
        add_entries(&mut paths, &chars_of(d.as_str()), targets);
    }
    let ghost p3 = paths.deep_view();
    assert(p3 =~= p2 + opt_entries(non_blank(opt_view(locations.desktop)), ts));
    add_one_drive_shortcuts(&mut paths, &locations.one_drive, targets);
    add_entries_under(&mut paths, &locations.program_data, START_MENU_PROGRAMS, targets);
    let app_data: Option<Vec<char>> = match &locations.app_data {
        Some(a) => Some(chars_of(a.as_str())),
        None => None,
    };
    add_roaming_and_pinned(&mut paths, &app_data, &locations.app_data_pinned, targets);
    let system: Option<Vec<char>> = match &locations.windows_root {
        Some(w) => Some(join_path_chars(&chars_of(w.as_str()), &chars_of(SYSTEM_PROFILE_APP_DATA))),
        None => None,
    };
    add_roaming_and_pinned(&mut paths, &system, &locations.system_pinned, targets);
    assert(paths.deep_view() =~= shortcut_paths(*locations, ts));
    paths
}

/// All candidate shortcut paths for the given targets, sorted by path order,
/// each path once.
pub fn get_shortcut_paths_for_targets(locations: &ShortcutLocations, targets: &Vec<ShortcutTarget>) -> (r: Vec<String>)
    ensures
        r.deep_view() == sorted_unique(shortcut_paths(*locations, names_of(targets@))),
        sorted_unique_of(r.deep_view(), shortcut_paths(*locations, names_of(targets@))),
{
    sorted_unique_paths(&collect_shortcut_paths(locations, targets))
}

/// The candidate shortcut paths of the selected channels, sorted by path
/// order, each path once. They are kept even when missing, so that the Info
/// window can show what was checked.
pub fn get_shortcut_paths(locations: &ShortcutLocations, selection: &ShortcutTargetSelection) -> (r: Vec<String>)
    ensures
        r.deep_view() == sorted_unique(shortcut_paths(*locations, selection.matching(true, 4))),
        sorted_unique_of(r.deep_view(), shortcut_paths(*locations, selection.matching(true, 4))),
        forall|d: int, k: int|
            0 <= d < locations.one_drive@.len() && 0 <= k < selection.matching(true, 4).len() ==> has_same_path(
                r.deep_view(),
                join_path(join_path(locations.one_drive@[d]@, "Desktop"@), selection.matching(true, 4)[k].1),
            ),
{
    let targets = selection.selected_targets();
    let r = get_shortcut_paths_for_targets(locations, &targets);
    proof {
        let ts = selection.matching(true, 4);
        let ps = shortcut_paths(*locations, ts);
        assert forall|d: int, k: int|
            0 <= d < locations.one_drive@.len() && 0 <= k < ts.len() implies has_same_path(
            r.deep_view(),
            join_path(join_path(locations.one_drive@[d]@, "Desktop"@), ts[k].1),
        ) by {
            law_one_drive_desktops(*locations, ts, d, k);
            let x = join_path(join_path(locations.one_drive@[d]@, "Desktop"@), ts[k].1);
            let m = choose|m: int| 0 <= m < ps.len() && ps[m] == x;
            assert(has_same_path(r.deep_view(), ps[m]));
        }
    }
    r
}

/// The candidate shortcut paths of the channels that are not selected, sorted
/// by path order, each path once.
pub fn get_unselected_shortcut_paths(locations: &ShortcutLocations, selection: &ShortcutTargetSelection) -> (r: Vec<String>)
    ensures
        r.deep_view() == sorted_unique(shortcut_paths(*locations, selection.matching(false, 4))),
        sorted_unique_of(r.deep_view(), shortcut_paths(*locations, selection.matching(false, 4))),
        forall|d: int, k: int|
            0 <= d < locations.one_drive@.len() && 0 <= k < selection.matching(false, 4).len() ==> has_same_path(
                r.deep_view(),
                join_path(join_path(locations.one_drive@[d]@, "Desktop"@), selection.matching(false, 4)[k].1),
            ),
{
    let targets = selection.unselected_targets();
    let r = get_shortcut_paths_for_targets(locations, &targets);
    proof {
        let ts = selection.matching(false, 4);
        let ps = shortcut_paths(*locations, ts);
        assert forall|d: int, k: int|
            0 <= d < locations.one_drive@.len() && 0 <= k < ts.len() implies has_same_path(
            r.deep_view(),
            join_path(join_path(locations.one_drive@[d]@, "Desktop"@), ts[k].1),
        ) by {
            law_one_drive_desktops(*locations, ts, d, k);
            let x = join_path(join_path(locations.one_drive@[d]@, "Desktop"@), ts[k].1);
            let m = choose|m: int| 0 <= m < ps.len() && ps[m] == x;
            assert(has_same_path(r.deep_view(), ps[m]));
        }
    }
    r
}

/// Where Edge's executable may be installed.
#[derive(Clone)]
pub struct EdgeExecutableCandidate {
    /// Which channel and which base folder.
    pub source: &'static str,
    /// The path, when the base folder's environment variable is set.
    pub path: Option<String>,
    pub exists: bool,
    /// The first candidate that exists is the selected one.
    pub selected: bool,
}

/// The install locations, in order: (source, environment variable of the base
/// folder, path under it).
pub open spec fn edge_locations() -> Seq<(Seq<char>, Seq<char>, Seq<char>)> {
    seq![
        ("Stable - ProgramFiles(x86)"@, "ProgramFiles(x86)"@, "Microsoft\\Edge\\Application\\msedge.exe"@),
        ("Stable - ProgramFiles"@, "ProgramFiles"@, "Microsoft\\Edge\\Application\\msedge.exe"@),
        ("Stable - LocalAppData"@, "LocalAppData"@, "Microsoft\\Edge\\Application\\msedge.exe"@),
        ("Beta - ProgramFiles(x86)"@, "ProgramFiles(x86)"@, "Microsoft\\Edge Beta\\Application\\msedge.exe"@),
        ("Beta - LocalAppData"@, "LocalAppData"@, "Microsoft\\Edge Beta\\Application\\msedge.exe"@),
        ("Dev - ProgramFiles(x86)"@, "ProgramFiles(x86)"@, "Microsoft\\Edge Dev\\Application\\msedge.exe"@),
        ("Dev - LocalAppData"@, "LocalAppData"@, "Microsoft\\Edge Dev\\Application\\msedge.exe"@),
        ("Canary - ProgramFiles(x86)"@, "ProgramFiles(x86)"@, "Microsoft\\Edge SxS\\Application\\msedge.exe"@),
        ("Canary - LocalAppData"@, "LocalAppData"@, "Microsoft\\Edge SxS\\Application\\msedge.exe"@),
    ]
}

/// The install locations where Edge's executable is looked for.
pub fn edge_executable_locations() -> (r: Vec<(&'static str, &'static str, &'static str)>)
    ensures
        r.deep_view() == edge_locations(),
{
    let r = vec![
        ("Stable - ProgramFiles(x86)", "ProgramFiles(x86)", "Microsoft\\Edge\\Application\\msedge.exe"),
        ("Stable - ProgramFiles", "ProgramFiles", "Microsoft\\Edge\\Application\\msedge.exe"),
        ("Stable - LocalAppData", "LocalAppData", "Microsoft\\Edge\\Application\\msedge.exe"),
        ("Beta - ProgramFiles(x86)", "ProgramFiles(x86)", "Microsoft\\Edge Beta\\Application\\msedge.exe"),
        ("Beta - LocalAppData", "LocalAppData", "Microsoft\\Edge Beta\\Application\\msedge.exe"),
        ("Dev - ProgramFiles(x86)", "ProgramFiles(x86)", "Microsoft\\Edge Dev\\Application\\msedge.exe"),
        ("Dev - LocalAppData", "LocalAppData", "Microsoft\\Edge Dev\\Application\\msedge.exe"),
        ("Canary - ProgramFiles(x86)", "ProgramFiles(x86)", "Microsoft\\Edge SxS\\Application\\msedge.exe"),
        ("Canary - LocalAppData", "LocalAppData", "Microsoft\\Edge SxS\\Application\\msedge.exe"),
    ];
    assert(r.deep_view() =~= edge_locations());
    r
}

/// The candidates from the install locations: each location's source, with the
/// path and whether it exists as found (`probes`, one per location, in order);
/// the first candidate that exists is selected and no other is.
pub fn get_edge_executable_candidates(probes: &Vec<(Option<String>, bool)>) -> (r: Vec<EdgeExecutableCandidate>)
    requires
        probes@.len() == edge_locations().len(),
    ensures
        r@.len() == probes@.len(),
        forall|i: int|
            0 <= i < r@.len() ==> {
                &&& (#[trigger] r@[i]).source@ == edge_locations()[i].0
                &&& opt_view(r@[i].path) == opt_view(probes@[i].0)
                &&& r@[i].exists == probes@[i].1
                &&& r@[i].selected == (probes@[i].1 && forall|j: int| 0 <= j < i ==> !probes@[j].1)
            },
{
    let locations = edge_executable_locations();
    let mut r: Vec<EdgeExecutableCandidate> = Vec::new();
    let mut selected = false;
    let mut i: usize = 0;
    while i < probes.len()
        invariant
            i <= probes@.len(),
            probes@.len() == edge_locations().len(),
            locations.deep_view() == edge_locations(),
            r@.len() == i,
            selected == exists|j: int| 0 <= j < i && probes@[j].1,
            forall|k: int|
                0 <= k < i ==> {
                    &&& (#[trigger] r@[k]).source@ == edge_locations()[k].0
                    &&& opt_view(r@[k].path) == opt_view(probes@[k].0)
                    &&& r@[k].exists == probes@[k].1
                    &&& r@[k].selected == (probes@[k].1 && forall|j: int| 0 <= j < k ==> !probes@[j].1)
                },
        decreases probes@.len() - i,
    {
        let (source, _, _) = locations[i];
        assert(source@ == edge_locations()[i as int].0) by {
            assert(locations.deep_view()[i as int] == edge_locations()[i as int]);
        }
        let exists = probes[i].1;
        let path = match &probes[i].0 {
            Some(p) => Some(p.clone()),
            None => None,
        };
        let is_selected = !selected && exists;
        r.push(EdgeExecutableCandidate { source, path, exists, selected: is_selected });
        if exists {
            selected = true;
        }
        i += 1;
    }
    r
}

/// The path of Edge's executable under an install location's base folder.
pub fn edge_executable_path(base: &Option<String>, relative: &str) -> (r: Option<String>)
    ensures
        opt_view(r) == opt_join(opt_view(*base), relative@),
{
    match base {
        Some(b) => Some(join_path_str(b.as_str(), relative)),
        None => None,
    }
}

/// The path of the first selected candidate among `c[i..]`.
pub open spec fn selected_path_from(c: Seq<EdgeExecutableCandidate>, i: int) -> Option<Seq<char>>
    decreases c.len() - i,
{
    if i < 0 || i >= c.len() {
        None
    } else if c[i].selected {
        opt_view(c[i].path)
    } else {
        selected_path_from(c, i + 1)
    }
}

/// The path of the first selected candidate, if it has one.
pub fn selected_candidate_path(candidates: &Vec<EdgeExecutableCandidate>) -> (r: Option<String>)
    ensures
        opt_view(r) == selected_path_from(candidates@, 0),
{
    let mut i: usize = 0;
    while i < candidates.len()
        invariant
            i <= candidates@.len(),
            selected_path_from(candidates@, 0) == selected_path_from(candidates@, i as int),
        decreases candidates@.len() - i,
    {
        if candidates[i].selected {
            return match &candidates[i].path {
                Some(p) => Some(p.clone()),
                None => None,
            };
        }
        i += 1;
    }
    None
}

} // verus!
