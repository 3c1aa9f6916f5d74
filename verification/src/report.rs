//! The text of the Info window: the Edge executable candidates, the shortcuts
//! and what the last run did to them, and the mapping from text positions to
//! rich-edit selection positions.
use vstd::prelude::*;
use vstd::string::StringSliceAdditionalSpecFns;

use crate::apply::{ApplyResult, ShortcutApplyDetail, ShortcutApplyState};
use crate::paths::EdgeExecutableCandidate;
use crate::registry::opt_view;
use crate::text::{
    append_chars, chars_of, contains, find_chars, lower, occurs_at, string_from_chars, to_ascii_lowercase,
};

verus! {

broadcast use crate::lemma_char_vec_deep_view;

/// The decimal digit for `d < 10`.
pub open spec fn digit(d: nat) -> char {
    (('0' as u32) + d) as char
}

/// The decimal notation of `n`.
pub open spec fn decimal(n: nat) -> Seq<char>
    decreases n,
{
    if n < 10 {
        seq![digit(n)]
    } else {
        decimal(n / 10).push(digit(n % 10))
    }
}

/// The decimal notation of `n`.
pub fn decimal_chars(n: usize) -> (r: Vec<char>)
    ensures
        r@ == decimal(n as nat),
    decreases n,
{
    let d = (n % 10) as u32;
    let c: char = ((('0' as u32) + d) as u8) as char;
    assert(c == digit((n % 10) as nat));
    if n < 10 {
        let r = vec![c];
        assert(r@ =~= seq![c]);
        r
    } else {
        let mut r = decimal_chars(n / 10);
        r.push(c);
        r
    }
}

/// `  <label>` and `    <path>`, each on its own line.
pub open spec fn path_entry(label: Seq<char>, path: Seq<char>) -> Seq<char> {
    "  "@ + label + "\n"@ + "    "@ + path + "\n"@
}

/// What kind of location a shortcut path is, for the Info window.
pub open spec fn location_label(path: Seq<char>) -> Seq<char> {
    let v = lower(path);
    if contains(v, "\\programdata\\microsoft\\windows\\start menu\\"@) {
        "System Start Menu"@
    } else if contains(v, "\\users\\public\\desktop\\"@) || contains(v, "\\public\\desktop\\"@) {
        "Public Desktop"@
    } else if contains(v, "\\user pinned\\taskbar\\"@) {
        "Pinned Taskbar"@
    } else if contains(v, "\\user pinned\\startmenu\\"@) {
        "Pinned Start Menu"@
    } else if contains(v, "\\implicitappshortcuts\\"@) {
        "Implicit pinned shortcut"@
    } else if contains(v, "\\internet explorer\\quick launch\\microsoft edge.lnk"@) {
        "Quick Launch"@
    } else if contains(v, "\\appdata\\roaming\\microsoft\\windows\\start menu\\"@) {
        "Current user Start Menu"@
    } else if contains(v, "\\desktop\\microsoft edge.lnk"@) {
        "Current user Desktop"@
    } else {
        "Shortcut"@
    }
}

fn lower_contains(v: &Vec<char>, pattern: &str) -> (b: bool)
    ensures
        b == contains(v@, pattern@),
{
    let p = chars_of(pattern);
    find_chars(v, &p).is_some()
}

/// What kind of location a shortcut path is: the first of the known location
/// fragments (in any ASCII case) that the path contains.
pub fn shortcut_location_label(path: &str) -> (r: &'static str)
    ensures
        r@ == location_label(path@),
{
    let v = to_ascii_lowercase(&chars_of(path));
    if lower_contains(&v, "\\programdata\\microsoft\\windows\\start menu\\") {
        "System Start Menu"
    } else if lower_contains(&v, "\\users\\public\\desktop\\") || lower_contains(&v, "\\public\\desktop\\") {
        "Public Desktop"
    } else if lower_contains(&v, "\\user pinned\\taskbar\\") {
        "Pinned Taskbar"
    } else if lower_contains(&v, "\\user pinned\\startmenu\\") {
        "Pinned Start Menu"
    } else if lower_contains(&v, "\\implicitappshortcuts\\") {
        "Implicit pinned shortcut"
    } else if lower_contains(&v, "\\internet explorer\\quick launch\\microsoft edge.lnk") {
        "Quick Launch"
    } else if lower_contains(&v, "\\appdata\\roaming\\microsoft\\windows\\start menu\\") {
        "Current user Start Menu"
    } else if lower_contains(&v, "\\desktop\\microsoft edge.lnk") {
        "Current user Desktop"
    } else {
        "Shortcut"
    }
}

fn append_str(r: &mut Vec<char>, s: &str)
    ensures
        final(r)@ == old(r)@ + s@,
{
    let c = chars_of(s);
    append_chars(r, &c);
}

/// Appends the labelled entry of one path.
pub fn write_path_entry(report: &mut Vec<char>, label: &str, path: &str)
    ensures
        final(report)@ == old(report)@ + path_entry(label@, path@),
{
    append_str(report, "  ");
    append_str(report, label);
    append_str(report, "\n");
    append_str(report, "    ");
    append_str(report, path);
    append_str(report, "\n");
    assert(report@ =~= old(report)@ + path_entry(label@, path@));
}

/// The labelled entries of the paths, in order.
pub open spec fn path_entries(paths: Seq<Seq<char>>) -> Seq<char>
    decreases paths.len(),
{
    if paths.len() == 0 {
        Seq::<char>::empty()
    } else {
        path_entries(paths.drop_last()) + path_entry(location_label(paths.last()), paths.last())
    }
}

/// A titled group of path entries with a blank line after it, or nothing when
/// there are no paths.
pub open spec fn group(title: Seq<char>, paths: Seq<Seq<char>>) -> Seq<char> {
    if paths.len() == 0 {
        Seq::<char>::empty()
    } else {
        title + ":\n"@ + path_entries(paths) + "\n"@
    }
}

fn write_path_entries(report: &mut Vec<char>, paths: &Vec<String>)
    ensures
        final(report)@ == old(report)@ + path_entries(paths.deep_view()),
{
    let ghost ps = paths.deep_view();
    let mut i: usize = 0;
    assert(ps.take(0) =~= Seq::<Seq<char>>::empty());
    assert(old(report)@ + path_entries(ps.take(0)) =~= old(report)@);
    while i < paths.len()
        invariant
            i <= paths@.len(),
            ps == paths.deep_view(),
            report@ == old(report)@ + path_entries(ps.take(i as int)),
        decreases paths@.len() - i,
    {
        assert(ps.take(i + 1).drop_last() =~= ps.take(i as int));
        assert(ps.take(i + 1).last() == paths@[i as int]@);
        let label = shortcut_location_label(paths[i].as_str());
        write_path_entry(report, label, paths[i].as_str());
        assert(report@ =~= old(report)@ + path_entries(ps.take(i + 1)));
        i += 1;
    }
    assert(ps.take(paths@.len() as int) =~= ps);
}

/// Appends a titled group of path entries, or nothing when there are none.
pub fn write_shortcut_group(report: &mut Vec<char>, title: &str, paths: &Vec<String>)
    ensures
        final(report)@ == old(report)@ + group(title@, paths.deep_view()),
{
    if paths.len() == 0 {
        assert(report@ =~= old(report)@ + group(title@, paths.deep_view()));
        return;
    }
    append_str(report, title);
    append_str(report, ":\n");
    write_path_entries(report, paths);
    append_str(report, "\n");
    assert(report@ =~= old(report)@ + group(title@, paths.deep_view()));
}

/// The paths of the details in state `st`, in order.
pub open spec fn paths_in_state(details: Seq<ShortcutApplyDetail>, st: ShortcutApplyState) -> Seq<Seq<char>>
    decreases details.len(),
{
    if details.len() == 0 {
        seq![]
    } else {
        let rest = paths_in_state(details.drop_last(), st);
        if details.last().state == st {
            rest.push(details.last().path@)
        } else {
            rest
        }
    }
}

fn collect_paths(details: &Vec<ShortcutApplyDetail>, st: ShortcutApplyState) -> (r: Vec<String>)
    ensures
        r.deep_view() == paths_in_state(details@, st),
{
    let mut r: Vec<String> = Vec::new();
    let mut i: usize = 0;
    assert(details@.take(0) =~= Seq::<ShortcutApplyDetail>::empty());
    assert(r.deep_view() =~= paths_in_state(details@.take(0), st));
    while i < details.len()
        invariant
            i <= details@.len(),
            r.deep_view() == paths_in_state(details@.take(i as int), st),
        decreases details@.len() - i,
    {
        assert(details@.take(i + 1).drop_last() =~= details@.take(i as int));
        assert(details@.take(i + 1).last() == details@[i as int]);
        if details[i].state == st {
            let ghost before = r.deep_view();
            r.push(details[i].path.clone());
            assert(r.deep_view() =~= before.push(details@[i as int].path@));
        }
        i += 1;
    }
    assert(details@.take(details@.len() as int) =~= details@);
    r
}

/// The shortcut part of the Info window. After a run: the updated, failed and
/// missing shortcuts, then a summary line. Before any run: the found and the
/// missing candidate shortcuts, then a note that nothing has run.
pub open spec fn shortcut_section(
    last: Option<ApplyResult>,
    found: Seq<Seq<char>>,
    missing: Seq<Seq<char>>,
) -> Seq<char> {
    match last {
        Some(result) => {
            let updated = paths_in_state(result.details@, ShortcutApplyState::Updated);
            let failed = paths_in_state(result.details@, ShortcutApplyState::Failed);
            let gone = paths_in_state(result.details@, ShortcutApplyState::IgnoredMissing);
            group("Updated"@, updated) + group("Failed"@, failed) + group("Missing"@, gone)
                + "Latest summary: "@ + decimal(result.found_shortcuts as nat) + " found, "@
                + decimal(updated.len()) + " updated, "@ + decimal(gone.len()) + " missing, "@
                + decimal(failed.len()) + " failed\n"@
        },
        None => group("Found"@, found) + group("Missing"@, missing)
            + "No operation has run during this session.\n"@,
    }
}

proof fn lemma_in_state(details: Seq<ShortcutApplyDetail>, st: ShortcutApplyState, i: int)
    requires
        0 <= i < details.len(),
        details[i].state == st,
    ensures
        paths_in_state(details, st).contains(details[i].path@),
    decreases details.len(),
{
    let rest = paths_in_state(details.drop_last(), st);
    if i == details.len() - 1 {
        assert(paths_in_state(details, st)[rest.len() as int] == details[i].path@);
    } else {
        lemma_in_state(details.drop_last(), st, i);
        assert(details.drop_last()[i] == details[i]);
        let j = choose|j: int| 0 <= j < rest.len() && rest[j] == details[i].path@;
        if details.last().state == st {
            assert(paths_in_state(details, st)[j] == rest[j]);
        }
    }
}

proof fn lemma_entry_in_entries(paths: Seq<Seq<char>>, j: int) -> (off: int)
    requires
        0 <= j < paths.len(),
    ensures
        0 <= off,
        off + path_entry(location_label(paths[j]), paths[j]).len() <= path_entries(paths).len(),
        occurs_at(path_entries(paths), path_entry(location_label(paths[j]), paths[j]), off),
    decreases paths.len(),
{
    let init = path_entries(paths.drop_last());
    let e = path_entry(location_label(paths.last()), paths.last());
    let all = path_entries(paths);
    assert(all == init + e);
    if j == paths.len() - 1 {
        assert(all.subrange(init.len() as int, (init.len() + e.len()) as int) =~= e);
        init.len() as int
    } else {
        let off = lemma_entry_in_entries(paths.drop_last(), j);
        assert(paths.drop_last()[j] == paths[j]);
        let y = path_entry(location_label(paths[j]), paths[j]);
        assert(all.subrange(off, off + y.len()) =~= init.subrange(off, off + y.len()));
        off
    }
}

/// After a run, the shortcut part of the Info window lists every shortcut that
/// failed: the heading `Failed:` occurs, and after it the failed path's entry,
/// two spaces and its location label on one line, four spaces and the path on
/// the next.
#[verifier::spinoff_prover]
#[verifier::rlimit(40)]
pub proof fn law_failed_shortcuts_listed(r: ApplyResult, found: Seq<Seq<char>>, missing: Seq<Seq<char>>, i: int)
    requires
        0 <= i < r.details@.len(),
        r.details@[i].state == ShortcutApplyState::Failed,
    ensures
        exists|p: int, q: int|
            p < q && occurs_at(shortcut_section(Some(r), found, missing), "Failed:\n"@, p) && occurs_at(
                shortcut_section(Some(r), found, missing),
                "  "@ + location_label(r.details@[i].path@) + "\n"@ + "    "@ + r.details@[i].path@ + "\n"@,
                q,
            ),
{
    reveal_strlit("Failed:\n");
    reveal_strlit("Failed");
    reveal_strlit(":\n");
    let sec = shortcut_section(Some(r), found, missing);
    let updated = paths_in_state(r.details@, ShortcutApplyState::Updated);
    let failed = paths_in_state(r.details@, ShortcutApplyState::Failed);
    let path = r.details@[i].path@;
    lemma_in_state(r.details@, ShortcutApplyState::Failed, i);
    let j = choose|j: int| 0 <= j < failed.len() && failed[j] == path;
    let off = lemma_entry_in_entries(failed, j);
    let u = group("Updated"@, updated);
    let g = group("Failed"@, failed);
    let head = "Failed:\n"@;
    let pe = path_entries(failed);
    assert(g == "Failed"@ + ":\n"@ + pe + "\n"@);
    assert("Failed"@ + ":\n"@ =~= head);
    let y = "  "@ + location_label(path) + "\n"@ + "    "@ + path + "\n"@;
    assert(y == path_entry(location_label(path), path));
    let p = u.len() as int;
    let q = p + head.len() + off;
    assert(sec.subrange(p, p + head.len()) =~= head);
    assert(pe.subrange(off, off + y.len()) == y);
    assert(sec.subrange(q, q + y.len()) =~= pe.subrange(off, off + y.len()));
    assert(occurs_at(sec, head, p));
    assert(occurs_at(sec, y, q));
}

proof fn lemma_group_lists(title: Seq<char>, paths: Seq<Seq<char>>, j: int) -> (off: int)
    requires
        0 <= j < paths.len(),
    ensures
        occurs_at(group(title, paths), title + ":\n"@, 0),
        title.len() + 2 <= off,
        occurs_at(group(title, paths), path_entry(location_label(paths[j]), paths[j]), off),
{
    reveal_strlit(":\n");
    let g = group(title, paths);
    let h = title + ":\n"@;
    let pe = path_entries(paths);
    assert(g == h + pe + "\n"@);
    let o = lemma_entry_in_entries(paths, j);
    let y = path_entry(location_label(paths[j]), paths[j]);
    assert(g.subrange(0, h.len() as int) =~= h);
    assert(g.subrange(h.len() + o, h.len() + o + y.len()) =~= pe.subrange(o, o + y.len()));
    h.len() + o
}

/// After a run, the shortcut part of the Info window lists every shortcut under
/// the heading of what happened to it (`Updated:`, `Failed:` or `Missing:`):
/// the heading occurs, and after it the shortcut's entry, two spaces and its
/// location label on one line, four spaces and the path on the next.
#[verifier::spinoff_prover]
#[verifier::rlimit(60)]
pub proof fn law_shortcut_results_listed(r: ApplyResult, found: Seq<Seq<char>>, missing: Seq<Seq<char>>, i: int)
    requires
        0 <= i < r.details@.len(),
    ensures
        ({
            let sec = shortcut_section(Some(r), found, missing);
            let heading = result_heading(r.details@[i].state);
            let entry = "  "@ + location_label(r.details@[i].path@) + "\n"@ + "    "@ + r.details@[i].path@ + "\n"@;
            exists|p: int, q: int|
                #![trigger occurs_at(sec, heading, p), occurs_at(sec, entry, q)]
                p < q && occurs_at(sec, heading, p) && occurs_at(sec, entry, q)
        }),
{
    reveal_strlit("Updated:\n");
    reveal_strlit("Failed:\n");
    reveal_strlit("Missing:\n");
    reveal_strlit("Updated");
    reveal_strlit("Failed");
    reveal_strlit("Missing");
    reveal_strlit(":\n");
    let sec = shortcut_section(Some(r), found, missing);
    let st = r.details@[i].state;
    let updated = paths_in_state(r.details@, ShortcutApplyState::Updated);
    let failed = paths_in_state(r.details@, ShortcutApplyState::Failed);
    let gone = paths_in_state(r.details@, ShortcutApplyState::IgnoredMissing);
    let u = group("Updated"@, updated);
    let g = group("Failed"@, failed);
    let m = group("Missing"@, gone);
    let path = r.details@[i].path@;
    lemma_in_state(r.details@, st, i);
    match st {
        ShortcutApplyState::Updated => {
            assert(sec.subrange(0, u.len() as int) =~= u);
            assert("Updated"@ + ":\n"@ =~= "Updated:\n"@);
            lemma_section_lists(sec, 0, "Updated"@, updated, path);
            let entry = "  "@ + location_label(path) + "\n"@ + "    "@ + path + "\n"@;
            let (p, q) = choose|p: int, q: int| p < q && occurs_at(sec, "Updated"@ + ":\n"@, p) && occurs_at(sec, entry, q);
            assert(occurs_at(sec, result_heading(st), p));
            assert(occurs_at(sec, entry, q));
        },
        ShortcutApplyState::Failed => {
            assert(sec.subrange(u.len() as int, (u.len() + g.len()) as int) =~= g);
            assert("Failed"@ + ":\n"@ =~= "Failed:\n"@);
            lemma_section_lists(sec, u.len() as int, "Failed"@, failed, path);
            let entry = "  "@ + location_label(path) + "\n"@ + "    "@ + path + "\n"@;
            let (p, q) = choose|p: int, q: int| p < q && occurs_at(sec, "Failed"@ + ":\n"@, p) && occurs_at(sec, entry, q);
            assert(occurs_at(sec, result_heading(st), p));
            assert(occurs_at(sec, entry, q));
        },
        ShortcutApplyState::IgnoredMissing => {
            assert(sec.subrange((u.len() + g.len()) as int, (u.len() + g.len() + m.len()) as int) =~= m);
            assert("Missing"@ + ":\n"@ =~= "Missing:\n"@);
            lemma_section_lists(sec, (u.len() + g.len()) as int, "Missing"@, gone, path);
            let entry = "  "@ + location_label(path) + "\n"@ + "    "@ + path + "\n"@;
            let (p, q) = choose|p: int, q: int| p < q && occurs_at(sec, "Missing"@ + ":\n"@, p) && occurs_at(sec, entry, q);
            assert(occurs_at(sec, result_heading(st), p));
            assert(occurs_at(sec, entry, q));
        },
    }
}

/// The heading of the group of shortcuts in each state: `Updated:`, `Failed:`,
/// `Missing:`.
pub open spec fn result_heading(st: ShortcutApplyState) -> Seq<char> {
    match st {
        ShortcutApplyState::Updated => "Updated:\n"@,
        ShortcutApplyState::Failed => "Failed:\n"@,
        ShortcutApplyState::IgnoredMissing => "Missing:\n"@,
    }
}

proof fn lemma_section_lists(sec: Seq<char>, base: int, title: Seq<char>, paths: Seq<Seq<char>>, path: Seq<char>)
    requires
        0 <= base,
        base + group(title, paths).len() <= sec.len(),
        sec.subrange(base, base + group(title, paths).len()) == group(title, paths),
        paths.contains(path),
    ensures
        ({
            let entry = "  "@ + location_label(path) + "\n"@ + "    "@ + path + "\n"@;
            exists|p: int, q: int|
                #![trigger occurs_at(sec, title + ":\n"@, p), occurs_at(sec, entry, q)]
                p < q && occurs_at(sec, title + ":\n"@, p) && occurs_at(sec, entry, q)
        }),
{
    let grp = group(title, paths);
    let j = choose|j: int| 0 <= j < paths.len() && paths[j] == path;
    let off = lemma_group_lists(title, paths, j);
    let h = title + ":\n"@;
    let y = "  "@ + location_label(path) + "\n"@ + "    "@ + path + "\n"@;
    assert(y == path_entry(location_label(path), path));
    assert(grp.subrange(0, h.len() as int) == h);
    assert(grp.subrange(off, off + y.len()) == y);
    assert(sec.subrange(base, base + h.len()) =~= grp.subrange(0, h.len() as int));
    assert(sec.subrange(base + off, base + off + y.len()) =~= grp.subrange(off, off + y.len()));
    assert(occurs_at(sec, h, base));
    assert(occurs_at(sec, y, base + off));
}

/// Appends the shortcut part of the Info window; `found` and `missing` are the
/// candidate shortcut paths that exist and that do not, used when nothing has
/// run yet.
pub fn write_shortcut_section(
    report: &mut Vec<char>,
    last_apply_result: Option<&ApplyResult>,
    found: &Vec<String>,
    missing: &Vec<String>,
)
    ensures
        final(report)@ == old(report)@ + shortcut_section(
            match last_apply_result {
                Some(r) => Some(*r),
                None => None,
            },
            found.deep_view(),
            missing.deep_view(),
        ),
{
    match last_apply_result {
        Some(result) => {
            let updated = collect_paths(&result.details, ShortcutApplyState::Updated);
            let failed = collect_paths(&result.details, ShortcutApplyState::Failed);
            let gone = collect_paths(&result.details, ShortcutApplyState::IgnoredMissing);
            write_shortcut_group(report, "Updated", &updated);
            write_shortcut_group(report, "Failed", &failed);
            write_shortcut_group(report, "Missing", &gone);
            append_str(report, "Latest summary: ");
            append_chars(report, &decimal_chars(result.found_shortcuts));
            append_str(report, " found, ");
            append_chars(report, &decimal_chars(updated.len()));
            append_str(report, " updated, ");
            append_chars(report, &decimal_chars(gone.len()));
            append_str(report, " missing, ");
            append_chars(report, &decimal_chars(failed.len()));
            append_str(report, " failed\n");
            assert(report@ =~= old(report)@ + shortcut_section(Some(*result), found.deep_view(), missing.deep_view()));
        },
        None => {
            write_shortcut_group(report, "Found", found);
            write_shortcut_group(report, "Missing", missing);
            append_str(report, "No operation has run during this session.\n");
            assert(report@ =~= old(report)@ + shortcut_section(None, found.deep_view(), missing.deep_view()));
        },
    }
}

/// The text shown for a candidate's path.
pub open spec fn candidate_path_text(c: EdgeExecutableCandidate) -> Seq<char> {
    match opt_view(c.path) {
        Some(p) => p,
        None => "(environment variable not set)"@,
    }
}

/// `  <status> - <source>` and `    <path>`, each on its own line.
pub open spec fn candidate_entry(c: EdgeExecutableCandidate, status: Seq<char>) -> Seq<char> {
    "  "@ + status + " - "@ + c.source@ + "\n"@ + "    "@ + candidate_path_text(c) + "\n"@
}

/// Appends one candidate's entry.
pub fn write_candidate_entry(report: &mut Vec<char>, candidate: &EdgeExecutableCandidate, status: &str)
    ensures
        final(report)@ == old(report)@ + candidate_entry(*candidate, status@),
{
    append_str(report, "  ");
    append_str(report, status);
    append_str(report, " - ");
    append_str(report, candidate.source);
    append_str(report, "\n");
    append_str(report, "    ");
    match &candidate.path {
        Some(p) => append_str(report, p.as_str()),
        None => append_str(report, "(environment variable not set)"),
    }
    append_str(report, "\n");
    assert(report@ =~= old(report)@ + candidate_entry(*candidate, status@));
}

/// A candidate's status: selected, found, missing, or without its base folder.
pub open spec fn candidate_status(c: EdgeExecutableCandidate) -> Seq<char> {
    if c.selected {
        "Selected"@
    } else if c.exists {
        "Found"@
    } else if c.path is Some {
        "Missing"@
    } else {
        "Environment missing"@
    }
}

/// The entries of all candidates with their status, in order.
pub open spec fn candidate_entries(cs: Seq<EdgeExecutableCandidate>) -> Seq<char>
    decreases cs.len(),
{
    if cs.len() == 0 {
        Seq::<char>::empty()
    } else {
        candidate_entries(cs.drop_last()) + candidate_entry(cs.last(), candidate_status(cs.last()))
    }
}

/// The index of the first selected candidate among `cs[i..]`.
pub open spec fn first_selected(cs: Seq<EdgeExecutableCandidate>, i: int) -> Option<int>
    decreases cs.len() - i,
{
    if i < 0 || i >= cs.len() {
        None
    } else if cs[i].selected {
        Some(i)
    } else {
        first_selected(cs, i + 1)
    }
}

/// The Edge executable part of the Info window: the selected candidate (or a
/// note that none was found), every candidate with its status, and a note that
/// the list is for reference only.
pub open spec fn candidate_section(cs: Seq<EdgeExecutableCandidate>) -> Seq<char> {
    let selected = match first_selected(cs, 0) {
        Some(i) => candidate_entry(cs[i], "Selected"@),
        None => "  Not found in common install locations\n"@,
    };
    "Selected:\n"@ + selected + "\n"@ + "Candidates:\n"@ + candidate_entries(cs) + "\n"@
        + "For reference and diagnostic purposes only.\n"@
}

/// Appends the Edge executable part of the Info window.
pub fn write_edge_candidate_section(report: &mut Vec<char>, candidates: &Vec<EdgeExecutableCandidate>)
    ensures
        final(report)@ == old(report)@ + candidate_section(candidates@),
{
    let ghost cs = candidates@;
    append_str(report, "Selected:\n");
    let mut k: usize = 0;
    while k < candidates.len() && !candidates[k].selected
        invariant
            k <= candidates@.len(),
            first_selected(cs, 0) == first_selected(cs, k as int),
            cs == candidates@,
        decreases candidates@.len() - k,
    {
        k += 1;
    }
    if k < candidates.len() {
        write_candidate_entry(report, &candidates[k], "Selected");
    } else {
        append_str(report, "  Not found in common install locations\n");
    }
    let ghost head = report@;
    append_str(report, "\n");
    append_str(report, "Candidates:\n");
    let ghost before_entries = report@;
    let mut i: usize = 0;
    assert(cs.take(0) =~= Seq::<EdgeExecutableCandidate>::empty());
    assert(report@ =~= before_entries + candidate_entries(cs.take(0)));
    while i < candidates.len()
        invariant
            i <= candidates@.len(),
            cs == candidates@,
            report@ == before_entries + candidate_entries(cs.take(i as int)),
        decreases candidates@.len() - i,
    {
        assert(cs.take(i + 1).drop_last() =~= cs.take(i as int));
        assert(cs.take(i + 1).last() == cs[i as int]);
        let c = &candidates[i];
        let status = if c.selected {
            "Selected"
        } else if c.exists {
            "Found"
        } else if c.path.is_some() {
            "Missing"
        } else {
            "Environment missing"
        };
        write_candidate_entry(report, c, status);
        assert(report@ =~= before_entries + candidate_entries(cs.take(i + 1)));
        i += 1;
    }
    assert(cs.take(cs.len() as int) =~= cs);
    append_str(report, "\n");
    append_str(report, "For reference and diagnostic purposes only.\n");
    assert(report@ =~= old(report)@ + candidate_section(cs));
}

/// `s` with every line feed turned into a carriage return and line feed.
pub open spec fn crlf(s: Seq<char>) -> Seq<char>
    decreases s.len(),
{
    if s.len() == 0 {
        s
    } else if s.last() == '\n' {
        crlf(s.drop_last()) + seq!['\r', '\n']
    } else {
        crlf(s.drop_last()).push(s.last())
    }
}

/// `s` with every line feed turned into a carriage return and line feed.
pub fn to_crlf(s: &Vec<char>) -> (r: Vec<char>)
    ensures
        r@ == crlf(s@),
{
    let mut r: Vec<char> = Vec::new();
    let mut i: usize = 0;
    assert(s@.take(0) =~= Seq::<char>::empty());
    while i < s.len()
        invariant
            i <= s@.len(),
            r@ == crlf(s@.take(i as int)),
        decreases s@.len() - i,
    {
        assert(s@.take(i + 1).drop_last() =~= s@.take(i as int));
        assert(s@.take(i + 1).last() == s@[i as int]);
        if s[i] == '\n' {
            r.push('\r');
            r.push('\n');
        } else {
            r.push(s[i]);
        }
        assert(r@ =~= crlf(s@.take(i + 1)));
        i += 1;
    }
    assert(s@.take(s@.len() as int) =~= s@);
    r
}

/// The two texts of the Info window, with CRLF line endings: the Edge
/// executable part and the shortcut part.
pub fn build_status_reports(
    last_apply_result: Option<&ApplyResult>,
    candidates: &Vec<EdgeExecutableCandidate>,
    found: &Vec<String>,
    missing: &Vec<String>,
) -> (r: (String, String))
    ensures
        r.0@ == crlf(candidate_section(candidates@)),
        r.1@ == crlf(
            shortcut_section(
                match last_apply_result {
                    Some(x) => Some(*x),
                    None => None,
                },
                found.deep_view(),
                missing.deep_view(),
            ),
        ),
{
    let mut edge_report: Vec<char> = Vec::new();
    write_edge_candidate_section(&mut edge_report, candidates);
    assert(edge_report@ =~= candidate_section(candidates@));
    let mut shortcut_report: Vec<char> = Vec::new();
    write_shortcut_section(&mut shortcut_report, last_apply_result, found, missing);
    assert(shortcut_report@ =~= shortcut_section(
        match last_apply_result {
            Some(x) => Some(*x),
            None => None,
        },
        found.deep_view(),
        missing.deep_view(),
    ));
    (string_from_chars(&to_crlf(&edge_report)), string_from_chars(&to_crlf(&shortcut_report)))
}

/// The number of UTF-8 bytes of a character.
pub open spec fn utf8_len(c: char) -> nat {
    if (c as u32) < 0x80 {
        1
    } else if (c as u32) < 0x800 {
        2
    } else if (c as u32) < 0x10000 {
        3
    } else {
        4
    }
}

/// The number of UTF-16 units of a character.
pub open spec fn utf16_len(c: char) -> nat {
    if (c as u32) < 0x10000 {
        1
    } else {
        2
    }
}

/// The rich-edit position reached after the characters `s[i..]` that start
/// before byte `limit`, starting from character `i` at byte `b`: a CRLF pair
/// that ends before `limit` counts as one position, any other character as its
/// number of UTF-16 units.
pub open spec fn rich_position_from(s: Seq<char>, i: int, b: int, limit: int) -> nat
    decreases s.len() - i,
{
    if i < 0 || i >= s.len() || b >= limit {
        0
    } else if b + 1 < limit && s[i] == '\r' && i + 1 < s.len() && s[i + 1] == '\n' {
        1 + rich_position_from(s, i + 2, b + 2, limit)
    } else {
        utf16_len(s[i]) + rich_position_from(s, i + 1, b + utf8_len(s[i]), limit)
    }
}

/// The rich-edit selection position of a byte position in `text`.
pub open spec fn rich_position(text: Seq<char>, byte_index: int) -> nat {
    rich_position_from(text, 0, 0, byte_index)
}

/// Converts a byte position in `text` to a rich-edit selection position, where
/// a CRLF pair is one position and other characters count in UTF-16 units; a
/// position past the end counts the whole text. A position two or more bytes
/// past the end, or one byte past the end of a text that ends with `\r`, would
/// read a byte after the text: such a call is excluded. The result must fit
/// in a `u32`.
pub fn rich_edit_position(text: &str, byte_index: usize) -> (r: u32)
    requires
        byte_index <= text.spec_bytes().len() || (byte_index == text.spec_bytes().len() + 1 && (text@.len()
            == 0 || text@.last() != '\r')),
        rich_position(text@, byte_index as int) <= u32::MAX,
    ensures
        r as nat == rich_position(text@, byte_index as int),
{
    let s = chars_of(text);
    let mut position: u32 = 0;
    let mut index: usize = 0;
    let mut ci: usize = 0;
    while ci < s.len() && index < byte_index
        invariant
            ci <= s@.len(),
            s@ == text@,
            index <= byte_index,
            position + rich_position_from(s@, ci as int, index as int, byte_index as int) == rich_position(
                s@,
                byte_index as int,
            ),
            rich_position(s@, byte_index as int) <= u32::MAX,
        decreases s@.len() - ci,
    {
        if index + 1 < byte_index && s[ci] == '\r' && ci + 1 < s.len() && s[ci + 1] == '\n' {
            position += 1;
            index += 2;
            ci += 2;
        } else {
            let c = s[ci];
            let code = c as u32;
            let units: u32 = if code < 0x10000 {
                1
            } else {
                2
            };
            let bytes: usize = if code < 0x80 {
                1
            } else if code < 0x800 {
                2
            } else if code < 0x10000 {
                3
            } else {
                4
            };
            proof {
                if bytes >= byte_index - index {
                    assert(rich_position_from(s@, ci + 1, index + bytes, byte_index as int) == 0);
                    assert(rich_position_from(s@, ci + 1, byte_index as int, byte_index as int) == 0);
                }
            }
            position += units;
            if bytes >= byte_index - index {
                index = byte_index;
            } else {
                index += bytes;
            }
            ci += 1;
        }
    }
    position
}

} // verus!
