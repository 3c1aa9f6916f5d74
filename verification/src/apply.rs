//! Applying options: which shortcuts get which arguments, and the record of
//! what happened to each of them.
use vstd::prelude::*;

use crate::options::merge_shortcut_arguments;
use crate::registry::ExternalLinkApplyResult;
use crate::targets::{selected_shortcut_display_names, ShortcutTargetSelection};
use crate::text::{chars_of, trim};

verus! {

/// What happened to one shortcut.
#[derive(Clone, Copy, PartialEq, Eq, Structural, Debug)]
pub enum ShortcutApplyState {
    Updated,
    Failed,
    IgnoredMissing,
}

/// One shortcut and what happened to it.
pub struct ShortcutApplyDetail {
    pub path: String,
    pub state: ShortcutApplyState,
}

/// The record of one run of applying options.
pub struct ApplyResult {
    /// The display names of the selected channels.
    pub selected_shortcut_names: Vec<&'static str>,
    /// How many shortcuts existed (selected or not).
    pub found_shortcuts: usize,
    /// How many existing shortcuts could not be updated.
    pub failed: usize,
    /// Each shortcut updated, failed, or (if selected) missing, in order.
    pub details: Vec<ShortcutApplyDetail>,
    /// How the link options ended, once they have been applied.
    pub external_links: Option<ExternalLinkApplyResult>,
}

/// How many details are in state `st`.
pub open spec fn count_state(details: Seq<ShortcutApplyDetail>, st: ShortcutApplyState) -> nat
    decreases details.len(),
{
    if details.len() == 0 {
        0
    } else {
        count_state(details.drop_last(), st) + if details.last().state == st {
            1nat
        } else {
            0nat
        }
    }
}

impl ApplyResult {
    /// The counters agree with the details: every existing shortcut was either
    /// updated or failed.
    pub open spec fn wf(self) -> bool {
        &&& self.found_shortcuts == count_state(self.details@, ShortcutApplyState::Updated)
            + count_state(self.details@, ShortcutApplyState::Failed)
        &&& self.failed == count_state(self.details@, ShortcutApplyState::Failed)
    }

    /// A record with nothing applied yet, for the given selection.
    pub fn new(selection: &ShortcutTargetSelection) -> (r: ApplyResult)
        ensures
            r.wf(),
            r.found_shortcuts == 0,
            r.failed == 0,
            r.details@.len() == 0,
            r.external_links is None,
            r.selected_shortcut_names@.len() == selection.matching(true, 4).len(),
            forall|i: int|
                0 <= i < r.selected_shortcut_names@.len() ==> #[trigger] r.selected_shortcut_names@[i]@
                    == selection.matching(true, 4)[i].0,
    {
        ApplyResult {
            selected_shortcut_names: selected_shortcut_display_names(selection),
            found_shortcuts: 0,
            failed: 0,
            details: Vec::new(),
            external_links: None,
        }
    }
}

/// What was found at a shortcut path when its arguments were to be set.
#[derive(Clone, Copy, PartialEq, Eq, Structural, Debug)]
pub enum ShortcutProbe {
    /// No file at the path.
    Missing,
    /// The shortcut exists and its arguments were set.
    Updated,
    /// The shortcut exists but setting its arguments failed.
    Failed,
}

/// Records what happened at one shortcut path: a missing shortcut is listed
/// only when `show_missing`; an existing one counts as found, and as failed when
/// it could not be updated.
pub fn apply_shortcut_path(result: &mut ApplyResult, shortcut_path: String, probe: ShortcutProbe, show_missing: bool)
    requires
        old(result).wf(),
        old(result).details@.len() < usize::MAX,
    ensures
        final(result).wf(),
        final(result).selected_shortcut_names == old(result).selected_shortcut_names,
        final(result).external_links == old(result).external_links,
        probe == ShortcutProbe::Missing ==> {
            &&& final(result).found_shortcuts == old(result).found_shortcuts
            &&& final(result).failed == old(result).failed
            &&& show_missing ==> final(result).details@.len() == old(result).details@.len() + 1
                && final(result).details@.last().path@ == shortcut_path@
                && final(result).details@.last().state == ShortcutApplyState::IgnoredMissing
                && final(result).details@.drop_last() == old(result).details@
            &&& !show_missing ==> final(result).details@ == old(result).details@
        },
        probe == ShortcutProbe::Updated ==> {
            &&& final(result).found_shortcuts == old(result).found_shortcuts + 1
            &&& final(result).failed == old(result).failed
            &&& final(result).details@.len() == old(result).details@.len() + 1
            &&& final(result).details@.last().path@ == shortcut_path@
            &&& final(result).details@.last().state == ShortcutApplyState::Updated
            &&& final(result).details@.drop_last() == old(result).details@
        },
        probe == ShortcutProbe::Failed ==> {
            &&& final(result).found_shortcuts == old(result).found_shortcuts + 1
            &&& final(result).failed == old(result).failed + 1
            &&& final(result).details@.len() == old(result).details@.len() + 1
            &&& final(result).details@.last().path@ == shortcut_path@
            &&& final(result).details@.last().state == ShortcutApplyState::Failed
            &&& final(result).details@.drop_last() == old(result).details@
        },
{
    let ghost before = result.details@;
    proof {
        lemma_count_bound(before);
    }
    match probe {
        ShortcutProbe::Missing => {
            if show_missing {
                result.details.push(ShortcutApplyDetail { path: shortcut_path, state: ShortcutApplyState::IgnoredMissing });
                assert(result.details@.drop_last() =~= before);
            }
        },
        ShortcutProbe::Updated => {
            result.found_shortcuts += 1;
            result.details.push(ShortcutApplyDetail { path: shortcut_path, state: ShortcutApplyState::Updated });
            assert(result.details@.drop_last() =~= before);
        },
        ShortcutProbe::Failed => {
            result.found_shortcuts += 1;
            result.failed += 1;
            result.details.push(ShortcutApplyDetail { path: shortcut_path, state: ShortcutApplyState::Failed });
            assert(result.details@.drop_last() =~= before);
        },
    }
}

proof fn lemma_count_bound(details: Seq<ShortcutApplyDetail>)
    ensures
        count_state(details, ShortcutApplyState::Updated) + count_state(details, ShortcutApplyState::Failed)
            + count_state(details, ShortcutApplyState::IgnoredMissing) == details.len(),
    decreases details.len(),
{
    if details.len() > 0 {
        lemma_count_bound(details.drop_last());
    }
}

/// One shortcut to set the arguments of: the path, the new argument string, and
/// whether to list it when it is missing.
pub struct ShortcutJob {
    pub path: String,
    pub arguments: String,
    pub show_missing: bool,
}

/// The view of a job: (path, arguments, show missing).
pub open spec fn job_view(j: ShortcutJob) -> (Seq<char>, Seq<char>, bool) {
    (j.path@, j.arguments@, j.show_missing)
}

/// The jobs for `paths`, each setting `arguments`.
pub open spec fn jobs_for(paths: Seq<Seq<char>>, arguments: Seq<char>, show_missing: bool) -> Seq<(Seq<char>, Seq<char>, bool)> {
    paths.map_values(|p: Seq<char>| (p, arguments, show_missing))
}

/// Everything that applying options decides before touching any file: the
/// fresh record, the shortcut jobs in order, and the options for web links.
pub struct ApplyPlan {
    pub result: ApplyResult,
    pub jobs: Vec<ShortcutJob>,
    pub external_options: String,
}

fn add_jobs(jobs: &mut Vec<ShortcutJob>, paths: &Vec<String>, arguments: &String, show_missing: bool)
    ensures
        final(jobs)@.map_values(|j: ShortcutJob| job_view(j)) == old(jobs)@.map_values(|j: ShortcutJob| job_view(j))
            + jobs_for(paths.deep_view(), arguments@, show_missing),
{
    let ghost start = old(jobs)@.map_values(|j: ShortcutJob| job_view(j));
    let ghost ps = paths.deep_view();
    let mut i: usize = 0;
    assert(start + jobs_for(ps.take(0), arguments@, show_missing) =~= start);
    while i < paths.len()
        invariant
            i <= paths@.len(),
            ps == paths.deep_view(),
            start == old(jobs)@.map_values(|j: ShortcutJob| job_view(j)),
            jobs@.map_values(|j: ShortcutJob| job_view(j)) == start + jobs_for(ps.take(i as int), arguments@, show_missing),
        decreases paths@.len() - i,
    {
        let ghost before = jobs@.map_values(|j: ShortcutJob| job_view(j));
        let path = paths[i].clone();
        let args = arguments.clone();
        assert(path@ == ps[i as int]);
        let job = ShortcutJob { path, arguments: args, show_missing };
        assert(job_view(job) == (ps[i as int], arguments@, show_missing));
        jobs.push(job);
        assert(jobs@.map_values(|j: ShortcutJob| job_view(j)) =~= before.push((ps[i as int], arguments@, show_missing)));
        assert(jobs_for(ps.take(i + 1), arguments@, show_missing) =~= jobs_for(ps.take(i as int), arguments@, show_missing).push((ps[i as int], arguments@, show_missing)));
        assert(jobs@.map_values(|j: ShortcutJob| job_view(j)) =~= start + jobs_for(ps.take(i + 1), arguments@, show_missing));
        i += 1;
    }
    assert(ps.take(paths@.len() as int) =~= ps);
}

/// The options for web links: the applied options when links are included,
/// otherwise none (which restores the original link handling).
pub open spec fn external_options_for(options: Seq<char>, apply_external_links: bool) -> Seq<char> {
    if apply_external_links {
        options
    } else {
        Seq::<char>::empty()
    }
}

/// Plans applying `options` to the candidate shortcuts of the selected channels
/// (`selected_paths`) and of the others (`unselected_paths`): each selected one
/// gets the trimmed options (and is listed when missing); each other one gets
/// empty arguments (and is not listed when missing); the link options are
/// `options` when links are included and empty otherwise.
pub fn apply_options(
    options: &str,
    selection: &ShortcutTargetSelection,
    apply_external_links: bool,
    selected_paths: &Vec<String>,
    unselected_paths: &Vec<String>,
) -> (p: ApplyPlan)
    ensures
        p.result.wf(),
        p.result.found_shortcuts == 0,
        p.result.failed == 0,
        p.result.details@.len() == 0,
        p.result.external_links is None,
        p.result.selected_shortcut_names@.len() == selection.matching(true, 4).len(),
        forall|i: int|
            0 <= i < p.result.selected_shortcut_names@.len() ==> #[trigger] p.result.selected_shortcut_names@[i]@
                == selection.matching(true, 4)[i].0,
        p.jobs@.map_values(|j: ShortcutJob| job_view(j)) == jobs_for(selected_paths.deep_view(), trim(options@), true)
            + jobs_for(unselected_paths.deep_view(), Seq::<char>::empty(), false),
        p.external_options@ == external_options_for(options@, apply_external_links),
{
    let result = ApplyResult::new(selection);
    let mut jobs: Vec<ShortcutJob> = Vec::new();
    assert(jobs@.map_values(|j: ShortcutJob| job_view(j)) =~= Seq::<(Seq<char>, Seq<char>, bool)>::empty());
    let arguments = merge_shortcut_arguments("", options);
    add_jobs(&mut jobs, selected_paths, &arguments, true);
    let cleared = merge_shortcut_arguments("", "");
    proof {
        reveal_strlit("");
        assert(trim(""@) =~= Seq::<char>::empty());
    }
    add_jobs(&mut jobs, unselected_paths, &cleared, false);
    let external_options = if apply_external_links {
        String::from_str(options)
    } else {
        String::new()
    };
    ApplyPlan { result, jobs, external_options }
}

/// A detail as (path, state).
pub open spec fn detail_view(d: ShortcutApplyDetail) -> (Seq<char>, ShortcutApplyState) {
    (d.path@, d.state)
}

/// What one job adds to the details, given what was found at its path.
pub open spec fn job_record(job: (Seq<char>, Seq<char>, bool), probe: ShortcutProbe) -> Seq<(Seq<char>, ShortcutApplyState)> {
    match probe {
        ShortcutProbe::Missing => if job.2 {
            seq![(job.0, ShortcutApplyState::IgnoredMissing)]
        } else {
            seq![]
        },
        ShortcutProbe::Updated => seq![(job.0, ShortcutApplyState::Updated)],
        ShortcutProbe::Failed => seq![(job.0, ShortcutApplyState::Failed)],
    }
}

/// What a run of jobs adds to the details, one job after the other.
pub open spec fn run_records(jobs: Seq<(Seq<char>, Seq<char>, bool)>, probes: Seq<ShortcutProbe>) -> Seq<(Seq<char>, ShortcutApplyState)>
    decreases jobs.len(),
{
    if jobs.len() == 0 {
        seq![]
    } else {
        run_records(jobs.drop_last(), probes.drop_last()) + job_record(jobs.last(), probes[jobs.len() - 1])
    }
}

/// Records a whole run: `probes[i]` is what was found at `jobs[i]`'s path (and,
/// when it existed, whether its arguments were set). The details grow by one
/// record per job in order (none for a missing shortcut that is not to be
/// listed), and the counters stay in step with them.
pub fn record_run(result: &mut ApplyResult, jobs: &Vec<ShortcutJob>, probes: &Vec<ShortcutProbe>)
    requires
        old(result).wf(),
        probes@.len() == jobs@.len(),
        old(result).details@.len() + jobs@.len() < usize::MAX,
    ensures
        final(result).wf(),
        final(result).selected_shortcut_names == old(result).selected_shortcut_names,
        final(result).external_links == old(result).external_links,
        final(result).details@.map_values(|d: ShortcutApplyDetail| detail_view(d)) == old(result).details@.map_values(
            |d: ShortcutApplyDetail| detail_view(d),
        ) + run_records(jobs@.map_values(|j: ShortcutJob| job_view(j)), probes@),
{
    let ghost js = jobs@.map_values(|j: ShortcutJob| job_view(j));
    let ghost start = old(result).details@.map_values(|d: ShortcutApplyDetail| detail_view(d));
    let mut i: usize = 0;
    assert(js.take(0) =~= Seq::<(Seq<char>, Seq<char>, bool)>::empty());
    assert(start + run_records(js.take(0), probes@.take(0)) =~= start);
    while i < jobs.len()
        invariant
            i <= jobs@.len(),
            probes@.len() == jobs@.len(),
            js == jobs@.map_values(|j: ShortcutJob| job_view(j)),
            start == old(result).details@.map_values(|d: ShortcutApplyDetail| detail_view(d)),
            result.wf(),
            result.selected_shortcut_names == old(result).selected_shortcut_names,
            result.external_links == old(result).external_links,
            result.details@.len() <= old(result).details@.len() + i,
            old(result).details@.len() + jobs@.len() < usize::MAX,
            result.details@.map_values(|d: ShortcutApplyDetail| detail_view(d)) == start + run_records(
                js.take(i as int),
                probes@.take(i as int),
            ),
        decreases jobs@.len() - i,
    {
        let ghost before = result.details@;
        let path = jobs[i].path.clone();
        assert(path@ == js[i as int].0);
        apply_shortcut_path(result, path, probes[i], jobs[i].show_missing);
        assert(js.take(i + 1).drop_last() =~= js.take(i as int));
        assert(probes@.take(i + 1).drop_last() =~= probes@.take(i as int));
        assert(js.take(i + 1).last() == js[i as int]);
        assert(result.details@.map_values(|d: ShortcutApplyDetail| detail_view(d)) =~= before.map_values(
            |d: ShortcutApplyDetail| detail_view(d),
        ) + job_record(js[i as int], probes@[i as int]));
        i += 1;
    }
    assert(js.take(jobs@.len() as int) =~= js);
    assert(probes@.take(jobs@.len() as int) =~= probes@);
}

/// The status line after a run: no shortcut found, some failed, or applied.
pub open spec fn status_message(found: nat, failed: nat, mode_name: Seq<char>) -> Seq<char> {
    if found == 0 {
        "No shortcuts found"@
    } else if failed > 0 {
        "Completed with errors"@
    } else {
        "Applied: "@ + mode_name
    }
}

/// The status line after a run of the named mode.
pub fn apply_status_message(result: &ApplyResult, mode_name: &str) -> (r: String)
    ensures
        r@ == status_message(result.found_shortcuts as nat, result.failed as nat, mode_name@),
{
    if result.found_shortcuts == 0 {
        String::from_str("No shortcuts found")
    } else if result.failed > 0 {
        String::from_str("Completed with errors")
    } else {
        let mut r = String::from_str("Applied: ");
        r.append(mode_name);
        r
    }
}

} // verus!
