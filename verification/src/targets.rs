//! The Edge shortcut targets (Stable, Beta, Dev, Canary), the user's choice
//! among them, and the settings that the tool remembers between runs.
use vstd::prelude::*;

use crate::text::{chars_eq, chars_of, eq_ignore_ascii_case, eq_ignore_case};

verus! {

broadcast use crate::lemma_char_vec_deep_view;

/// The registry key under which the tool keeps its own settings.
pub const APP_REGISTRY_KEY: &'static str = "HKCU\\Software\\EdgeShortcutTool";

pub const SETTING_HIDE_SIGN_IN_INDICATOR: &'static str = "HideSignInIndicator";

pub const SETTING_RESTORE_SIDEBAR: &'static str = "RestoreSidebar";

pub const SETTING_DISABLE_EXTENSIONS: &'static str = "DisableExtensions";

pub const SETTING_APPLY_EXTERNAL_LINKS: &'static str = "ApplyExternalLinks";

pub const SETTING_SHORTCUT_STABLE: &'static str = "ShortcutStable";

pub const SETTING_SHORTCUT_BETA: &'static str = "ShortcutBeta";

pub const SETTING_SHORTCUT_DEV: &'static str = "ShortcutDev";

pub const SETTING_SHORTCUT_CANARY: &'static str = "ShortcutCanary";

/// One Edge channel's shortcut: the name shown to the user and the file name of
/// its `.lnk` file.
#[derive(Clone, Copy)]
pub struct ShortcutTarget {
    pub display_name: &'static str,
    pub shortcut_name: &'static str,
}

impl ShortcutTarget {
    /// The display name and shortcut file name.
    pub open spec fn names(self) -> (Seq<char>, Seq<char>) {
        (self.display_name@, self.shortcut_name@)
    }
}

/// The four channels, in order: Stable, Beta, Dev, Canary.
pub open spec fn target_names(k: int) -> (Seq<char>, Seq<char>) {
    if k == 0 {
        ("Microsoft Edge"@, "Microsoft Edge.lnk"@)
    } else if k == 1 {
        ("Microsoft Edge Beta"@, "Microsoft Edge Beta.lnk"@)
    } else if k == 2 {
        ("Microsoft Edge Dev"@, "Microsoft Edge Dev.lnk"@)
    } else {
        ("Microsoft Edge Canary"@, "Microsoft Edge Canary.lnk"@)
    }
}

/// The `k`-th channel's shortcut target.
pub fn shortcut_target(k: usize) -> (t: ShortcutTarget)
    requires
        k < 4,
    ensures
        t.names() == target_names(k as int),
{
    if k == 0 {
        ShortcutTarget { display_name: "Microsoft Edge", shortcut_name: "Microsoft Edge.lnk" }
    } else if k == 1 {
        ShortcutTarget { display_name: "Microsoft Edge Beta", shortcut_name: "Microsoft Edge Beta.lnk" }
    } else if k == 2 {
        ShortcutTarget { display_name: "Microsoft Edge Dev", shortcut_name: "Microsoft Edge Dev.lnk" }
    } else {
        ShortcutTarget { display_name: "Microsoft Edge Canary", shortcut_name: "Microsoft Edge Canary.lnk" }
    }
}

/// The names of a list of targets.
pub open spec fn names_of(ts: Seq<ShortcutTarget>) -> Seq<(Seq<char>, Seq<char>)> {
    ts.map_values(|t: ShortcutTarget| t.names())
}

/// Which channels' shortcuts the tool updates.
#[derive(Clone, Copy, PartialEq, Eq, Structural, Debug)]
pub struct ShortcutTargetSelection {
    pub stable: bool,
    pub beta: bool,
    pub dev: bool,
    pub canary: bool,
}

impl ShortcutTargetSelection {
    /// Whether the `k`-th channel is selected.
    pub open spec fn flag(self, k: int) -> bool {
        if k == 0 {
            self.stable
        } else if k == 1 {
            self.beta
        } else if k == 2 {
            self.dev
        } else {
            self.canary
        }
    }

    /// The first `n` channels whose flag is `want`, in channel order.
    pub open spec fn matching(self, want: bool, n: int) -> Seq<(Seq<char>, Seq<char>)>
        decreases n,
    {
        if n <= 0 {
            seq![]
        } else if self.flag(n - 1) == want {
            self.matching(want, n - 1).push(target_names(n - 1))
        } else {
            self.matching(want, n - 1)
        }
    }

    fn targets_with(&self, want: bool) -> (r: Vec<ShortcutTarget>)
        ensures
            names_of(r@) == self.matching(want, 4),
    {
        let mut r: Vec<ShortcutTarget> = Vec::new();
        let flags = [self.stable, self.beta, self.dev, self.canary];
        let mut k: usize = 0;
        while k < 4
            invariant
                k <= 4,
                flags@ == seq![self.stable, self.beta, self.dev, self.canary],
                names_of(r@) == self.matching(want, k as int),
            decreases 4 - k,
        {
            assert(flags@[k as int] == self.flag(k as int));
            if flags[k] == want {
                let ghost before = r@;
                r.push(shortcut_target(k));
                assert(names_of(r@) =~= names_of(before).push(target_names(k as int)));
            }
            k += 1;
        }
        r
    }

    /// The selected channels' targets, in channel order.
    pub fn selected_targets(&self) -> (r: Vec<ShortcutTarget>)
        ensures
            names_of(r@) == self.matching(true, 4),
    {
        self.targets_with(true)
    }

    /// The channels that are not selected, in channel order.
    pub fn unselected_targets(&self) -> (r: Vec<ShortcutTarget>)
        ensures
            names_of(r@) == self.matching(false, 4),
    {
        self.targets_with(false)
    }
}

/// Only Stable is selected by default.
impl Default for ShortcutTargetSelection {
    fn default() -> (s: Self)
        ensures
            s == (ShortcutTargetSelection { stable: true, beta: false, dev: false, canary: false }),
    {
        ShortcutTargetSelection { stable: true, beta: false, dev: false, canary: false }
    }
}

/// The display names of the selected channels, in channel order.
pub fn selected_shortcut_display_names(selection: &ShortcutTargetSelection) -> (r: Vec<&'static str>)
    ensures
        r@.len() == selection.matching(true, 4).len(),
        forall|i: int| 0 <= i < r@.len() ==> #[trigger] r@[i]@ == selection.matching(true, 4)[i].0,
{
    let targets = selection.selected_targets();
    let mut r: Vec<&'static str> = Vec::new();
    let mut i: usize = 0;
    while i < targets.len()
        invariant
            i <= targets@.len(),
            names_of(targets@) == selection.matching(true, 4),
            r@.len() == i,
            forall|j: int| 0 <= j < i ==> #[trigger] r@[j]@ == names_of(targets@)[j].0,
        decreases targets@.len() - i,
    {
        r.push(targets[i].display_name);
        i += 1;
    }
    r
}

/// The options the tool remembers between runs.
#[derive(Clone, Copy, PartialEq, Eq, Structural, Debug)]
pub struct AppSettings {
    pub hide_sign_in_indicator: bool,
    pub restore_sidebar: bool,
    pub disable_extensions: bool,
    pub apply_external_links: bool,
    pub shortcut_selection: ShortcutTargetSelection,
}

/// Hide sign-in red dot is on, the other options are off, and only Stable is
/// selected.
impl Default for AppSettings {
    fn default() -> (s: Self)
        ensures
            s == (AppSettings {
                hide_sign_in_indicator: true,
                restore_sidebar: false,
                disable_extensions: false,
                apply_external_links: false,
                shortcut_selection: ShortcutTargetSelection {
                    stable: true,
                    beta: false,
                    dev: false,
                    canary: false,
                },
            }),
    {
        AppSettings {
            hide_sign_in_indicator: true,
            restore_sidebar: false,
            disable_extensions: false,
            apply_external_links: false,
            shortcut_selection: ShortcutTargetSelection::default(),
        }
    }
}

/// The value stored under `name`: the first entry with that name.
pub open spec fn lookup(stored: Seq<(Seq<char>, Seq<char>)>, name: Seq<char>) -> Option<Seq<char>>
    decreases stored.len(),
{
    if stored.len() == 0 {
        None
    } else if stored[0].0 == name {
        Some(stored[0].1)
    } else {
        lookup(stored.drop_first(), name)
    }
}

/// A stored flag: `1` or `true` (in any ASCII case) is on, any other value is
/// off, and a missing value gives the default.
pub open spec fn registry_bool(value: Option<Seq<char>>, default: bool) -> bool {
    match value {
        Some(v) => v == "1"@ || eq_ignore_case(v, "true"@),
        None => default,
    }
}

/// How a flag is stored.
pub open spec fn bool_text(b: bool) -> Seq<char> {
    if b {
        "1"@
    } else {
        "0"@
    }
}

/// The settings read back from the stored values, each missing one taking its
/// default.
pub open spec fn settings_from(stored: Seq<(Seq<char>, Seq<char>)>) -> AppSettings {
    AppSettings {
        hide_sign_in_indicator: registry_bool(lookup(stored, SETTING_HIDE_SIGN_IN_INDICATOR@), true),
        restore_sidebar: registry_bool(lookup(stored, SETTING_RESTORE_SIDEBAR@), false),
        disable_extensions: registry_bool(lookup(stored, SETTING_DISABLE_EXTENSIONS@), false),
        apply_external_links: registry_bool(lookup(stored, SETTING_APPLY_EXTERNAL_LINKS@), false),
        shortcut_selection: ShortcutTargetSelection {
            stable: registry_bool(lookup(stored, SETTING_SHORTCUT_STABLE@), true),
            beta: registry_bool(lookup(stored, SETTING_SHORTCUT_BETA@), false),
            dev: registry_bool(lookup(stored, SETTING_SHORTCUT_DEV@), false),
            canary: registry_bool(lookup(stored, SETTING_SHORTCUT_CANARY@), false),
        },
    }
}

/// The values that store `s`, in the order they are written.
pub open spec fn saved_values(s: AppSettings) -> Seq<(Seq<char>, Seq<char>)> {
    seq![
        (SETTING_HIDE_SIGN_IN_INDICATOR@, bool_text(s.hide_sign_in_indicator)),
        (SETTING_RESTORE_SIDEBAR@, bool_text(s.restore_sidebar)),
        (SETTING_DISABLE_EXTENSIONS@, bool_text(s.disable_extensions)),
        (SETTING_APPLY_EXTERNAL_LINKS@, bool_text(s.apply_external_links)),
        (SETTING_SHORTCUT_STABLE@, bool_text(s.shortcut_selection.stable)),
        (SETTING_SHORTCUT_BETA@, bool_text(s.shortcut_selection.beta)),
        (SETTING_SHORTCUT_DEV@, bool_text(s.shortcut_selection.dev)),
        (SETTING_SHORTCUT_CANARY@, bool_text(s.shortcut_selection.canary)),
    ]
}

/// The value stored under `name`, if any.
pub fn lookup_value(stored: &Vec<(String, String)>, name: &str) -> (r: Option<Vec<char>>)
    ensures
        match r {
            Some(v) => lookup(stored.deep_view(), name@) == Some(v@),
            None => lookup(stored.deep_view(), name@) is None,
        },
{
    let ghost all = stored.deep_view();
    let wanted = chars_of(name);
    let mut i: usize = 0;
    assert(all.skip(0) =~= all);
    while i < stored.len()
        invariant
            i <= stored@.len(),
            all == stored.deep_view(),
            wanted@ == name@,
            lookup(all, name@) == lookup(all.skip(i as int), name@),
        decreases stored@.len() - i,
    {
        let entry_name = chars_of(stored[i].0.as_str());
        assert(all.skip(i as int)[0] == all[i as int]);
        if chars_eq(&entry_name, &wanted) {
            return Some(chars_of(stored[i].1.as_str()));
        }
        assert(all.skip(i as int).drop_first() =~= all.skip(i + 1));
        i += 1;
    }
    None
}

/// Reads a stored flag: `1` or `true` (in any ASCII case) is on, any other value
/// is off, and a missing value gives the default.
pub fn query_registry_bool(value: &Option<Vec<char>>, default_value: bool) -> (b: bool)
    ensures
        b == registry_bool(
            match value {
                Some(v) => Some(v@),
                None => None,
            },
            default_value,
        ),
{
    match value {
        Some(v) => {
            let one = chars_of("1");
            let yes = chars_of("true");
            chars_eq(v, &one) || eq_ignore_ascii_case(v, &yes)
        },
        None => default_value,
    }
}

fn stored_bool(stored: &Vec<(String, String)>, name: &str, default_value: bool) -> (b: bool)
    ensures
        b == registry_bool(lookup(stored.deep_view(), name@), default_value),
{
    let v = lookup_value(stored, name);
    query_registry_bool(&v, default_value)
}

/// The settings held in the stored values (name, value), each missing one
/// taking its default.
pub fn load_app_settings(stored: &Vec<(String, String)>) -> (s: AppSettings)
    ensures
        s == settings_from(stored.deep_view()),
{
    AppSettings {
        hide_sign_in_indicator: stored_bool(stored, SETTING_HIDE_SIGN_IN_INDICATOR, true),
        restore_sidebar: stored_bool(stored, SETTING_RESTORE_SIDEBAR, false),
        disable_extensions: stored_bool(stored, SETTING_DISABLE_EXTENSIONS, false),
        apply_external_links: stored_bool(stored, SETTING_APPLY_EXTERNAL_LINKS, false),
        shortcut_selection: ShortcutTargetSelection {
            stable: stored_bool(stored, SETTING_SHORTCUT_STABLE, true),
            beta: stored_bool(stored, SETTING_SHORTCUT_BETA, false),
            dev: stored_bool(stored, SETTING_SHORTCUT_DEV, false),
            canary: stored_bool(stored, SETTING_SHORTCUT_CANARY, false),
        },
    }
}

/// How a flag is stored: `1` or `0`.
pub fn set_registry_bool(value: bool) -> (r: &'static str)
    ensures
        r@ == bool_text(value),
{
    if value {
        "1"
    } else {
        "0"
    }
}

/// The values (name, value) that store the settings, in the order the tool
/// writes them.
pub fn save_app_settings(settings: &AppSettings) -> (r: Vec<(&'static str, &'static str)>)
    ensures
        r.deep_view() == saved_values(*settings),
{
    let r = vec![
        (SETTING_HIDE_SIGN_IN_INDICATOR, set_registry_bool(settings.hide_sign_in_indicator)),
        (SETTING_RESTORE_SIDEBAR, set_registry_bool(settings.restore_sidebar)),
        (SETTING_DISABLE_EXTENSIONS, set_registry_bool(settings.disable_extensions)),
        (SETTING_APPLY_EXTERNAL_LINKS, set_registry_bool(settings.apply_external_links)),
        (SETTING_SHORTCUT_STABLE, set_registry_bool(settings.shortcut_selection.stable)),
        (SETTING_SHORTCUT_BETA, set_registry_bool(settings.shortcut_selection.beta)),
        (SETTING_SHORTCUT_DEV, set_registry_bool(settings.shortcut_selection.dev)),
        (SETTING_SHORTCUT_CANARY, set_registry_bool(settings.shortcut_selection.canary)),
    ];
    assert(r.deep_view() =~= saved_values(*settings));
    r
}

/// The stored value names are pairwise different.
proof fn lemma_setting_names_distinct()
    ensures
        SETTING_HIDE_SIGN_IN_INDICATOR@ != SETTING_RESTORE_SIDEBAR@,
        SETTING_HIDE_SIGN_IN_INDICATOR@ != SETTING_DISABLE_EXTENSIONS@,
        SETTING_HIDE_SIGN_IN_INDICATOR@ != SETTING_APPLY_EXTERNAL_LINKS@,
        SETTING_HIDE_SIGN_IN_INDICATOR@ != SETTING_SHORTCUT_STABLE@,
        SETTING_HIDE_SIGN_IN_INDICATOR@ != SETTING_SHORTCUT_BETA@,
        SETTING_HIDE_SIGN_IN_INDICATOR@ != SETTING_SHORTCUT_DEV@,
        SETTING_HIDE_SIGN_IN_INDICATOR@ != SETTING_SHORTCUT_CANARY@,
        SETTING_RESTORE_SIDEBAR@ != SETTING_DISABLE_EXTENSIONS@,
        SETTING_RESTORE_SIDEBAR@ != SETTING_APPLY_EXTERNAL_LINKS@,
        SETTING_RESTORE_SIDEBAR@ != SETTING_SHORTCUT_STABLE@,
        SETTING_RESTORE_SIDEBAR@ != SETTING_SHORTCUT_BETA@,
        SETTING_RESTORE_SIDEBAR@ != SETTING_SHORTCUT_DEV@,
        SETTING_RESTORE_SIDEBAR@ != SETTING_SHORTCUT_CANARY@,
        SETTING_DISABLE_EXTENSIONS@ != SETTING_APPLY_EXTERNAL_LINKS@,
        SETTING_DISABLE_EXTENSIONS@ != SETTING_SHORTCUT_STABLE@,
        SETTING_DISABLE_EXTENSIONS@ != SETTING_SHORTCUT_BETA@,
        SETTING_DISABLE_EXTENSIONS@ != SETTING_SHORTCUT_DEV@,
        SETTING_DISABLE_EXTENSIONS@ != SETTING_SHORTCUT_CANARY@,
        SETTING_APPLY_EXTERNAL_LINKS@ != SETTING_SHORTCUT_STABLE@,
        SETTING_APPLY_EXTERNAL_LINKS@ != SETTING_SHORTCUT_BETA@,
        SETTING_APPLY_EXTERNAL_LINKS@ != SETTING_SHORTCUT_DEV@,
        SETTING_APPLY_EXTERNAL_LINKS@ != SETTING_SHORTCUT_CANARY@,
        SETTING_SHORTCUT_STABLE@ != SETTING_SHORTCUT_BETA@,
        SETTING_SHORTCUT_STABLE@ != SETTING_SHORTCUT_DEV@,
        SETTING_SHORTCUT_STABLE@ != SETTING_SHORTCUT_CANARY@,
        SETTING_SHORTCUT_BETA@ != SETTING_SHORTCUT_DEV@,
        SETTING_SHORTCUT_BETA@ != SETTING_SHORTCUT_CANARY@,
        SETTING_SHORTCUT_DEV@ != SETTING_SHORTCUT_CANARY@,
{
    reveal_strlit("HideSignInIndicator");
    reveal_strlit("RestoreSidebar");
    reveal_strlit("DisableExtensions");
    reveal_strlit("ApplyExternalLinks");
    reveal_strlit("ShortcutStable");
    reveal_strlit("ShortcutBeta");
    reveal_strlit("ShortcutDev");
    reveal_strlit("ShortcutCanary");
    assert(SETTING_HIDE_SIGN_IN_INDICATOR@.len() == 19);
    assert(SETTING_RESTORE_SIDEBAR@.len() == 14);
    assert(SETTING_DISABLE_EXTENSIONS@.len() == 17);
    assert(SETTING_APPLY_EXTERNAL_LINKS@.len() == 18);
    assert(SETTING_SHORTCUT_STABLE@.len() == 14);
    assert(SETTING_SHORTCUT_BETA@.len() == 12);
    assert(SETTING_SHORTCUT_DEV@.len() == 11);
    assert(SETTING_SHORTCUT_CANARY@.len() == 14);
    assert(SETTING_RESTORE_SIDEBAR@[0] != SETTING_SHORTCUT_STABLE@[0]);
    assert(SETTING_RESTORE_SIDEBAR@[0] != SETTING_SHORTCUT_CANARY@[0]);
    assert(SETTING_SHORTCUT_STABLE@[8] != SETTING_SHORTCUT_CANARY@[8]);
}

/// A flag reads back as what was stored for it.
proof fn lemma_bool_text_reads_back(b: bool, default: bool)
    ensures
        registry_bool(Some(bool_text(b)), default) == b,
{
    reveal_strlit("1");
    reveal_strlit("0");
    reveal_strlit("true");
    if !b {
        assert(bool_text(b) != "1"@) by {
            assert(bool_text(b)[0] != "1"@[0]);
        }
        assert(crate::text::lower(bool_text(b)).len() != crate::text::lower("true"@).len());
    }
}

/// Saving the settings and loading them back gives the same settings.
pub proof fn law_settings_round_trip(s: AppSettings)
    ensures
        settings_from(saved_values(s)) == s,
{
    lemma_setting_names_distinct();
    reveal_with_fuel(lookup, 9);
    let v = saved_values(s);
    assert(lookup(v, SETTING_HIDE_SIGN_IN_INDICATOR@) == Some(v[0].1));
    assert(lookup(v, SETTING_RESTORE_SIDEBAR@) == Some(v[1].1));
    assert(lookup(v, SETTING_DISABLE_EXTENSIONS@) == Some(v[2].1));
    assert(lookup(v, SETTING_APPLY_EXTERNAL_LINKS@) == Some(v[3].1));
    assert(lookup(v, SETTING_SHORTCUT_STABLE@) == Some(v[4].1));
    assert(lookup(v, SETTING_SHORTCUT_BETA@) == Some(v[5].1));
    assert(lookup(v, SETTING_SHORTCUT_DEV@) == Some(v[6].1));
    assert(lookup(v, SETTING_SHORTCUT_CANARY@) == Some(v[7].1));
    lemma_bool_text_reads_back(s.hide_sign_in_indicator, true);
    lemma_bool_text_reads_back(s.restore_sidebar, false);
    lemma_bool_text_reads_back(s.disable_extensions, false);
    lemma_bool_text_reads_back(s.apply_external_links, false);
    lemma_bool_text_reads_back(s.shortcut_selection.stable, true);
    lemma_bool_text_reads_back(s.shortcut_selection.beta, false);
    lemma_bool_text_reads_back(s.shortcut_selection.dev, false);
    lemma_bool_text_reads_back(s.shortcut_selection.canary, false);
}

/// The channels' display names are pairwise different.
proof fn lemma_target_names_distinct(j: int, k: int)
    requires
        0 <= j < 4,
        0 <= k < 4,
        j != k,
    ensures
        target_names(j) != target_names(k),
{
    reveal_strlit("Microsoft Edge");
    reveal_strlit("Microsoft Edge Beta");
    reveal_strlit("Microsoft Edge Dev");
    reveal_strlit("Microsoft Edge Canary");
    assert(target_names(j).0.len() != target_names(k).0.len());
}

/// What the first `n` channels whose flag is `want` hold.
proof fn lemma_matching(sel: ShortcutTargetSelection, want: bool, n: int)
    requires
        0 <= n <= 4,
    ensures
        forall|k: int|
            0 <= k < 4 ==> (#[trigger] sel.matching(want, n).contains(target_names(k)) <==> (k < n
                && sel.flag(k) == want)),
        sel.matching(want, n).len() + sel.matching(!want, n).len() == n,
    decreases n,
{
    if n > 0 {
        lemma_matching(sel, want, n - 1);
        lemma_matching(sel, !want, n - 1);
        let prev = sel.matching(want, n - 1);
        assert forall|k: int| 0 <= k < 4 implies (#[trigger] sel.matching(want, n).contains(
            target_names(k),
        ) <==> (k < n && sel.flag(k) == want)) by {
            let in_prev = prev.contains(target_names(k));
            assert(in_prev <==> (k < n - 1 && sel.flag(k) == want));
            if k != n - 1 {
                lemma_target_names_distinct(k, n - 1);
            }
            if sel.flag(n - 1) == want {
                let pushed = prev.push(target_names(n - 1));
                assert(sel.matching(want, n) == pushed);
                if pushed.contains(target_names(k)) {
                    let i = choose|i: int| 0 <= i < pushed.len() && #[trigger] pushed[i] == target_names(k);
                    if i < prev.len() {
                        assert(prev[i] == pushed[i]);
                    }
                }
                if k == n - 1 {
                    assert(pushed[prev.len() as int] == target_names(k));
                } else if in_prev {
                    let i = choose|i: int| 0 <= i < prev.len() && #[trigger] prev[i] == target_names(k);
                    assert(pushed[i] == target_names(k));
                }
            } else {
                assert(sel.matching(want, n) == prev);
            }
        }
    }
}

/// Every channel is either selected or not: the selected and the unselected
/// targets together are the four channels, each in exactly one of the lists.
pub proof fn law_selection_partition(sel: ShortcutTargetSelection, k: int)
    requires
        0 <= k < 4,
    ensures
        sel.matching(true, 4).len() + sel.matching(false, 4).len() == 4,
        sel.flag(k) ==> sel.matching(true, 4).contains(target_names(k)) && !sel.matching(
            false,
            4,
        ).contains(target_names(k)),
        !sel.flag(k) ==> sel.matching(false, 4).contains(target_names(k)) && !sel.matching(
            true,
            4,
        ).contains(target_names(k)),
{
    lemma_matching(sel, true, 4);
    lemma_matching(sel, false, 4);
    assert(sel.matching(true, 4).contains(target_names(k)) <==> sel.flag(k));
    assert(sel.matching(false, 4).contains(target_names(k)) <==> !sel.flag(k));
}

} // verus!
