//! The registry side: reading `reg query` output, the command that Windows runs
//! when another app opens a web link in Edge, and the plan of registry writes
//! that applies or restores that command.
use vstd::prelude::*;

use crate::text::{
    append_chars, chars_eq, chars_of, contains, copy_range, find, find_chars, join,
    lemma_find_from_first, lemma_occurs_contains, lemma_trim_fixed, lower, occurs_at, split_chars, split_on, string_from_chars,
    to_ascii_lowercase, trim, trim_chars,
};

verus! {

broadcast use crate::lemma_char_vec_deep_view;

/// The per-user key whose default value is the command run for web links.
pub const EXTERNAL_LINK_COMMAND_KEY_HKCU: &'static str = "HKCU\\Software\\Classes\\MSEdgeHTM\\shell\\open\\command";

/// The machine-wide key with the same role, read to find Edge's executable.
pub const EXTERNAL_LINK_COMMAND_KEY_HKLM: &'static str = "HKLM\\Software\\Classes\\MSEdgeHTM\\shell\\open\\command";

/// What follows the options in a link command.
pub const EXTERNAL_LINK_ARGUMENT_SUFFIX: &'static str = "--single-argument %1";

/// The tool's value holding the link command it found before its first change.
pub const EXTERNAL_ORIGINAL_COMMAND_VALUE: &'static str = "ExternalOriginalCommand";

/// The tool's value marking that the original link command has been saved.
pub const EXTERNAL_ORIGINAL_COMMAND_SAVED_VALUE: &'static str = "ExternalOriginalCommandSaved";

/// The tool's value holding the link command it wrote last.
pub const EXTERNAL_LAST_COMMAND_VALUE: &'static str = "ExternalLastCommand";

/// The value type that `reg query` prints before a string value.
pub open spec fn reg_sz() -> Seq<char> {
    seq!['R', 'E', 'G', '_', 'S', 'Z']
}

/// The string value on the first of `lines[i..]` that mentions `REG_SZ`: what
/// follows `REG_SZ` on that line, trimmed.
pub open spec fn reg_sz_from(lines: Seq<Seq<char>>, i: int) -> Option<Seq<char>>
    decreases lines.len() - i,
{
    if i < 0 || i >= lines.len() {
        None
    } else {
        match find(lines[i], reg_sz()) {
            Some(k) => Some(trim(lines[i].skip(k + 6))),
            None => reg_sz_from(lines, i + 1),
        }
    }
}

/// The string value in `reg query` output.
pub open spec fn registry_string_value(text: Seq<char>) -> Option<Seq<char>> {
    reg_sz_from(split_on(text, '\n'), 0)
}

/// Reads the string value out of `reg query` output: what follows `REG_SZ` on
/// the first line that mentions it, trimmed.
pub fn parse_registry_string_value(text: &str) -> (r: Option<String>)
    ensures
        match r {
            Some(v) => registry_string_value(text@) == Some(v@),
            None => registry_string_value(text@) is None,
        },
{
    let chars = chars_of(text);
    let lines = split_chars(&chars, '\n');
    let ghost ls = lines.deep_view();
    let marker = vec!['R', 'E', 'G', '_', 'S', 'Z'];
    assert(marker@ =~= reg_sz());
    let mut i: usize = 0;
    while i < lines.len()
        invariant
            i <= lines@.len(),
            ls == lines.deep_view(),
            marker@ == reg_sz(),
            registry_string_value(text@) == reg_sz_from(ls, i as int),
            ls == split_on(chars@, '\n'),
            chars@ == text@,
        decreases lines@.len() - i,
    {
        let line = &lines[i];
        let n = line.len();
        assert(line@ == ls[i as int]);
        match find_chars(line, &marker) {
            Some(k) => {
                let rest = copy_range(line, k + marker.len(), n);
                assert(rest@ =~= line@.skip(k + 6));
                let value = trim_chars(&rest);
                return Some(string_from_chars(&value));
            },
            None => {},
        }
        i += 1;
    }
    None
}

/// The key whose default value is the per-user link command.
pub fn external_link_command_registry_key() -> (r: &'static str)
    ensures
        r@ == EXTERNAL_LINK_COMMAND_KEY_HKCU@,
{
    EXTERNAL_LINK_COMMAND_KEY_HKCU
}

/// `.exe`
pub open spec fn exe_suffix() -> Seq<char> {
    seq!['.', 'e', 'x', 'e']
}

/// The executable that a command line starts with: the text inside leading
/// double quotes, or else everything up to and including the first `.exe`
/// (in any ASCII case).
pub open spec fn executable_of_command(command: Seq<char>) -> Option<Seq<char>> {
    let c = trim(command);
    if c.len() > 0 && c[0] == '"' {
        match find(c.drop_first(), seq!['"']) {
            Some(e) => Some(c.drop_first().take(e)),
            None => None,
        }
    } else {
        match find(lower(c), exe_suffix()) {
            Some(e) => Some(c.take(e + 4)),
            None => None,
        }
    }
}

/// The executable that a command line starts with.
pub fn extract_executable_from_command(command: &str) -> (r: Option<String>)
    ensures
        match r {
            Some(v) => executable_of_command(command@) == Some(v@),
            None => executable_of_command(command@) is None,
        },
{
    let chars = chars_of(command);
    let c = trim_chars(&chars);
    if c.len() > 0 && c[0] == '"' {
        let rest = copy_range(&c, 1, c.len());
        assert(rest@ =~= c@.drop_first());
        let quote = vec!['"'];
        assert(quote@ =~= seq!['"']);
        match find_chars(&rest, &quote) {
            Some(e) => {
                let exe = copy_range(&rest, 0, e);
                assert(exe@ =~= rest@.take(e as int));
                Some(string_from_chars(&exe))
            },
            None => None,
        }
    } else {
        let l = to_ascii_lowercase(&c);
        let suffix = vec!['.', 'e', 'x', 'e'];
        assert(suffix@ =~= exe_suffix());
        match find_chars(&l, &suffix) {
            Some(e) => {
                let exe = copy_range(&c, 0, e + 4);
                assert(exe@ =~= c@.take(e + 4));
                Some(string_from_chars(&exe))
            },
            None => None,
        }
    }
}

/// The link command for `options`: the quoted executable, the trimmed options,
/// then `--single-argument %1`; none when the options are blank or no
/// executable is known.
pub open spec fn link_command(options: Seq<char>, executable: Option<Seq<char>>) -> Option<Seq<char>> {
    let o = trim(options);
    if o.len() == 0 {
        None
    } else {
        match executable {
            Some(e) => Some(seq!['"'] + e + seq!['"', ' '] + o + seq![' '] + EXTERNAL_LINK_ARGUMENT_SUFFIX@),
            None => None,
        }
    }
}

/// Builds the link command for `options` with Edge's executable.
pub fn build_external_link_command(options: &str, executable: &Option<String>) -> (r: Option<String>)
    ensures
        match r {
            Some(v) => link_command(options@, opt_view(*executable)) == Some(v@),
            None => link_command(options@, opt_view(*executable)) is None,
        },
{
    let chars = chars_of(options);
    let o = trim_chars(&chars);
    if o.len() == 0 {
        return None;
    }
    match executable {
        Some(e) => {
            let mut r = vec!['"'];
            let exe = chars_of(e.as_str());
            append_chars(&mut r, &exe);
            r.push('"');
            r.push(' ');
            append_chars(&mut r, &o);
            r.push(' ');
            let suffix = chars_of(EXTERNAL_LINK_ARGUMENT_SUFFIX);
            append_chars(&mut r, &suffix);
            assert(r@ =~= seq!['"'] + e@ + seq!['"', ' '] + o@ + seq![' '] + EXTERNAL_LINK_ARGUMENT_SUFFIX@);
            Some(string_from_chars(&r))
        },
        None => None,
    }
}

/// A link command built for an executable without double quotes gives that
/// executable back.
pub proof fn law_link_command_executable(options: Seq<char>, exe: Seq<char>)
    requires
        trim(options).len() > 0,
        forall|k: int| 0 <= k < exe.len() ==> exe[k] != '"',
    ensures
        link_command(options, Some(exe)) is Some,
        executable_of_command(link_command(options, Some(exe))->0) == Some(exe),
{
    reveal_strlit("--single-argument %1");
    let o = trim(options);
    let c = seq!['"'] + exe + seq!['"', ' '] + o + seq![' '] + EXTERNAL_LINK_ARGUMENT_SUFFIX@;
    assert(link_command(options, Some(exe)) == Some(c));
    assert(c[0] == '"');
    assert(c.last() == '1');
    lemma_trim_fixed(c);
    let rest = c.drop_first();
    let q = seq!['"'];
    let n = exe.len() as int;
    assert(rest.subrange(n, n + 1) =~= q);
    assert forall|i: int| 0 <= i < n implies !occurs_at(rest, q, i) by {
        assert(rest.subrange(i, i + 1)[0] == exe[i]);
    }
    lemma_find_from_first(rest, q, 0, n);
    assert(rest.take(n) =~= exe);
}

/// A link command is the tool's own exactly when it is the last command the
/// tool recorded writing, or it names one of the tool's four features.
pub proof fn law_tool_managed_names(command: Seq<char>, last: Option<Seq<char>>)
    ensures
        tool_managed(command, last) == (last == Some(command) || contains(command, "msForceNoRoundedCornerAndMargin"@)
            || contains(command, "msFeatureGroupNewLookAndFeelHoldout"@) || contains(
            command,
            "msShowSignInIndicator"@,
        ) || contains(command, "msHubAppsSidebarRetirement"@)),
{
}

/// A link command that names one of the tool's features is never recorded as
/// the original command: setting a new command only marks the original as
/// recorded, writes the new command, and records it as the last one.
pub proof fn law_tool_command_not_recorded(command: Seq<char>, last: Option<Seq<char>>, new_command: Seq<char>)
    requires
        contains(command, "msForceNoRoundedCornerAndMargin"@) || contains(
            command,
            "msFeatureGroupNewLookAndFeelHoldout"@,
        ) || contains(command, "msShowSignInIndicator"@) || contains(command, "msHubAppsSidebarRetirement"@),
    ensures
        update_steps(Some(command), false, last, new_command) == seq![
            (WriteView::SetOriginalSaved, true),
            (WriteView::SetLinkCommand(new_command), true),
            (WriteView::SetLastCommand(new_command), false),
        ],
{
    assert(update_steps(Some(command), false, last, new_command) =~= seq![
        (WriteView::SetOriginalSaved, true),
        (WriteView::SetLinkCommand(new_command), true),
        (WriteView::SetLastCommand(new_command), false),
    ]);
}

/// A link command built from options in which `name` occurs holds `name`.
proof fn lemma_link_command_holds(options: Seq<char>, exe: Seq<char>, name: Seq<char>, at: int)
    requires
        trim(options) == options,
        options.len() > 0,
        occurs_at(options, name, at),
    ensures
        link_command(options, Some(exe)) is Some,
        contains(link_command(options, Some(exe))->0, name),
{
    let c = seq!['"'] + exe + seq!['"', ' '] + options + seq![' '] + EXTERNAL_LINK_ARGUMENT_SUFFIX@;
    assert(link_command(options, Some(exe)) == Some(c));
    let k = 1 + exe.len() + 2 + at;
    assert(c.subrange(k, k + name.len()) =~= options.subrange(at, at + name.len()));
    lemma_occurs_contains(c, name, k);
}

/// The link commands the tool writes for its presets (the Old and New
/// workarounds, with or without hiding the sign-in dot) are the tool's own, so
/// they are never recorded as the original command.
pub proof fn law_preset_link_commands_managed(exe: Seq<char>, last: Option<Seq<char>>)
    ensures
        link_command("--disable-features=\"msFeatureGroupNewLookAndFeelHoldout\""@, Some(exe)) matches Some(c)
            && tool_managed(c, last),
        link_command("--disable-features=\"msShowSignInIndicator,msFeatureGroupNewLookAndFeelHoldout\""@, Some(exe))
            matches Some(c) && tool_managed(c, last),
        link_command("--enable-features=\"msForceNoRoundedCornerAndMargin\""@, Some(exe)) matches Some(c)
            && tool_managed(c, last),
        link_command(
            "--enable-features=\"msForceNoRoundedCornerAndMargin\" --disable-features=\"msShowSignInIndicator\""@,
            Some(exe),
        ) matches Some(c) && tool_managed(c, last),
{
    reveal_strlit("--disable-features=\"msFeatureGroupNewLookAndFeelHoldout\"");
    reveal_strlit("--disable-features=\"msShowSignInIndicator,msFeatureGroupNewLookAndFeelHoldout\"");
    reveal_strlit("--enable-features=\"msForceNoRoundedCornerAndMargin\"");
    reveal_strlit("--enable-features=\"msForceNoRoundedCornerAndMargin\" --disable-features=\"msShowSignInIndicator\"");
    reveal_strlit("msFeatureGroupNewLookAndFeelHoldout");
    reveal_strlit("msShowSignInIndicator");
    reveal_strlit("msForceNoRoundedCornerAndMargin");
    let o1 = "--disable-features=\"msFeatureGroupNewLookAndFeelHoldout\""@;
    let o2 = "--disable-features=\"msShowSignInIndicator,msFeatureGroupNewLookAndFeelHoldout\""@;
    let o3 = "--enable-features=\"msForceNoRoundedCornerAndMargin\""@;
    let o4 = "--enable-features=\"msForceNoRoundedCornerAndMargin\" --disable-features=\"msShowSignInIndicator\""@;
    let n1 = "msFeatureGroupNewLookAndFeelHoldout"@;
    let n2 = "msShowSignInIndicator"@;
    let n3 = "msForceNoRoundedCornerAndMargin"@;
    lemma_trim_fixed(o1);
    lemma_trim_fixed(o2);
    lemma_trim_fixed(o3);
    lemma_trim_fixed(o4);
    assert(o1.subrange(20, 20 + n1.len() as int) =~= n1);
    assert(o2.subrange(20, 20 + n2.len() as int) =~= n2);
    assert(o3.subrange(19, 19 + n3.len() as int) =~= n3);
    assert(o4.subrange(19, 19 + n3.len() as int) =~= n3);
    lemma_link_command_holds(o1, exe, n1, 20);
    lemma_link_command_holds(o2, exe, n2, 20);
    lemma_link_command_holds(o3, exe, n3, 19);
    lemma_link_command_holds(o4, exe, n3, 19);
}

/// The view of an optional string.
pub open spec fn opt_view(o: Option<String>) -> Option<Seq<char>> {
    match o {
        Some(s) => Some(s@),
        None => None,
    }
}

/// Edge's executable for link commands: the one in the machine-wide link
/// command, or else the selected install location.
pub open spec fn link_executable(machine_command: Option<Seq<char>>, installed: Option<Seq<char>>) -> Option<Seq<char>> {
    match machine_command {
        Some(c) => match executable_of_command(c) {
            Some(e) => Some(e),
            None => installed,
        },
        None => installed,
    }
}

/// Picks Edge's executable for link commands from the machine-wide link command
/// (as stored) and the path of the selected install location.
pub fn get_external_link_edge_executable(machine_command: &Option<String>, installed: &Option<String>) -> (r: Option<String>)
    ensures
        opt_view(r) == link_executable(opt_view(*machine_command), opt_view(*installed)),
{
    if let Some(c) = machine_command {
        if let Some(e) = extract_executable_from_command(c.as_str()) {
            return Some(e);
        }
    }
    match installed {
        Some(p) => Some(p.clone()),
        None => None,
    }
}

/// The feature names whose presence marks a link command as written by this tool.
pub open spec fn managed_feature_names() -> Seq<Seq<char>> {
    seq![
        "msForceNoRoundedCornerAndMargin"@,
        "msFeatureGroupNewLookAndFeelHoldout"@,
        "msShowSignInIndicator"@,
        "msHubAppsSidebarRetirement"@,
    ]
}

/// A link command is the tool's own when it is the last one the tool wrote, or
/// when it names one of the tool's features.
pub open spec fn tool_managed(command: Seq<char>, last_command: Option<Seq<char>>) -> bool {
    ||| last_command == Some(command)
    ||| contains(command, managed_feature_names()[0])
    ||| contains(command, managed_feature_names()[1])
    ||| contains(command, managed_feature_names()[2])
    ||| contains(command, managed_feature_names()[3])
}

/// Whether a link command was written by this tool, given the last command the
/// tool recorded.
pub fn is_tool_managed_external_link_command(command: &str, last_command: &Option<String>) -> (b: bool)
    ensures
        b == tool_managed(command@, opt_view(*last_command)),
{
    let c = chars_of(command);
    if let Some(l) = last_command {
        let lc = chars_of(l.as_str());
        if chars_eq(&lc, &c) {
            return true;
        }
    }
    let f0 = chars_of("msForceNoRoundedCornerAndMargin");
    let f1 = chars_of("msFeatureGroupNewLookAndFeelHoldout");
    let f2 = chars_of("msShowSignInIndicator");
    let f3 = chars_of("msHubAppsSidebarRetirement");
    find_chars(&c, &f0).is_some() || find_chars(&c, &f1).is_some() || find_chars(&c, &f2).is_some()
        || find_chars(&c, &f3).is_some()
}

/// `Some` of a string that is not blank.
pub open spec fn non_blank(value: Option<Seq<char>>) -> Option<Seq<char>> {
    match value {
        Some(v) => if trim(v).len() > 0 {
            Some(v)
        } else {
            None
        },
        None => None,
    }
}

fn keep_non_blank(value: &Option<String>) -> (r: Option<String>)
    ensures
        opt_view(r) == non_blank(opt_view(*value)),
{
    match value {
        Some(v) => {
            let c = chars_of(v.as_str());
            let t = trim_chars(&c);
            if t.len() > 0 {
                Some(v.clone())
            } else {
                None
            }
        },
        None => None,
    }
}

/// The per-user link command (as stored), unless it is blank.
pub fn get_current_user_external_link_command(stored: &Option<String>) -> (r: Option<String>)
    ensures
        opt_view(r) == non_blank(opt_view(*stored)),
{
    keep_non_blank(stored)
}

/// The first of `read[i..]` that holds arguments that are not blank, or empty.
pub open spec fn first_arguments(read: Seq<Option<Seq<char>>>, i: int) -> Seq<char>
    decreases read.len() - i,
{
    if i < 0 || i >= read.len() {
        Seq::<char>::empty()
    } else {
        match non_blank(read[i]) {
            Some(v) => v,
            None => first_arguments(read, i + 1),
        }
    }
}

/// The arguments to prefill the Custom window with: those of the first shortcut
/// (in the order given) whose arguments could be read and are not blank, or the
/// empty string.
pub fn get_current_shortcut_arguments(read: &Vec<Option<String>>) -> (r: String)
    ensures
        r@ == first_arguments(read.deep_view(), 0),
{
    let ghost all = read.deep_view();
    let mut i: usize = 0;
    while i < read.len()
        invariant
            i <= read@.len(),
            all == read.deep_view(),
            first_arguments(all, 0) == first_arguments(all, i as int),
        decreases read@.len() - i,
    {
        assert(opt_view(read@[i as int]) == all[i as int]);
        if let Some(v) = keep_non_blank(&read[i]) {
            return v;
        }
        i += 1;
    }
    String::new()
}

/// How applying the link options ended.
#[derive(Clone, Copy, PartialEq, Eq, Structural, Debug)]
pub enum ExternalLinkApplyState {
    Updated,
    Restored,
    Failed,
}

/// The outcome of applying the link options.
#[derive(Clone, Copy, PartialEq, Eq, Structural, Debug)]
pub struct ExternalLinkApplyResult {
    pub state: ExternalLinkApplyState,
}

/// One registry write that applying or restoring the link command makes.
pub enum RegistryWrite {
    /// Set the per-user link command.
    SetLinkCommand(String),
    /// Delete the per-user link command key.
    DeleteLinkCommandKey,
    /// Record the link command found before the tool's first change.
    SetOriginalCommand(String),
    /// Mark that the original link command has been recorded.
    SetOriginalSaved,
    /// Record the link command the tool wrote.
    SetLastCommand(String),
    DeleteOriginalCommand,
    DeleteOriginalSaved,
    DeleteLastCommand,
}

/// The view of a registry write.
pub enum WriteView {
    SetLinkCommand(Seq<char>),
    DeleteLinkCommandKey,
    SetOriginalCommand(Seq<char>),
    SetOriginalSaved,
    SetLastCommand(Seq<char>),
    DeleteOriginalCommand,
    DeleteOriginalSaved,
    DeleteLastCommand,
}

impl View for RegistryWrite {
    type V = WriteView;

    open spec fn view(&self) -> WriteView {
        match self {
            RegistryWrite::SetLinkCommand(c) => WriteView::SetLinkCommand(c@),
            RegistryWrite::DeleteLinkCommandKey => WriteView::DeleteLinkCommandKey,
            RegistryWrite::SetOriginalCommand(c) => WriteView::SetOriginalCommand(c@),
            RegistryWrite::SetOriginalSaved => WriteView::SetOriginalSaved,
            RegistryWrite::SetLastCommand(c) => WriteView::SetLastCommand(c@),
            RegistryWrite::DeleteOriginalCommand => WriteView::DeleteOriginalCommand,
            RegistryWrite::DeleteOriginalSaved => WriteView::DeleteOriginalSaved,
            RegistryWrite::DeleteLastCommand => WriteView::DeleteLastCommand,
        }
    }
}

/// A write and whether the whole operation fails when it fails.
pub struct RegistryStep {
    pub write: RegistryWrite,
    pub required: bool,
}

/// The registry values that the link operations read, as they stand before
/// any write.
pub struct ExternalLinkSnapshot {
    /// The per-user link command.
    pub link_command: Option<String>,
    /// The recorded original link command.
    pub original_command: Option<String>,
    /// Whether the original link command is marked as recorded.
    pub original_saved: bool,
    /// The link command the tool recorded as written last.
    pub last_command: Option<String>,
}

/// The writes to make, in order, and the state reached when no required write
/// fails.
pub struct ExternalLinkPlan {
    pub steps: Vec<RegistryStep>,
    pub success: ExternalLinkApplyState,
}

/// The views of a plan's steps.
pub open spec fn steps_view(steps: Seq<RegistryStep>) -> Seq<(WriteView, bool)> {
    steps.map_values(|s: RegistryStep| (s.write@, s.required))
}

/// Restoring the link command: put back the recorded original, or else delete
/// the per-user command if there is one; then, as clean-up that may fail, drop
/// the tool's records.
pub open spec fn restore_steps(link: Option<Seq<char>>, original: Option<Seq<char>>, saved: bool) -> Seq<(WriteView, bool)> {
    let first: Seq<(WriteView, bool)> = match original {
        Some(o) => seq![(WriteView::SetLinkCommand(o), true)],
        None => if link is None {
            seq![]
        } else {
            seq![(WriteView::DeleteLinkCommandKey, true)]
        },
    };
    let drop_original: Seq<(WriteView, bool)> = if original is Some {
        seq![(WriteView::DeleteOriginalCommand, false)]
    } else {
        seq![]
    };
    let drop_saved: Seq<(WriteView, bool)> = if saved {
        seq![(WriteView::DeleteOriginalSaved, false)]
    } else {
        seq![]
    };
    first + drop_original + drop_saved + seq![(WriteView::DeleteLastCommand, false)]
}

/// Setting the link command: first record the original command once (unless it
/// is the tool's own) and mark it recorded, then write the new command, then
/// record it as the last one written (which may fail).
pub open spec fn update_steps(
    link: Option<Seq<char>>,
    saved: bool,
    last: Option<Seq<char>>,
    command: Seq<char>,
) -> Seq<(WriteView, bool)> {
    let save: Seq<(WriteView, bool)> = if saved {
        seq![]
    } else {
        let original: Seq<(WriteView, bool)> = match link {
            Some(o) => if tool_managed(o, last) {
                seq![]
            } else {
                seq![(WriteView::SetOriginalCommand(o), true)]
            },
            None => seq![],
        };
        original + seq![(WriteView::SetOriginalSaved, true)]
    };
    save + seq![(WriteView::SetLinkCommand(command), true), (WriteView::SetLastCommand(command), false)]
}

/// The plan for applying `options` to the link command: restore when the options
/// are blank; fail at once when no command can be built; else set the command.
pub open spec fn link_plan(
    options: Seq<char>,
    link: Option<Seq<char>>,
    original: Option<Seq<char>>,
    saved: bool,
    last: Option<Seq<char>>,
    executable: Option<Seq<char>>,
) -> (Seq<(WriteView, bool)>, ExternalLinkApplyState) {
    if trim(options).len() == 0 {
        (restore_steps(link, original, saved), ExternalLinkApplyState::Restored)
    } else {
        match link_command(options, executable) {
            Some(c) => (update_steps(link, saved, last, c), ExternalLinkApplyState::Updated),
            None => (seq![], ExternalLinkApplyState::Failed),
        }
    }
}

/// The registry values that the link operations read and write: the per-user
/// link command and the tool's three records.
pub struct LinkRegistry {
    pub link: Option<Seq<char>>,
    pub original: Option<Seq<char>>,
    pub saved: bool,
    pub last: Option<Seq<char>>,
}

/// The registry values after a write that succeeds.
pub open spec fn apply_write(r: LinkRegistry, w: WriteView) -> LinkRegistry {
    match w {
        WriteView::SetLinkCommand(c) => LinkRegistry { link: Some(c), ..r },
        WriteView::DeleteLinkCommandKey => LinkRegistry { link: None, ..r },
        WriteView::SetOriginalCommand(c) => LinkRegistry { original: Some(c), ..r },
        WriteView::SetOriginalSaved => LinkRegistry { saved: true, ..r },
        WriteView::SetLastCommand(c) => LinkRegistry { last: Some(c), ..r },
        WriteView::DeleteOriginalCommand => LinkRegistry { original: None, ..r },
        WriteView::DeleteOriginalSaved => LinkRegistry { saved: false, ..r },
        WriteView::DeleteLastCommand => LinkRegistry { last: None, ..r },
    }
}

/// The registry values after the writes of a plan, all succeeding.
pub open spec fn apply_writes(r: LinkRegistry, steps: Seq<(WriteView, bool)>) -> LinkRegistry
    decreases steps.len(),
{
    if steps.len() == 0 {
        r
    } else {
        apply_writes(apply_write(r, steps[0].0), steps.drop_first())
    }
}

/// Setting the link command to `c`, planned from the values as they are.
pub open spec fn set_link(r: LinkRegistry, c: Seq<char>) -> LinkRegistry {
    apply_writes(r, update_steps(r.link, r.saved, r.last, c))
}

/// Setting the link command to each of `cs` in turn.
pub open spec fn set_links(r: LinkRegistry, cs: Seq<Seq<char>>) -> LinkRegistry
    decreases cs.len(),
{
    if cs.len() == 0 {
        r
    } else {
        set_links(set_link(r, cs[0]), cs.drop_first())
    }
}

/// Restoring the link command, planned from the values as they are.
pub open spec fn restore_link(r: LinkRegistry) -> LinkRegistry {
    apply_writes(r, restore_steps(r.link, r.original, r.saved))
}

proof fn lemma_set_links_saved(r: LinkRegistry, cs: Seq<Seq<char>>)
    requires
        r.saved,
        r.link is Some,
    ensures
        set_links(r, cs).saved,
        set_links(r, cs).original == r.original,
        set_links(r, cs).link is Some,
    decreases cs.len(),
{
    if cs.len() > 0 {
        let c = cs[0];
        let steps = update_steps(r.link, r.saved, r.last, c);
        assert(steps =~= seq![(WriteView::SetLinkCommand(c), true), (WriteView::SetLastCommand(c), false)]);
        assert(steps.drop_first().drop_first() =~= Seq::<(WriteView, bool)>::empty());
        reveal_with_fuel(apply_writes, 3);
        lemma_set_links_saved(set_link(r, c), cs.drop_first());
    }
}

/// Setting the link command one or more times and then restoring it gives back
/// the link command found at first (or none, if there was none), and leaves
/// none of the tool's records, when the tool had no records at first, the
/// command found is not the tool's own, and every write succeeds.
pub proof fn law_link_restore_round_trip(v0: Option<Seq<char>>, cs: Seq<Seq<char>>)
    requires
        cs.len() > 0,
        v0 matches Some(x) ==> !tool_managed(x, None),
    ensures
        restore_link(set_links(LinkRegistry { link: v0, original: None, saved: false, last: None }, cs))
            == (LinkRegistry { link: v0, original: None, saved: false, last: None }),
{
    reveal_with_fuel(apply_writes, 5);
    let r0 = LinkRegistry { link: v0, original: None, saved: false, last: None };
    let c = cs[0];
    let steps = update_steps(v0, false, None, c);
    let r1 = set_link(r0, c);
    match v0 {
        Some(x) => {
            assert(steps =~= seq![
                (WriteView::SetOriginalCommand(x), true),
                (WriteView::SetOriginalSaved, true),
                (WriteView::SetLinkCommand(c), true),
                (WriteView::SetLastCommand(c), false),
            ]);
            assert(steps.drop_first().drop_first().drop_first().drop_first() =~= Seq::<(WriteView, bool)>::empty());
            assert(r1.original == Some(x));
        },
        None => {
            assert(steps =~= seq![
                (WriteView::SetOriginalSaved, true),
                (WriteView::SetLinkCommand(c), true),
                (WriteView::SetLastCommand(c), false),
            ]);
            assert(steps.drop_first().drop_first().drop_first() =~= Seq::<(WriteView, bool)>::empty());
            assert(r1.original is None);
        },
    }
    assert(r1.saved && r1.link is Some);
    lemma_set_links_saved(r1, cs.drop_first());
    let rn = set_links(r1, cs.drop_first());
    assert(set_links(r0, cs) == rn);
    let rs = restore_steps(rn.link, rn.original, rn.saved);
    match v0 {
        Some(x) => {
            assert(rs =~= seq![
                (WriteView::SetLinkCommand(x), true),
                (WriteView::DeleteOriginalCommand, false),
                (WriteView::DeleteOriginalSaved, false),
                (WriteView::DeleteLastCommand, false),
            ]);
            assert(rs.drop_first().drop_first().drop_first().drop_first() =~= Seq::<(WriteView, bool)>::empty());
        },
        None => {
            assert(rs =~= seq![
                (WriteView::DeleteLinkCommandKey, true),
                (WriteView::DeleteOriginalSaved, false),
                (WriteView::DeleteLastCommand, false),
            ]);
            assert(rs.drop_first().drop_first().drop_first() =~= Seq::<(WriteView, bool)>::empty());
        },
    }
}

fn push_step(steps: &mut Vec<RegistryStep>, write: RegistryWrite, required: bool)
    ensures
        steps_view(final(steps)@) == steps_view(old(steps)@).push((write@, required)),
{
    let ghost w = write@;
    steps.push(RegistryStep { write, required });
    assert(steps_view(steps@) =~= steps_view(old(steps)@).push((w, required)));
}

/// The writes that restore the link command (the restore plan).
pub fn restore_external_link_command(snapshot: &ExternalLinkSnapshot) -> (p: ExternalLinkPlan)
    ensures
        steps_view(p.steps@) == restore_steps(
            opt_view(snapshot.link_command),
            opt_view(snapshot.original_command),
            snapshot.original_saved,
        ),
        p.success == ExternalLinkApplyState::Restored,
{
    let mut steps: Vec<RegistryStep> = Vec::new();
    assert(steps_view(steps@) =~= Seq::<(WriteView, bool)>::empty());
    match &snapshot.original_command {
        Some(o) => push_step(&mut steps, RegistryWrite::SetLinkCommand(o.clone()), true),
        None => {
            if snapshot.link_command.is_some() {
                push_step(&mut steps, RegistryWrite::DeleteLinkCommandKey, true);
            }
        },
    }
    if snapshot.original_command.is_some() {
        push_step(&mut steps, RegistryWrite::DeleteOriginalCommand, false);
    }
    if snapshot.original_saved {
        push_step(&mut steps, RegistryWrite::DeleteOriginalSaved, false);
    }
    push_step(&mut steps, RegistryWrite::DeleteLastCommand, false);
    let ghost link = opt_view(snapshot.link_command);
    let ghost original = opt_view(snapshot.original_command);
    assert(steps_view(steps@) =~= restore_steps(link, original, snapshot.original_saved));
    ExternalLinkPlan { steps, success: ExternalLinkApplyState::Restored }
}

/// The writes that set the link command to `command` (the update plan),
/// recording the original command first.
pub fn set_external_link_command(snapshot: &ExternalLinkSnapshot, command: &String) -> (p: ExternalLinkPlan)
    ensures
        steps_view(p.steps@) == update_steps(
            opt_view(snapshot.link_command),
            snapshot.original_saved,
            opt_view(snapshot.last_command),
            command@,
        ),
        p.success == ExternalLinkApplyState::Updated,
{
    let mut steps: Vec<RegistryStep> = Vec::new();
    assert(steps_view(steps@) =~= Seq::<(WriteView, bool)>::empty());
    if !snapshot.original_saved {
        if let Some(o) = &snapshot.link_command {
            if !is_tool_managed_external_link_command(o.as_str(), &snapshot.last_command) {
                push_step(&mut steps, RegistryWrite::SetOriginalCommand(o.clone()), true);
            }
        }
        push_step(&mut steps, RegistryWrite::SetOriginalSaved, true);
    }
    push_step(&mut steps, RegistryWrite::SetLinkCommand(command.clone()), true);
    push_step(&mut steps, RegistryWrite::SetLastCommand(command.clone()), false);
    let ghost link = opt_view(snapshot.link_command);
    let ghost last = opt_view(snapshot.last_command);
    assert(steps_view(steps@) =~= update_steps(link, snapshot.original_saved, last, command@));
    ExternalLinkPlan { steps, success: ExternalLinkApplyState::Updated }
}

/// The plan for applying `options` to the link command, given the registry
/// values as they stand and Edge's executable.
pub fn apply_external_link_options(options: &str, snapshot: &ExternalLinkSnapshot, executable: &Option<String>) -> (p: ExternalLinkPlan)
    ensures
        (steps_view(p.steps@), p.success) == link_plan(
            options@,
            opt_view(snapshot.link_command),
            opt_view(snapshot.original_command),
            snapshot.original_saved,
            opt_view(snapshot.last_command),
            opt_view(*executable),
        ),
{
    let chars = chars_of(options);
    let o = trim_chars(&chars);
    if o.len() == 0 {
        return restore_external_link_command(snapshot);
    }
    match build_external_link_command(options, executable) {
        Some(command) => set_external_link_command(snapshot, &command),
        None => {
            let steps: Vec<RegistryStep> = Vec::new();
            assert(steps_view(steps@) =~= Seq::<(WriteView, bool)>::empty());
            ExternalLinkPlan { steps, success: ExternalLinkApplyState::Failed }
        },
    }
}

/// What to do next while carrying out a plan.
pub enum ExternalLinkAction {
    /// Make the write at this index of the plan's steps.
    Write(usize),
    /// Stop; the link options ended in this state.
    Finish(ExternalLinkApplyState),
}

/// The next action while carrying out `plan`, after the steps before `index`
/// were made and the last of them succeeded or not (`last_ok`, none before the
/// first step): stop with `Failed` right after a required write fails, make the
/// next write while there is one, and otherwise stop with the plan's success
/// state.
pub fn next_external_link_action(plan: &ExternalLinkPlan, index: usize, last_ok: Option<bool>) -> (a: ExternalLinkAction)
    requires
        index <= plan.steps@.len(),
        (index == 0) == (last_ok is None),
    ensures
        index > 0 && last_ok == Some(false) && plan.steps@[index - 1].required ==> a
            == ExternalLinkAction::Finish(ExternalLinkApplyState::Failed),
        !(index > 0 && last_ok == Some(false) && plan.steps@[index - 1].required) && index
            < plan.steps@.len() ==> a == ExternalLinkAction::Write(index),
        !(index > 0 && last_ok == Some(false) && plan.steps@[index - 1].required) && index
            == plan.steps@.len() ==> a == ExternalLinkAction::Finish(plan.success),
{
    if index > 0 {
        if let Some(false) = last_ok {
            if plan.steps[index - 1].required {
                return ExternalLinkAction::Finish(ExternalLinkApplyState::Failed);
            }
        }
    }
    if index < plan.steps.len() {
        ExternalLinkAction::Write(index)
    } else {
        ExternalLinkAction::Finish(plan.success)
    }
}

} // verus!
