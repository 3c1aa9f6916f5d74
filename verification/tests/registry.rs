use edge_shortcut_tool::registry::{
    apply_external_link_options, build_external_link_command, external_link_command_registry_key,
    extract_executable_from_command, get_current_shortcut_arguments,
    get_current_user_external_link_command, get_external_link_edge_executable,
    is_tool_managed_external_link_command, next_external_link_action, parse_registry_string_value,
    restore_external_link_command, set_external_link_command, ExternalLinkAction,
    ExternalLinkApplyState, ExternalLinkPlan, ExternalLinkSnapshot, RegistryWrite,
};

fn describe(plan: &ExternalLinkPlan) -> Vec<(String, bool)> {
    plan.steps
        .iter()
        .map(|step| {
            let text = match &step.write {
                RegistryWrite::SetLinkCommand(c) => format!("set link {}", c),
                RegistryWrite::DeleteLinkCommandKey => "delete link".to_string(),
                RegistryWrite::SetOriginalCommand(c) => format!("set original {}", c),
                RegistryWrite::SetOriginalSaved => "set saved".to_string(),
                RegistryWrite::SetLastCommand(c) => format!("set last {}", c),
                RegistryWrite::DeleteOriginalCommand => "delete original".to_string(),
                RegistryWrite::DeleteOriginalSaved => "delete saved".to_string(),
                RegistryWrite::DeleteLastCommand => "delete last".to_string(),
            };
            (text, step.required)
        })
        .collect()
}

fn steps(items: &[(&str, bool)]) -> Vec<(String, bool)> {
    items.iter().map(|(t, r)| (t.to_string(), *r)).collect()
}

fn run(plan: &ExternalLinkPlan, results: &[bool]) -> (ExternalLinkApplyState, usize) {
    let mut index = 0;
    let mut last = None;
    let mut writes = 0;
    loop {
        match next_external_link_action(plan, index, last) {
            ExternalLinkAction::Write(i) => {
                last = Some(results[i]);
                writes += 1;
                index = i + 1;
            }
            ExternalLinkAction::Finish(state) => return (state, writes),
        }
    }
}

const EXE: &str = r"C:\Program Files (x86)\Microsoft\Edge\Application\msedge.exe";

#[test]
fn parses_reg_query_output() {
    let output = "\r\nHKEY_CURRENT_USER\\Software\\EdgeShortcutTool\r\n    ShortcutBeta    REG_SZ    1\r\n\r\n";
    assert_eq!(parse_registry_string_value(output), Some("1".to_string()));
    let default_value = "HKEY_CLASSES_ROOT\\x\n    (Default)    REG_SZ    \"C:\\a b\\msedge.exe\" --single-argument %1\n";
    assert_eq!(
        parse_registry_string_value(default_value),
        Some("\"C:\\a b\\msedge.exe\" --single-argument %1".to_string())
    );
    assert_eq!(parse_registry_string_value("ERROR: not found\n"), None);
    assert_eq!(parse_registry_string_value("x REG_SZ\n y REG_SZ 2"), Some(String::new()));
}

#[test]
fn extracts_quoted_and_plain_executables() {
    assert_eq!(
        extract_executable_from_command(&format!("  \"{}\" --single-argument %1", EXE)),
        Some(EXE.to_string())
    );
    assert_eq!(
        extract_executable_from_command(r"C:\Edge\MSEDGE.EXE --single-argument %1"),
        Some(r"C:\Edge\MSEDGE.EXE".to_string())
    );
    assert_eq!(extract_executable_from_command("\"unterminated"), None);
    assert_eq!(extract_executable_from_command("edge --x"), None);
}

#[test]
fn builds_link_command() {
    assert_eq!(
        build_external_link_command("  --enable-features=\"a\"  ", &Some(EXE.to_string())),
        Some(format!("\"{}\" --enable-features=\"a\" --single-argument %1", EXE))
    );
    assert_eq!(build_external_link_command("   ", &Some(EXE.to_string())), None);
    assert_eq!(build_external_link_command("--x", &None), None);
}

#[test]
fn picks_link_executable() {
    let machine = Some(format!("\"{}\" --single-argument %1", EXE));
    assert_eq!(
        get_external_link_edge_executable(&machine, &Some("other.exe".to_string())),
        Some(EXE.to_string())
    );
    assert_eq!(
        get_external_link_edge_executable(&Some("no executable here".to_string()), &Some("fallback".to_string())),
        Some("fallback".to_string())
    );
    assert_eq!(get_external_link_edge_executable(&None, &None), None);
    assert!(external_link_command_registry_key().starts_with("HKCU\\Software\\Classes\\MSEdgeHTM"));
}

#[test]
fn recognizes_tool_managed_commands() {
    assert!(is_tool_managed_external_link_command("x", &Some("x".to_string())));
    assert!(is_tool_managed_external_link_command("a --disable-features=\"msShowSignInIndicator\"", &None));
    assert!(is_tool_managed_external_link_command("a msHubAppsSidebarRetirement", &Some("y".to_string())));
    assert!(!is_tool_managed_external_link_command("\"msedge.exe\" --single-argument %1", &Some("z".to_string())));
}

#[test]
fn blank_values_count_as_absent() {
    assert_eq!(get_current_user_external_link_command(&Some("  ".to_string())), None);
    assert_eq!(get_current_user_external_link_command(&Some(" x ".to_string())), Some(" x ".to_string()));
    assert_eq!(get_current_user_external_link_command(&None), None);
    let read = vec![None, Some("  \t".to_string()), Some("--a".to_string()), Some("--b".to_string())];
    assert_eq!(get_current_shortcut_arguments(&read), "--a");
    assert_eq!(get_current_shortcut_arguments(&vec![None]), "");
}

#[test]
fn restore_puts_back_recorded_original() {
    let snapshot = ExternalLinkSnapshot {
        link_command: Some("mine".to_string()),
        original_command: Some("theirs".to_string()),
        original_saved: true,
        last_command: Some("mine".to_string()),
    };
    let plan = restore_external_link_command(&snapshot);
    assert_eq!(plan.success, ExternalLinkApplyState::Restored);
    assert_eq!(
        describe(&plan),
        steps(&[("set link theirs", true), ("delete original", false), ("delete saved", false), ("delete last", false)])
    );
    assert_eq!(run(&plan, &[true, false, false, false]), (ExternalLinkApplyState::Restored, 4));
    assert_eq!(run(&plan, &[false, true, true, true]), (ExternalLinkApplyState::Failed, 1));
}

#[test]
fn restore_without_original_deletes_or_does_nothing() {
    let snapshot = ExternalLinkSnapshot {
        link_command: Some("mine".to_string()),
        original_command: None,
        original_saved: false,
        last_command: None,
    };
    assert_eq!(
        describe(&restore_external_link_command(&snapshot)),
        steps(&[("delete link", true), ("delete last", false)])
    );
    let nothing = ExternalLinkSnapshot { link_command: None, original_command: None, original_saved: false, last_command: None };
    let plan = restore_external_link_command(&nothing);
    assert_eq!(describe(&plan), steps(&[("delete last", false)]));
    assert_eq!(run(&plan, &[false]), (ExternalLinkApplyState::Restored, 1));
}

#[test]
fn update_records_foreign_original_once() {
    let snapshot = ExternalLinkSnapshot {
        link_command: Some("\"msedge.exe\" --single-argument %1".to_string()),
        original_command: None,
        original_saved: false,
        last_command: None,
    };
    let plan = set_external_link_command(&snapshot, &"new".to_string());
    assert_eq!(plan.success, ExternalLinkApplyState::Updated);
    assert_eq!(
        describe(&plan),
        steps(&[
            ("set original \"msedge.exe\" --single-argument %1", true),
            ("set saved", true),
            ("set link new", true),
            ("set last new", false),
        ])
    );
    assert_eq!(run(&plan, &[true, true, true, false]), (ExternalLinkApplyState::Updated, 4));
    assert_eq!(run(&plan, &[true, false, true, true]), (ExternalLinkApplyState::Failed, 2));

    let managed = ExternalLinkSnapshot {
        link_command: Some("old --enable-features=\"msForceNoRoundedCornerAndMargin\"".to_string()),
        original_command: None,
        original_saved: false,
        last_command: None,
    };
    assert_eq!(
        describe(&set_external_link_command(&managed, &"new".to_string())),
        steps(&[("set saved", true), ("set link new", true), ("set last new", false)])
    );
    let saved = ExternalLinkSnapshot { original_saved: true, ..managed };
    assert_eq!(
        describe(&set_external_link_command(&saved, &"new".to_string())),
        steps(&[("set link new", true), ("set last new", false)])
    );
}

#[test]
fn applying_options_chooses_restore_update_or_failure() {
    let snapshot = ExternalLinkSnapshot { link_command: None, original_command: None, original_saved: false, last_command: None };
    let blank = apply_external_link_options("  ", &snapshot, &Some(EXE.to_string()));
    assert_eq!(blank.success, ExternalLinkApplyState::Restored);
    let no_exe = apply_external_link_options("--x", &snapshot, &None);
    assert!(no_exe.steps.is_empty());
    assert_eq!(run(&no_exe, &[]), (ExternalLinkApplyState::Failed, 0));
    let update = apply_external_link_options(" --x ", &snapshot, &Some("e.exe".to_string()));
    assert_eq!(update.success, ExternalLinkApplyState::Updated);
    assert_eq!(
        describe(&update),
        steps(&[
            ("set saved", true),
            ("set link \"e.exe\" --x --single-argument %1", true),
            ("set last \"e.exe\" --x --single-argument %1", false),
        ])
    );
}

#[derive(Clone, Debug, PartialEq)]
struct LinkValues {
    link: Option<String>,
    original: Option<String>,
    saved: bool,
    last: Option<String>,
}

fn snapshot_of(v: &LinkValues) -> ExternalLinkSnapshot {
    ExternalLinkSnapshot {
        link_command: v.link.clone(),
        original_command: v.original.clone(),
        original_saved: v.saved,
        last_command: v.last.clone(),
    }
}

fn perform(v: &mut LinkValues, plan: &ExternalLinkPlan) {
    for step in &plan.steps {
        match &step.write {
            RegistryWrite::SetLinkCommand(c) => v.link = Some(c.clone()),
            RegistryWrite::DeleteLinkCommandKey => v.link = None,
            RegistryWrite::SetOriginalCommand(c) => v.original = Some(c.clone()),
            RegistryWrite::SetOriginalSaved => v.saved = true,
            RegistryWrite::SetLastCommand(c) => v.last = Some(c.clone()),
            RegistryWrite::DeleteOriginalCommand => v.original = None,
            RegistryWrite::DeleteOriginalSaved => v.saved = false,
            RegistryWrite::DeleteLastCommand => v.last = None,
        }
    }
}

#[test]
fn setting_then_restoring_the_link_command_gives_back_the_first_one() {
    for first in [None, Some(format!("\"{}\" --single-argument %1", EXE))] {
        let start = LinkValues { link: first.clone(), original: None, saved: false, last: None };
        let mut values = start.clone();
        for options in ["--enable-features=\"msForceNoRoundedCornerAndMargin\"", "--mute-audio"] {
            let command = build_external_link_command(options, &Some(EXE.to_string())).unwrap();
            let plan = set_external_link_command(&snapshot_of(&values), &command);
            perform(&mut values, &plan);
            assert_eq!(values.link, Some(command));
        }
        let plan = restore_external_link_command(&snapshot_of(&values));
        perform(&mut values, &plan);
        assert_eq!(values, start);
    }
}

#[test]
fn a_built_link_command_gives_its_executable_back() {
    let command = build_external_link_command("  --mute-audio ", &Some(EXE.to_string())).unwrap();
    assert_eq!(extract_executable_from_command(&command), Some(EXE.to_string()));
}
