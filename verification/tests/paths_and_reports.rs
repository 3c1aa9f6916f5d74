use edge_shortcut_tool::apply::{
    apply_options, apply_shortcut_path, apply_status_message, record_run, ApplyResult, ShortcutApplyState,
    ShortcutProbe,
};
use edge_shortcut_tool::paths::{
    edge_executable_locations, edge_executable_path, get_edge_executable_candidates,
    get_shortcut_paths, get_system_profile_app_data, get_unselected_shortcut_paths,
    implicit_shortcut_root, is_selected_edge_shortcut_file, join_path_str, selected_candidate_path,
    PinnedFile, ShortcutLocations,
};
use edge_shortcut_tool::path_order::sorted_unique_paths;
use edge_shortcut_tool::registry::{ExternalLinkApplyResult, ExternalLinkApplyState};
use edge_shortcut_tool::report::{build_status_reports, decimal_chars, rich_edit_position, shortcut_location_label};
use edge_shortcut_tool::targets::ShortcutTargetSelection;

fn empty_locations() -> ShortcutLocations {
    ShortcutLocations {
        public: None,
        user_profile: None,
        desktop: None,
        one_drive: Vec::new(),
        program_data: None,
        app_data: None,
        app_data_pinned: Vec::new(),
        windows_root: None,
        system_pinned: Vec::new(),
    }
}

#[test]
fn joins_windows_paths() {
    assert_eq!(join_path_str(r"C:\Users\Public", "Desktop"), r"C:\Users\Public\Desktop");
    assert_eq!(join_path_str(r"C:\Users\", "Desktop"), r"C:\Users\Desktop");
    assert_eq!(join_path_str("C:/x/", "y"), "C:/x/y");
    assert_eq!(join_path_str("C:", "y"), "C:y");
    assert_eq!(join_path_str("", "y"), "y");
    assert_eq!(
        get_system_profile_app_data(r"C:\Windows"),
        r"C:\Windows\System32\config\systemprofile\AppData\Roaming"
    );
    assert_eq!(
        implicit_shortcut_root(r"C:\A"),
        r"C:\A\Microsoft\Internet Explorer\Quick Launch\User Pinned\ImplicitAppShortcuts"
    );
}

#[test]
fn joins_under_verbatim_paths_by_components() {
    assert_eq!(join_path_str(r"\\?\C:\Users\\me\", "Desktop"), r"\\?\C:\Users\me\Desktop");
    assert_eq!(join_path_str(r"\\?\C:", "x/y"), r"\\?\C:x\y");
    assert_eq!(join_path_str(r"\\?\C:\a/b", "x"), r"\\?\C:\a/b\x");
    assert_eq!(join_path_str(r"\\?\C:\a\.\b", r".\c\..\d"), r"\\?\C:\a\.\b\d");
    assert_eq!(join_path_str(r"\\?\UNC\srv\share", "x"), r"\\?\UNC\srv\share\x");
    assert_eq!(join_path_str(r"\\?\C:\", "Desktop"), r"\\?\C:\Desktop");
    assert_eq!(join_path_str(r"\\?\C:\x", ""), r"\\?\C:\x\");
}

#[test]
fn composes_shortcut_paths_in_order() {
    let locations = ShortcutLocations {
        public: Some(r"C:\Users\Public".to_string()),
        user_profile: Some(r"C:\Users\me".to_string()),
        desktop: Some("  ".to_string()),
        one_drive: vec![r"D:\OneDrive".to_string()],
        program_data: Some(r"C:\ProgramData".to_string()),
        app_data: Some(r"C:\Users\me\AppData\Roaming".to_string()),
        app_data_pinned: vec![
            PinnedFile { path: r"X\h1\microsoft edge.LNK".to_string(), file_name: Some("microsoft edge.LNK".to_string()) },
            PinnedFile { path: r"X\h1\Other.lnk".to_string(), file_name: Some("Other.lnk".to_string()) },
            PinnedFile { path: r"X\h2\bad".to_string(), file_name: None },
        ],
        windows_root: None,
        system_pinned: vec![PinnedFile { path: "ignored".to_string(), file_name: Some("Microsoft Edge.lnk".to_string()) }],
    };
    let selection = ShortcutTargetSelection::default();
    let paths = get_shortcut_paths(&locations, &selection);
    let roaming = r"C:\Users\me\AppData\Roaming\Microsoft";
    assert_eq!(
        paths,
        vec![
            r"C:\ProgramData\Microsoft\Windows\Start Menu\Programs\Microsoft Edge.lnk".to_string(),
            r"C:\Users\Public\Desktop\Microsoft Edge.lnk".to_string(),
            format!(r"{}\Internet Explorer\Quick Launch\Microsoft Edge.lnk", roaming),
            format!(r"{}\Internet Explorer\Quick Launch\User Pinned\StartMenu\Microsoft Edge.lnk", roaming),
            format!(r"{}\Internet Explorer\Quick Launch\User Pinned\TaskBar\Microsoft Edge.lnk", roaming),
            format!(r"{}\Windows\Start Menu\Programs\Microsoft Edge.lnk", roaming),
            r"C:\Users\me\Desktop\Microsoft Edge.lnk".to_string(),
            r"D:\OneDrive\Desktop\Microsoft Edge.lnk".to_string(),
            r"X\h1\microsoft edge.LNK".to_string(),
        ]
    );
    let unselected = get_unselected_shortcut_paths(&locations, &selection);
    assert_eq!(unselected.len(), 3 * 4 + 3 * 4);
    assert_eq!(unselected[0], r"C:\ProgramData\Microsoft\Windows\Start Menu\Programs\Microsoft Edge Beta.lnk");
    assert_eq!(unselected[1], r"C:\ProgramData\Microsoft\Windows\Start Menu\Programs\Microsoft Edge Canary.lnk");
}

#[test]
fn shortcut_paths_are_sorted_by_components_without_repeats() {
    let mut locations = empty_locations();
    locations.user_profile = Some(r"C:\Users\me".to_string());
    locations.desktop = Some(r"C:/Users/me\\Desktop\".to_string());
    locations.public = Some(r"C:\A b".to_string());
    locations.one_drive = vec![r"C:\A".to_string()];
    let selection = ShortcutTargetSelection::default();
    let paths = get_shortcut_paths(&locations, &selection);
    assert_eq!(
        paths,
        vec![
            r"C:\A\Desktop\Microsoft Edge.lnk".to_string(),
            r"C:\A b\Desktop\Microsoft Edge.lnk".to_string(),
            r"C:\Users\me\Desktop\Microsoft Edge.lnk".to_string(),
        ]
    );
}

#[test]
fn sorting_paths_keeps_the_first_of_the_same_path() {
    let paths = vec![
        r"C:\b\x".to_string(),
        r"C:/a//x".to_string(),
        r"C:\a\x".to_string(),
        r"C:\b\x\".to_string(),
        r"C:\a b\x".to_string(),
    ];
    assert_eq!(
        sorted_unique_paths(&paths),
        vec![r"C:/a//x".to_string(), r"C:\a b\x".to_string(), r"C:\b\x".to_string()]
    );
    assert!(sorted_unique_paths(&Vec::new()).is_empty());
}

#[test]
fn system_profile_and_desktop_known_folder() {
    let mut locations = empty_locations();
    locations.desktop = Some(r"E:\Desk".to_string());
    locations.windows_root = Some(r"C:\Windows".to_string());
    let selection = ShortcutTargetSelection { stable: false, beta: false, dev: true, canary: false };
    let paths = get_shortcut_paths(&locations, &selection);
    assert_eq!(paths[4], r"E:\Desk\Microsoft Edge Dev.lnk");
    assert_eq!(
        paths[3],
        r"C:\Windows\System32\config\systemprofile\AppData\Roaming\Microsoft\Windows\Start Menu\Programs\Microsoft Edge Dev.lnk"
    );
    assert_eq!(paths.len(), 5);
    let none = ShortcutTargetSelection { stable: false, beta: false, dev: false, canary: false };
    assert!(get_shortcut_paths(&locations, &none).is_empty());
}

#[test]
fn shortcut_file_names_match_ignoring_ascii_case() {
    let targets = ShortcutTargetSelection { stable: true, beta: true, dev: false, canary: false }.selected_targets();
    assert!(is_selected_edge_shortcut_file(&Some("MICROSOFT EDGE BETA.lnk".to_string()), &targets));
    assert!(!is_selected_edge_shortcut_file(&Some("Microsoft Edge Dev.lnk".to_string()), &targets));
    assert!(!is_selected_edge_shortcut_file(&None, &targets));
}

#[test]
fn first_existing_edge_candidate_is_selected() {
    let locations = edge_executable_locations();
    assert_eq!(locations.len(), 9);
    assert_eq!(locations[3], ("Beta - ProgramFiles(x86)", "ProgramFiles(x86)", r"Microsoft\Edge Beta\Application\msedge.exe"));
    let mut probes: Vec<(Option<String>, bool)> = vec![(None, false); 9];
    probes[1] = (Some("p1".to_string()), false);
    probes[2] = (Some("p2".to_string()), true);
    probes[4] = (Some("p4".to_string()), true);
    let candidates = get_edge_executable_candidates(&probes);
    let selected: Vec<bool> = candidates.iter().map(|c| c.selected).collect();
    assert_eq!(selected, vec![false, false, true, false, false, false, false, false, false]);
    assert_eq!(candidates[2].source, "Stable - LocalAppData");
    assert_eq!(selected_candidate_path(&candidates), Some("p2".to_string()));
    let none = get_edge_executable_candidates(&vec![(None, false); 9]);
    assert_eq!(selected_candidate_path(&none), None);
    assert_eq!(
        edge_executable_path(&Some(r"C:\PF".to_string()), r"Microsoft\Edge\Application\msedge.exe"),
        Some(r"C:\PF\Microsoft\Edge\Application\msedge.exe".to_string())
    );
    assert_eq!(edge_executable_path(&None, "x"), None);
}

#[test]
fn apply_records_count_found_and_failed() {
    let selection = ShortcutTargetSelection::default();
    let mut result = ApplyResult::new(&selection);
    assert_eq!(result.selected_shortcut_names, vec!["Microsoft Edge"]);
    apply_shortcut_path(&mut result, "a".to_string(), ShortcutProbe::Updated, true);
    apply_shortcut_path(&mut result, "b".to_string(), ShortcutProbe::Failed, false);
    apply_shortcut_path(&mut result, "c".to_string(), ShortcutProbe::Missing, true);
    apply_shortcut_path(&mut result, "d".to_string(), ShortcutProbe::Missing, false);
    assert_eq!(result.found_shortcuts, 2);
    assert_eq!(result.failed, 1);
    let details: Vec<(String, ShortcutApplyState)> = result.details.iter().map(|d| (d.path.clone(), d.state)).collect();
    assert_eq!(
        details,
        vec![
            ("a".to_string(), ShortcutApplyState::Updated),
            ("b".to_string(), ShortcutApplyState::Failed),
            ("c".to_string(), ShortcutApplyState::IgnoredMissing),
        ]
    );
}

#[test]
fn apply_plan_clears_unselected_shortcuts() {
    let mut locations = empty_locations();
    locations.public = Some(r"P".to_string());
    let selection = ShortcutTargetSelection { stable: true, beta: false, dev: true, canary: true };
    let selected = get_shortcut_paths(&locations, &selection);
    let unselected = get_unselected_shortcut_paths(&locations, &selection);
    let plan = apply_options("  --mute-audio ", &selection, false, &selected, &unselected);
    let jobs: Vec<(String, String, bool)> =
        plan.jobs.iter().map(|j| (j.path.clone(), j.arguments.clone(), j.show_missing)).collect();
    assert_eq!(
        jobs,
        vec![
            (r"P\Desktop\Microsoft Edge Canary.lnk".to_string(), "--mute-audio".to_string(), true),
            (r"P\Desktop\Microsoft Edge Dev.lnk".to_string(), "--mute-audio".to_string(), true),
            (r"P\Desktop\Microsoft Edge.lnk".to_string(), "--mute-audio".to_string(), true),
            (r"P\Desktop\Microsoft Edge Beta.lnk".to_string(), String::new(), false),
        ]
    );
    assert_eq!(plan.external_options, "");
    assert_eq!(plan.result.found_shortcuts, 0);
    assert_eq!(apply_status_message(&plan.result, "Custom"), "No shortcuts found");
    let mut done = plan.result;
    apply_shortcut_path(&mut done, "x".to_string(), ShortcutProbe::Updated, true);
    assert_eq!(apply_status_message(&done, "Custom"), "Applied: Custom");
    apply_shortcut_path(&mut done, "y".to_string(), ShortcutProbe::Failed, true);
    assert_eq!(apply_status_message(&done, "Custom"), "Completed with errors");
    let with_links = apply_options("--x", &selection, true, &selected, &unselected);
    assert_eq!(with_links.external_options, "--x");
}

#[test]
fn labels_shortcut_locations() {
    assert_eq!(shortcut_location_label(r"C:\ProgramData\Microsoft\Windows\Start Menu\Programs\Microsoft Edge.lnk"), "System Start Menu");
    assert_eq!(shortcut_location_label(r"C:\USERS\PUBLIC\DESKTOP\Microsoft Edge.lnk"), "Public Desktop");
    assert_eq!(shortcut_location_label(r"C:\u\AppData\Roaming\Microsoft\Internet Explorer\Quick Launch\User Pinned\TaskBar\Microsoft Edge.lnk"), "Pinned Taskbar");
    assert_eq!(shortcut_location_label(r"C:\u\AppData\Roaming\Microsoft\Internet Explorer\Quick Launch\User Pinned\StartMenu\x.lnk"), "Pinned Start Menu");
    assert_eq!(shortcut_location_label(r"C:\u\ImplicitAppShortcuts\h\x.lnk"), "Implicit pinned shortcut");
    assert_eq!(shortcut_location_label(r"C:\u\Internet Explorer\Quick Launch\Microsoft Edge.lnk"), "Quick Launch");
    assert_eq!(shortcut_location_label(r"C:\u\AppData\Roaming\Microsoft\Windows\Start Menu\Programs\Microsoft Edge.lnk"), "Current user Start Menu");
    assert_eq!(shortcut_location_label(r"D:\OneDrive\Desktop\Microsoft Edge.lnk"), "Current user Desktop");
    assert_eq!(shortcut_location_label(r"D:\OneDrive\Desktop\Microsoft Edge Beta.lnk"), "Shortcut");
}

#[test]
fn rich_edit_positions_count_crlf_once_and_utf16_units() {
    let text = "ab\r\ncé😀d";
    assert_eq!(rich_edit_position(text, 0), 0);
    assert_eq!(rich_edit_position(text, 2), 2);
    assert_eq!(rich_edit_position(text, 3), 3);
    assert_eq!(rich_edit_position(text, 4), 3);
    assert_eq!(rich_edit_position(text, 5), 4);
    assert_eq!(rich_edit_position(text, 7), 5);
    assert_eq!(rich_edit_position(text, 11), 7);
    assert_eq!(rich_edit_position(text, text.len()), 8);
    assert_eq!(rich_edit_position(text, text.len() + 1), 8);
    assert_eq!(rich_edit_position("x\r\n", 4), 2);
}

#[test]
fn decimal_notation() {
    assert_eq!(decimal_chars(0), vec!['0']);
    assert_eq!(decimal_chars(907), vec!['9', '0', '7']);
    assert_eq!(decimal_chars(usize::MAX).iter().collect::<String>(), usize::MAX.to_string());
}

#[test]
fn status_reports_after_a_run() {
    let mut result = ApplyResult::new(&ShortcutTargetSelection::default());
    apply_shortcut_path(&mut result, r"C:\Users\Public\Desktop\Microsoft Edge.lnk".to_string(), ShortcutProbe::Updated, true);
    apply_shortcut_path(&mut result, r"C:\x\Microsoft Edge.lnk".to_string(), ShortcutProbe::Missing, true);
    result.external_links = Some(ExternalLinkApplyResult { state: ExternalLinkApplyState::Restored });
    let candidates = get_edge_executable_candidates(&vec![(None, false); 9]);
    let (edge, shortcuts) = build_status_reports(Some(&result), &candidates, &Vec::new(), &Vec::new());
    assert_eq!(
        shortcuts,
        "Updated:\r\n  Public Desktop\r\n    C:\\Users\\Public\\Desktop\\Microsoft Edge.lnk\r\n\r\nMissing:\r\n  Shortcut\r\n    C:\\x\\Microsoft Edge.lnk\r\n\r\nLatest summary: 1 found, 1 updated, 1 missing, 0 failed\r\n"
    );
    assert!(edge.starts_with("Selected:\r\n  Not found in common install locations\r\n\r\nCandidates:\r\n  Environment missing - Stable - ProgramFiles(x86)\r\n    (environment variable not set)\r\n"));
    assert!(edge.ends_with("\r\nFor reference and diagnostic purposes only.\r\n"));
}

#[test]
fn status_reports_before_any_run() {
    let mut probes: Vec<(Option<String>, bool)> = vec![(None, false); 9];
    probes[0] = (Some("A".to_string()), true);
    probes[1] = (Some("B".to_string()), false);
    let candidates = get_edge_executable_candidates(&probes);
    let (edge, shortcuts) = build_status_reports(None, &candidates, &vec!["F".to_string()], &Vec::new());
    assert_eq!(shortcuts, "Found:\r\n  Shortcut\r\n    F\r\n\r\nNo operation has run during this session.\r\n");
    assert!(edge.starts_with(
        "Selected:\r\n  Selected - Stable - ProgramFiles(x86)\r\n    A\r\n\r\nCandidates:\r\n  Selected - Stable - ProgramFiles(x86)\r\n    A\r\n  Missing - Stable - ProgramFiles\r\n    B\r\n"
    ));
}

#[test]
fn recording_a_run_adds_one_detail_per_job_in_order() {
    let mut locations = empty_locations();
    locations.public = Some(r"P".to_string());
    let selection = ShortcutTargetSelection { stable: true, beta: false, dev: true, canary: false };
    let selected = get_shortcut_paths(&locations, &selection);
    let unselected = get_unselected_shortcut_paths(&locations, &selection);
    let plan = apply_options("--x", &selection, false, &selected, &unselected);
    let mut result = plan.result;
    let probes = vec![ShortcutProbe::Updated, ShortcutProbe::Missing, ShortcutProbe::Failed, ShortcutProbe::Missing];
    record_run(&mut result, &plan.jobs, &probes);
    let details: Vec<(String, ShortcutApplyState)> = result.details.iter().map(|d| (d.path.clone(), d.state)).collect();
    assert_eq!(
        details,
        vec![
            (r"P\Desktop\Microsoft Edge Dev.lnk".to_string(), ShortcutApplyState::Updated),
            (r"P\Desktop\Microsoft Edge.lnk".to_string(), ShortcutApplyState::IgnoredMissing),
            (r"P\Desktop\Microsoft Edge Beta.lnk".to_string(), ShortcutApplyState::Failed),
        ]
    );
    assert_eq!(result.found_shortcuts, 2);
    assert_eq!(result.failed, 1);
}

#[test]
fn sorting_paths_follows_windows_path_components() {
    let paths = vec![
        r"C:\x".to_string(),
        r"\\server\share\x".to_string(),
        r"c:\x".to_string(),
        r"C:a".to_string(),
        r"C:\a".to_string(),
        r"\\?\C:\x".to_string(),
        r"C:\a\.\b".to_string(),
        r"C:\a\b".to_string(),
        r"\\.\pipe\x".to_string(),
        r"rel\x".to_string(),
        r"\root".to_string(),
    ];
    assert_eq!(
        sorted_unique_paths(&paths),
        vec![
            r"\\?\C:\x".to_string(),
            r"\\.\pipe\x".to_string(),
            r"\\server\share\x".to_string(),
            r"C:\a".to_string(),
            r"C:\a\.\b".to_string(),
            r"C:\x".to_string(),
            r"C:a".to_string(),
            r"\root".to_string(),
            r"rel\x".to_string(),
        ]
    );
}
