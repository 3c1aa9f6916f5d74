use edge_shortcut_tool::targets::{
    load_app_settings, query_registry_bool, save_app_settings, selected_shortcut_display_names,
    set_registry_bool, shortcut_target, AppSettings, ShortcutTargetSelection,
};
use edge_shortcut_tool::text::is_whitespace;

fn names(targets: &[edge_shortcut_tool::targets::ShortcutTarget]) -> Vec<(&'static str, &'static str)> {
    targets.iter().map(|t| (t.display_name, t.shortcut_name)).collect()
}

#[test]
fn whitespace_class_matches_std() {
    for code in 0u32..=0x10FFFF {
        if let Some(c) = char::from_u32(code) {
            assert_eq!(is_whitespace(c), c.is_whitespace(), "U+{:04X}", code);
        }
    }
}

#[test]
fn default_selection_is_stable_only() {
    let selection = ShortcutTargetSelection::default();
    assert_eq!(
        selection,
        ShortcutTargetSelection { stable: true, beta: false, dev: false, canary: false }
    );
    assert_eq!(names(&selection.selected_targets()), vec![("Microsoft Edge", "Microsoft Edge.lnk")]);
    assert_eq!(
        names(&selection.unselected_targets()),
        vec![
            ("Microsoft Edge Beta", "Microsoft Edge Beta.lnk"),
            ("Microsoft Edge Dev", "Microsoft Edge Dev.lnk"),
            ("Microsoft Edge Canary", "Microsoft Edge Canary.lnk"),
        ]
    );
}

#[test]
fn selection_splits_the_four_channels() {
    let selection = ShortcutTargetSelection { stable: false, beta: true, dev: false, canary: true };
    assert_eq!(
        names(&selection.selected_targets()),
        vec![
            ("Microsoft Edge Beta", "Microsoft Edge Beta.lnk"),
            ("Microsoft Edge Canary", "Microsoft Edge Canary.lnk"),
        ]
    );
    assert_eq!(
        names(&selection.unselected_targets()),
        vec![("Microsoft Edge", "Microsoft Edge.lnk"), ("Microsoft Edge Dev", "Microsoft Edge Dev.lnk")]
    );
    assert_eq!(
        selected_shortcut_display_names(&selection),
        vec!["Microsoft Edge Beta", "Microsoft Edge Canary"]
    );
    let all = ShortcutTargetSelection { stable: true, beta: true, dev: true, canary: true };
    assert_eq!(all.selected_targets().len(), 4);
    assert!(all.unselected_targets().is_empty());
    assert_eq!(shortcut_target(2).display_name, "Microsoft Edge Dev");
}

#[test]
fn default_settings() {
    let settings = AppSettings::default();
    assert!(settings.hide_sign_in_indicator);
    assert!(!settings.restore_sidebar);
    assert!(!settings.disable_extensions);
    assert!(!settings.apply_external_links);
    assert_eq!(settings.shortcut_selection, ShortcutTargetSelection::default());
}

#[test]
fn settings_round_trip_through_stored_values() {
    let settings = AppSettings {
        hide_sign_in_indicator: false,
        restore_sidebar: true,
        disable_extensions: true,
        apply_external_links: false,
        shortcut_selection: ShortcutTargetSelection { stable: false, beta: true, dev: true, canary: false },
    };
    let saved = save_app_settings(&settings);
    assert_eq!(
        saved,
        vec![
            ("HideSignInIndicator", "0"),
            ("RestoreSidebar", "1"),
            ("DisableExtensions", "1"),
            ("ApplyExternalLinks", "0"),
            ("ShortcutStable", "0"),
            ("ShortcutBeta", "1"),
            ("ShortcutDev", "1"),
            ("ShortcutCanary", "0"),
        ]
    );
    let stored: Vec<(String, String)> =
        saved.iter().map(|(n, v)| (n.to_string(), v.to_string())).collect();
    assert_eq!(load_app_settings(&stored), settings);
}

#[test]
fn missing_settings_take_defaults() {
    assert_eq!(load_app_settings(&Vec::new()), AppSettings::default());
}

#[test]
fn stored_flags_accept_one_and_true_in_any_case() {
    let stored = vec![
        ("RestoreSidebar".to_string(), "TRUE".to_string()),
        ("HideSignInIndicator".to_string(), "yes".to_string()),
        ("ShortcutCanary".to_string(), "True".to_string()),
        ("ShortcutCanary".to_string(), "0".to_string()),
    ];
    let settings = load_app_settings(&stored);
    assert!(settings.restore_sidebar);
    assert!(!settings.hide_sign_in_indicator);
    assert!(settings.shortcut_selection.canary);
    assert!(query_registry_bool(&Some("1".chars().collect()), false));
    assert!(!query_registry_bool(&Some(" 1".chars().collect()), true));
    assert!(query_registry_bool(&None, true));
    assert_eq!(set_registry_bool(true), "1");
    assert_eq!(set_registry_bool(false), "0");
}
