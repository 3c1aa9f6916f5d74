use edge_shortcut_tool::options::{
    get_custom_options_from_text, get_new_options, get_old_options, get_feature_list_from_arguments,
    get_standalone_options_from_arguments, merge_shortcut_arguments, normalize_feature_list,
    normalize_standalone_options,
};
use edge_shortcut_tool::tokens::split_argument_tokens;

const STANDALONE_EXAMPLE: &str = "--disable-extensions --force-dark-mode --mute-audio";
const ENABLE_EXAMPLE: &str = "msForceNoRoundedCornerAndMargin,msUndersideButton,ParallelDownloading";
const DISABLE_EXAMPLE: &str = "msShowSignInIndicator,msUndersideButton,MediaRouter";

#[test]
fn normalizes_plain_feature_list() {
    let input = " msForceNoRoundedCornerAndMargin, msUndersideButton ,, ParallelDownloading ";

    assert_eq!(normalize_feature_list(input), ENABLE_EXAMPLE);
}

#[test]
fn normalizes_full_enable_switch() {
    let input = r#"--enable-features="msForceNoRoundedCornerAndMargin, msUndersideButton""#;

    assert_eq!(normalize_feature_list(input), "msForceNoRoundedCornerAndMargin,msUndersideButton");
}

#[test]
fn builds_custom_options() {
    let options = get_custom_options_from_text(
        STANDALONE_EXAMPLE,
        "msForceNoRoundedCornerAndMargin, msUndersideButton, ParallelDownloading",
        r#"--disable-features="msShowSignInIndicator,msUndersideButton,MediaRouter""#,
    );

    let expected = format!(
        r#"{} --enable-features="{}" --disable-features="{}""#,
        STANDALONE_EXAMPLE, ENABLE_EXAMPLE, DISABLE_EXAMPLE
    );

    assert_eq!(options, expected);
}

#[test]
fn extracts_enable_features_from_arguments() {
    let args = format!(
        r#"--profile-directory="Profile 1" --enable-features="{}" --disable-features="msShowSignInIndicator""#,
        "msForceNoRoundedCornerAndMargin,msUndersideButton"
    );

    assert_eq!(
        get_feature_list_from_arguments(&args, "enable-features"),
        "msForceNoRoundedCornerAndMargin,msUndersideButton"
    );
}

#[test]
fn extracts_multiple_same_switches() {
    let args = r#"--enable-features=msForceNoRoundedCornerAndMargin --enable-features="msUndersideButton,ParallelDownloading""#;

    assert_eq!(get_feature_list_from_arguments(args, "enable-features"), ENABLE_EXAMPLE);
}

#[test]
fn merge_replaces_existing_arguments() {
    let existing = r#"--profile-directory="Profile 1" --enable-features="msUndersideButton" --disable-extensions --app-id=abc"#;
    let managed = r#"--mute-audio --disable-features="MediaRouter""#;

    assert_eq!(merge_shortcut_arguments(existing, managed), managed);
}

#[test]
fn restore_default_clears_arguments() {
    let existing = r#"--profile-directory="Default" --disable-features="msShowSignInIndicator,MediaRouter" --disable-extensions --app-id=abc"#;

    assert_eq!(merge_shortcut_arguments(existing, ""), "");
}

#[test]
fn extracts_standalone_options_from_arguments() {
    let args = r#"--profile-directory="Default" --disable-extensions --enable-features="msForceNoRoundedCornerAndMargin" --force-dark-mode --mute-audio"#;

    assert_eq!(
        get_standalone_options_from_arguments(args),
        r#"--profile-directory="Default" --disable-extensions --force-dark-mode --mute-audio"#
    );
}

#[test]
fn non_ascii_existing_arguments_do_not_affect_replacement() {
    let existing = r#"--profile-directory="Profilé 1" --enable-features="msUndersideButton""#;

    assert_eq!(
        merge_shortcut_arguments(existing, r#"--disable-features="MediaRouter""#),
        r#"--disable-features="MediaRouter""#
    );
}

#[test]
fn tokenizer_keeps_quoted_stretches_together() {
    let tokens = split_argument_tokens("  --a=\"x y\"\t'p q' r  \"open end ");
    assert_eq!(tokens, vec!["--a=\"x y\"", "'p q'", "r", "\"open end "]);
}

#[test]
fn tokenizer_splits_on_unicode_whitespace() {
    let tokens = split_argument_tokens("a\u{3000}b\u{a0}c");
    assert_eq!(tokens, vec!["a", "b", "c"]);
}

#[test]
fn tokenizer_of_blank_text_is_empty() {
    assert!(split_argument_tokens(" \t\r\n ").is_empty());
    assert!(split_argument_tokens("").is_empty());
}

#[test]
fn standalone_options_are_trimmed_and_single_spaced() {
    assert_eq!(
        normalize_standalone_options("  --disable-extensions \t --force-dark-mode\n\"--x y\"  "),
        "--disable-extensions --force-dark-mode \"--x y\""
    );
    assert_eq!(normalize_standalone_options("'open end  "), "'open end");
}

#[test]
fn feature_list_accepts_disable_switch_with_spaces_and_single_quotes() {
    assert_eq!(normalize_feature_list("  --DISABLE-features  =  'a , b,,c'  "), "a,b,c");
}

#[test]
fn feature_list_keeps_unmatched_quotes() {
    assert_eq!(normalize_feature_list("\"a,b'"), "\"a,b'");
    assert_eq!(normalize_feature_list("\""), "\"");
}

#[test]
fn feature_list_of_blank_text_is_empty() {
    assert_eq!(normalize_feature_list(" , ,"), "");
    assert_eq!(normalize_feature_list("--enable-features="), "");
}

#[test]
fn custom_options_leave_out_empty_fields() {
    assert_eq!(get_custom_options_from_text("", " , ", ""), "");
    assert_eq!(get_custom_options_from_text("", "", "x"), "--disable-features=\"x\"");
    assert_eq!(get_custom_options_from_text("--a", "", ""), "--a");
}

#[test]
fn feature_list_reads_separated_values() {
    let args = "--enable-features = \"a,b\" --ENABLE-FEATURES =c --enable-features d --enable-features --x";
    assert_eq!(get_feature_list_from_arguments(args, "Enable-Features"), "a,b,c,d");
}

#[test]
fn standalone_options_skip_managed_switches_and_values() {
    let args = "--disable-features = x --enable-features y --keep = v --flag=1 --other value stray --last";
    assert_eq!(
        get_standalone_options_from_arguments(args),
        "--keep = v --flag=1 --other value --last"
    );
}

#[test]
fn presets_match_the_documented_flags() {
    assert_eq!(get_old_options(false), r#"--disable-features="msFeatureGroupNewLookAndFeelHoldout""#);
    assert_eq!(
        get_old_options(true),
        r#"--disable-features="msShowSignInIndicator,msFeatureGroupNewLookAndFeelHoldout""#
    );
    assert_eq!(get_new_options(false), r#"--enable-features="msForceNoRoundedCornerAndMargin""#);
    assert_eq!(
        get_new_options(true),
        r#"--enable-features="msForceNoRoundedCornerAndMargin" --disable-features="msShowSignInIndicator""#
    );
}

#[test]
fn custom_options_read_back() {
    let options = get_custom_options_from_text("--mute-audio  --force-dark-mode", " a b , c ", "--disable-features = d,,e");
    assert_eq!(options, r#"--mute-audio --force-dark-mode --enable-features="a b,c" --disable-features="d,e""#);
    assert_eq!(get_feature_list_from_arguments(&options, "enable-features"), normalize_feature_list(" a b , c "));
    assert_eq!(get_feature_list_from_arguments(&options, "disable-features"), "d,e");
    assert_eq!(get_standalone_options_from_arguments(&options), "--mute-audio --force-dark-mode");
}

#[test]
fn normalizing_standalone_options_twice_changes_nothing() {
    for input in [
        "  --disable-extensions \t --force-dark-mode\n\"--x y\"  ",
        "--profile-directory=\"Profile 1\"   --mute-audio",
        "'open end  \t",
        "a\"b c\" d'e",
        "",
    ] {
        let once = normalize_standalone_options(input);
        assert_eq!(normalize_standalone_options(&once), once);
    }
}

#[test]
fn plain_feature_lists_normalize_to_their_trimmed_names() {
    let text = " msUndersideButton , ,ParallelDownloading ,";
    assert_eq!(normalize_feature_list(text), "msUndersideButton,ParallelDownloading");
    assert_eq!(normalize_feature_list(&normalize_feature_list(text)), normalize_feature_list(text));
}

#[test]
fn a_switch_prefix_normalizes_like_the_list_alone() {
    let list = " a , b ";
    for text in [
        "--enable-features=\" a , b \"".to_string(),
        "--DISABLE-Features \t=  \" a , b \"".to_string(),
        format!("--enable-features = {}", list),
    ] {
        assert_eq!(normalize_feature_list(&text), normalize_feature_list(list));
    }
}

#[test]
fn normalized_standalone_options_split_into_the_trimmed_tokens() {
    let input = "  --a   \"x  y\"\t--b 'open  ";
    let normalized = normalize_standalone_options(input);
    let trimmed: Vec<String> = split_argument_tokens(input).iter().map(|t| t.trim().to_string()).collect();
    assert_eq!(split_argument_tokens(&normalized), trimmed);
    assert_eq!(normalized.trim(), normalized);
}
