use nyoom::config::{Userchrome, UserchromeConfig};
use nyoom::prefs::{has_managed_block, needs_backup, patch_preferences, pref_line_of, split_lines, END_LINE, START_LINE, STYLESHEET_LINE};
use nyoom::switch::{patch_for_theme, switch_plan, PrefTarget, Script, SwitchStep};

fn pref(key: &str, value: &str, raw: bool) -> UserchromeConfig {
    UserchromeConfig { key: key.to_string(), value: value.to_string(), raw }
}

const STYLESHEET: &str = "user_pref(\"toolkit.legacyUserProfileCustomizations.stylesheets\", true);";

#[test]
fn markers_and_stylesheet_line_are_fixed() {
    assert_eq!(START_LINE, "/** nyoom-managed config; do not edit */");
    assert_eq!(END_LINE, "/** end of nyoom-managed config */");
    assert_eq!(STYLESHEET_LINE, STYLESHEET);
}

#[test]
fn missing_markers_append_a_block() {
    let out = patch_preferences("foo\n", &vec![pref("x", "1", true)]);
    let expected = format!("foo\n{}\n{}\nuser_pref(\"x\", 1);\n{}\n", START_LINE, STYLESHEET, END_LINE);
    assert_eq!(out, expected);
    assert!(out.starts_with("foo\n"));
}

#[test]
fn raw_and_quoted_values() {
    assert_eq!(pref_line_of(&pref("k", "v", false)), "user_pref(\"k\", \"v\");");
    assert_eq!(pref_line_of(&pref("k", "true", true)), "user_pref(\"k\", true);");
}

#[test]
fn patching_twice_is_patching_once() {
    let prefs = vec![pref("a", "1", true), pref("b", "x", false)];
    for contents in ["", "foo\n", "foo\nbar", "a\r\nb\r\n", "x\n/** nyoom-managed config; do not edit */\nold\n/** end of nyoom-managed config */\ny\n"] {
        let once = patch_preferences(contents, &prefs);
        let twice = patch_preferences(&once, &prefs);
        assert_eq!(once, twice, "contents {:?}", contents);
    }
}

#[test]
fn content_outside_the_block_is_kept() {
    let contents = format!("// before\nuser_pref(\"mine\", 1);\n{}\nold line\nother\n{}\n// after\nlast\n", START_LINE, END_LINE);
    let out = patch_preferences(&contents, &vec![pref("k", "v", false)]);
    let expected = format!(
        "// before\nuser_pref(\"mine\", 1);\n{}\n{}\nuser_pref(\"k\", \"v\");\n{}\n// after\nlast\n",
        START_LINE, STYLESHEET, END_LINE
    );
    assert_eq!(out, expected);
}

#[test]
fn empty_file_gets_a_block() {
    let out = patch_preferences("", &vec![]);
    assert_eq!(out, format!("{}\n{}\n{}\n", START_LINE, STYLESHEET, END_LINE));
}

#[test]
fn duplicate_keys_are_all_written() {
    let out = patch_preferences("", &vec![pref("k", "1", true), pref("k", "2", true)]);
    assert!(out.contains("user_pref(\"k\", 1);\nuser_pref(\"k\", 2);\n"));
}

#[test]
fn only_one_marker_appends() {
    let contents = format!("{}\nx\n", START_LINE);
    assert!(!has_managed_block(&contents));
    assert!(needs_backup(true, &contents));
    assert!(!needs_backup(false, &contents));
    let whole = format!("{}\n{}\n", START_LINE, END_LINE);
    assert!(has_managed_block(&whole));
    assert!(!needs_backup(true, &whole));
    let out = patch_preferences(&contents, &vec![]);
    assert_eq!(out, format!("{}\nx\n{}\n{}\n{}\n", START_LINE, START_LINE, STYLESHEET, END_LINE));
}

#[test]
fn lines_split_like_str_lines() {
    let text = "a\r\nb\n\nc\r";
    let expected: Vec<String> = text.lines().map(|s| s.to_string()).collect();
    assert_eq!(split_lines(text), expected);
    assert_eq!(split_lines(""), Vec::<String>::new());
    assert_eq!(split_lines("\n"), vec!["".to_string()]);
}

#[test]
fn switch_to_a_theme_plans_and_patches() {
    let theme = Userchrome {
        name: "repo-theme-name".to_string(),
        source: "github:owner/repo#main".to_string(),
        configs: vec![pref("layout.css.x", "true", true)],
    };
    assert_eq!(
        switch_plan(true, false),
        vec![SwitchStep::Retrieve, SwitchStep::InstallChrome, SwitchStep::WriteMarker, SwitchStep::PatchPreferences(PrefTarget::UserJs)]
    );
    let out = patch_for_theme("", &Some(theme));
    assert_eq!(
        out,
        format!("{}\n{}\nuser_pref(\"layout.css.x\", true);\n{}\n", START_LINE, STYLESHEET, END_LINE)
    );
    assert_eq!(PrefTarget::UserJs.file_name(), "user.js");
}

#[test]
fn switch_to_none_leaves_only_the_stylesheet_line() {
    assert_eq!(switch_plan(false, false), vec![SwitchStep::RemoveChrome, SwitchStep::PatchPreferences(PrefTarget::UserJs)]);
    let before = format!("p\n{}\nuser_pref(\"a\", 1);\n{}\n", START_LINE, END_LINE);
    let out = patch_for_theme(&before, &None);
    assert_eq!(out, format!("p\n{}\n{}\n{}\n", START_LINE, STYLESHEET, END_LINE));
}

#[test]
fn overrides_run_the_scripts() {
    assert_eq!(
        switch_plan(false, true),
        vec![
            SwitchStep::RemoveChrome,
            SwitchStep::PatchPreferences(PrefTarget::Overrides),
            SwitchStep::RunScript(Script::Updater),
            SwitchStep::RunScript(Script::PrefsCleaner),
        ]
    );
    assert_eq!(PrefTarget::Overrides.file_name(), "user-overrides.js");
    assert_eq!(Script::Updater.name(), "updater");
    assert_eq!(Script::PrefsCleaner.name(), "prefsCleaner");
}
