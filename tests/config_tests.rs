use nyoom::commands::{AddCommand, CommandError, ConfigCommand, ConfigOutcome, ConfigSubcommands, PresetCommand, ProfileCommand, RemoveCommand, SwitchCommand, UpdateCommand};
use nyoom::config::{config_file_in, get_default_config_path, Config, PrintContext, Userchrome, UserchromeConfig};
use nyoom::source::{DirProbe, ParsedSource, SourceError};
use nyoom::switch::{backup_name, chrome_disposal, install_subdir, ChromeDisposal};

fn theme(name: &str, source: &str) -> Userchrome {
    Userchrome { name: name.to_string(), source: source.to_string(), configs: vec![] }
}

fn config_with(themes: Vec<Userchrome>) -> Config {
    Config { profile: Some("/p".to_string()), userchromes: themes }
}

fn names(c: &Config) -> Vec<String> {
    c.userchromes.iter().map(|u| u.name.clone()).collect()
}

#[test]
fn add_keeps_hosted_text_and_canonicalizes_paths() {
    let mut c = config_with(vec![]);
    let add = AddCommand { name: "a".to_string(), source: "github:o/n".to_string() };
    let parsed = ParsedSource::parse("github:o/n", DirProbe::NotADirectory);
    assert_eq!(add.apply(&mut c, parsed), Ok(()));
    assert_eq!(c.userchromes[0].source, "github:o/n");
    let add2 = AddCommand { name: "b".to_string(), source: "./t".to_string() };
    let parsed2 = ParsedSource::parse("./t", DirProbe::Directory { canonical: "/abs/t".to_string() });
    assert_eq!(add2.apply(&mut c, parsed2), Ok(()));
    assert_eq!(c.userchromes[1].source, "/abs/t");
    assert_eq!(names(&c), vec!["a", "b"]);
}

#[test]
fn add_refuses_a_taken_name_first() {
    let mut c = config_with(vec![theme("a", "github:o/n")]);
    let add = AddCommand { name: "a".to_string(), source: "junk".to_string() };
    assert_eq!(add.apply(&mut c, Err(SourceError::InvalidSource)), Err(CommandError::AlreadyExists));
    let add2 = AddCommand { name: "b".to_string(), source: "junk".to_string() };
    assert_eq!(add2.apply(&mut c, Err(SourceError::InvalidSource)), Err(CommandError::Source(SourceError::InvalidSource)));
    assert_eq!(names(&c), vec!["a"]);
}

#[test]
fn remove_takes_out_the_named_theme() {
    let mut c = config_with(vec![theme("a", "s1"), theme("b", "s2")]);
    let removed = RemoveCommand { name: "a".to_string() }.apply(&mut c).unwrap();
    assert_eq!(removed.source, "s1");
    assert_eq!(names(&c), vec!["b"]);
    assert!(matches!(RemoveCommand { name: "zz".to_string() }.apply(&mut c), Err(CommandError::NotFound)));
}

#[test]
fn config_set_updates_or_appends() {
    let mut c = config_with(vec![theme("a", "s")]);
    let set = |key: &str, value: &str, raw: bool| ConfigCommand {
        command: ConfigSubcommands::SetPref { name: "a".to_string(), key: key.to_string(), value: value.to_string(), raw },
    };
    assert!(matches!(set("k", "1", true).apply(&mut c), Ok(ConfigOutcome::Changed)));
    assert!(matches!(set("j", "x", false).apply(&mut c), Ok(ConfigOutcome::Changed)));
    assert!(matches!(set("k", "2", false).apply(&mut c), Ok(ConfigOutcome::Changed)));
    let cs = &c.userchromes[0].configs;
    assert_eq!(cs.len(), 2);
    assert_eq!((cs[0].key.as_str(), cs[0].value.as_str(), cs[0].raw), ("k", "2", false));
    assert_eq!((cs[1].key.as_str(), cs[1].value.as_str(), cs[1].raw), ("j", "x", false));
    let list = ConfigCommand { command: ConfigSubcommands::List { name: "a".to_string() } };
    match list.apply(&mut c) {
        Ok(ConfigOutcome::Listed(v)) => assert_eq!(v.len(), 2),
        _ => panic!("expected a listing"),
    }
}

#[test]
fn config_unset_removes_every_entry_of_the_key() {
    let mut u = theme("a", "s");
    u.configs = vec![
        UserchromeConfig { key: "k".to_string(), value: "1".to_string(), raw: true },
        UserchromeConfig { key: "j".to_string(), value: "2".to_string(), raw: true },
        UserchromeConfig { key: "k".to_string(), value: "3".to_string(), raw: true },
    ];
    let mut c = config_with(vec![u]);
    let unset = ConfigCommand { command: ConfigSubcommands::Unset { name: "a".to_string(), key: "k".to_string() } };
    assert!(matches!(unset.apply(&mut c), Ok(ConfigOutcome::Changed)));
    let keys: Vec<&str> = c.userchromes[0].configs.iter().map(|c| c.key.as_str()).collect();
    assert_eq!(keys, vec!["j"]);
    let missing = ConfigCommand { command: ConfigSubcommands::Unset { name: "zz".to_string(), key: "k".to_string() } };
    assert!(matches!(missing.apply(&mut c), Err(CommandError::NotFound)));
}

#[test]
fn preset_is_copied_in() {
    let presets = vec![theme("edge", "github:bmFtZQ/edge-frfox")];
    let mut c = config_with(vec![]);
    assert_eq!(PresetCommand { name: Some("edge".to_string()) }.apply(&mut c, &presets), Ok(()));
    assert_eq!(c.userchromes[0].source, "github:bmFtZQ/edge-frfox");
    assert_eq!(PresetCommand { name: Some("edge".to_string()) }.apply(&mut c, &presets), Err(CommandError::AlreadyExists));
    assert_eq!(PresetCommand { name: Some("nope".to_string()) }.apply(&mut c, &presets), Err(CommandError::NoSuchPreset));
    assert_eq!(PresetCommand { name: None }.apply(&mut c, &presets), Ok(()));
    assert_eq!(c.userchromes.len(), 1);
}

#[test]
fn switch_target_resolution() {
    let c = config_with(vec![theme("a", "s")]);
    assert!(matches!(SwitchCommand { name: "out".to_string() }.target(&c), Ok(None)));
    assert_eq!(SwitchCommand { name: "a".to_string() }.target(&c).unwrap().unwrap().name, "a");
    assert!(matches!(SwitchCommand { name: "b".to_string() }.target(&c), Err(CommandError::NotFound)));
    let none = Config { profile: None, userchromes: vec![] };
    assert!(matches!(SwitchCommand { name: "out".to_string() }.target(&none), Err(CommandError::NoProfile)));
}

#[test]
fn update_finds_the_recorded_theme() {
    let c = config_with(vec![theme("a", "s"), theme("b", "t")]);
    let u = UpdateCommand {};
    assert_eq!(u.target(&c, Some("  b\n".to_string())).unwrap().source, "t");
    assert!(matches!(u.target(&c, Some("c".to_string())), Err(CommandError::NoInstalled)));
    assert!(matches!(u.target(&c, None), Err(CommandError::NoInstalled)));
}

#[test]
fn profile_is_set_to_the_canonical_directory() {
    let mut c = Config { profile: None, userchromes: vec![] };
    let cmd = ProfileCommand { path: Some("./p".to_string()) };
    assert_eq!(cmd.apply(&mut c, DirProbe::Directory { canonical: "/abs/p".to_string() }), Ok(true));
    assert_eq!(c.profile, Some("/abs/p".to_string()));
    assert_eq!(cmd.apply(&mut c, DirProbe::NotADirectory), Err(CommandError::ProfileNotADirectory));
    assert_eq!(ProfileCommand { path: None }.apply(&mut c, DirProbe::NotADirectory), Ok(false));
}

#[test]
fn config_file_paths() {
    assert_eq!(config_file_in("/home/u/.config/nyoom"), "/home/u/.config/nyoom/nyoom.toml");
    assert_eq!(config_file_in("/cfg/"), "/cfg/nyoom.toml");
    assert_eq!(config_file_in(""), "nyoom.toml");
    if let Some(p) = get_default_config_path() {
        assert!(p.ends_with("nyoom.toml"));
    }
}

#[test]
fn listing_helpers() {
    let c = UserchromeConfig { key: "k".to_string(), value: "v".to_string(), raw: true };
    assert_eq!(c.describe(), "k: v (raw)");
    let q = UserchromeConfig { key: "k".to_string(), value: "v".to_string(), raw: false };
    assert_eq!(q.describe(), "k: v");
    let mut u = theme("a", "s");
    u.configs = vec![c.duplicate(), c.duplicate(), c.duplicate(), c.duplicate(), c.duplicate()];
    assert_eq!(u.shown_configs(true), 3);
    assert_eq!(u.hidden_configs(true), 2);
    assert_eq!(u.shown_configs(false), 5);
    assert_eq!(u.hidden_configs(false), 0);
    assert_eq!(PrintContext::Added.marker(), "+");
    assert_eq!(PrintContext::Removed.marker(), "-");
}

#[test]
fn chrome_directory_handling() {
    assert_eq!(chrome_disposal(false, false), ChromeDisposal::Absent);
    assert_eq!(chrome_disposal(true, true), ChromeDisposal::Remove);
    assert_eq!(chrome_disposal(true, false), ChromeDisposal::Backup);
    assert_eq!(install_subdir(true), Some("chrome"));
    assert_eq!(install_subdir(false), None);
    assert_eq!(backup_name("user.js", "2024-01-02-03-04-05"), "user.js.nyoom-2024-01-02-03-04-05.bak");
}

#[test]
fn profile_that_cannot_be_canonicalized() {
    let mut c = Config { profile: None, userchromes: vec![] };
    let cmd = ProfileCommand { path: Some("/p".to_string()) };
    assert_eq!(cmd.apply(&mut c, DirProbe::Unresolvable), Err(CommandError::ProfileUnresolvable));
    assert_eq!(c.profile, None);
}

#[test]
fn preference_edits_on_a_missing_theme_change_nothing() {
    let mut c = config_with(vec![theme("a", "s")]);
    assert!(!c.set_pref("b", "k", "v", true));
    assert!(!c.unset_pref("b", "k"));
    assert!(c.userchromes[0].configs.is_empty());
    assert!(c.set_pref("a", "k", "v", true));
    assert_eq!(c.userchromes[0].configs.len(), 1);
    assert_eq!(c.find("a"), Some(0));
    assert_eq!(c.find("b"), None);
}
