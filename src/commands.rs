use vstd::prelude::*;

use crate::config::{
    config_views, copy_configs, find_theme, named_index, set_pref_spec, theme_views,
    unset_pref_spec, with_configs, Config, ConfigView, Userchrome, UserchromeConfig, UserchromeView,
};
use crate::source::{source_text, DirProbe, ParsedSource, SourceError};

verus! {

#[derive(Clone, Copy, Debug, PartialEq, Eq, Structural)]
pub enum CommandError {
    /// A theme of that name is already configured.
    AlreadyExists,
    /// No theme of that name is configured.
    NotFound,
    /// No preset of that name exists.
    NoSuchPreset,
    /// No browser profile is configured.
    NoProfile,
    /// The profile holds no theme that the configuration knows.
    NoInstalled,
    /// The profile path names no directory.
    ProfileNotADirectory,
    /// The profile directory could not be canonicalized.
    ProfileUnresolvable,
    /// The source text did not parse.
    Source(SourceError),
}

/// Lists the configured themes.
pub struct ListCommand {}

/// Adds a theme.
pub struct AddCommand {
    pub name: String,
    pub source: String,
}

/// The text stored for a new theme: the canonical text for URLs and local
/// paths, the text as given for hosted repositories.
pub open spec fn stored_source(given: Seq<char>, parsed: ParsedSource) -> Seq<char> {
    if parsed@ is Url || parsed@ is Path {
        source_text(parsed@)
    } else {
        given
    }
}

impl AddCommand {
    /// Adds the theme, given what parsing its source gave. A name already in
    /// use comes first, then a source that did not parse.
    pub fn apply(&self, config: &mut Config, parsed: Result<ParsedSource, SourceError>) -> (r:
        Result<(), CommandError>)
        ensures
            named_index(old(config)@.userchromes, self.name@) is Some ==> r == Err::<
                (),
                CommandError,
            >(CommandError::AlreadyExists) && final(config)@ == old(config)@,
            named_index(old(config)@.userchromes, self.name@) is None ==> match parsed {
                Err(e) => r == Err::<(), CommandError>(CommandError::Source(e)) && final(config)@
                    == old(config)@,
                Ok(p) => r is Ok && final(config)@ == (ConfigView {
                    userchromes: old(config)@.userchromes.push(
                        UserchromeView {
                            name: self.name@,
                            source: stored_source(self.source@, p),
                            configs: Seq::empty(),
                        },
                    ),
                    ..old(config)@
                }),
            },
    {
        if config.find(self.name.as_str()).is_some() {
            return Err(CommandError::AlreadyExists);
        }
        let parsed = match parsed {
            Ok(p) => p,
            Err(e) => {
                return Err(CommandError::Source(e));
            },
        };
        let source = if parsed.should_canonicalize() {
            parsed.to_text()
        } else {
            self.source.clone()
        };
        let u = Userchrome { name: self.name.clone(), source, configs: Vec::new() };
        assert(config_views(u.configs@) =~= Seq::empty());
        let ghost before = config.userchromes@;
        config.userchromes.push(u);
        assert(theme_views(config.userchromes@) =~= theme_views(before).push(u@));
        Ok(())
    }
}

/// Removes a theme.
pub struct RemoveCommand {
    pub name: String,
}

impl RemoveCommand {
    /// Removes the first theme of that name and hands it back.
    pub fn apply(&self, config: &mut Config) -> (r: Result<Userchrome, CommandError>)
        ensures
            match named_index(old(config)@.userchromes, self.name@) {
                Some(i) => r is Ok && r->Ok_0@ == old(config)@.userchromes[i] && final(config)@
                    == (ConfigView {
                    userchromes: old(config)@.userchromes.remove(i),
                    ..old(config)@
                }),
                None => r == Err::<Userchrome, CommandError>(CommandError::NotFound)
                    && final(config)@ == old(config)@,
            },
    {
        match config.find(self.name.as_str()) {
            Some(i) => {
                let ghost before = config.userchromes@;
                let u = config.userchromes.remove(i);
                assert(theme_views(config.userchromes@) =~= theme_views(before).remove(i as int));
                Ok(u)
            },
            None => Err(CommandError::NotFound),
        }
    }
}

/// The three ways of working on a theme's preferences.
pub enum ConfigSubcommands {
    List { name: String },
    SetPref { name: String, key: String, value: String, raw: bool },
    Unset { name: String, key: String },
}

/// Works on a theme's preferences.
pub struct ConfigCommand {
    pub command: ConfigSubcommands,
}

/// What a preference command gives back: the preferences it lists, or word
/// that the configuration changed.
pub enum ConfigOutcome {
    Listed(Vec<UserchromeConfig>),
    Changed,
}

impl ConfigCommand {
    pub fn apply(&self, config: &mut Config) -> (r: Result<ConfigOutcome, CommandError>)
        ensures
            match self.command {
                ConfigSubcommands::List { name } => final(config)@ == old(config)@ && match named_index(
                    old(config)@.userchromes,
                    name@,
                ) {
                    Some(i) => r is Ok && r->Ok_0 is Listed && config_views(r->Ok_0->Listed_0@)
                        == old(config)@.userchromes[i].configs,
                    None => r == Err::<ConfigOutcome, CommandError>(CommandError::NotFound),
                },
                ConfigSubcommands::SetPref { name, key, value, raw } => match named_index(
                    old(config)@.userchromes,
                    name@,
                ) {
                    Some(i) => r is Ok && r->Ok_0 is Changed && final(config)@ == (ConfigView {
                        userchromes: old(config)@.userchromes.update(
                            i,
                            with_configs(
                                old(config)@.userchromes[i],
                                set_pref_spec(old(config)@.userchromes[i].configs, key@, value@, raw),
                            ),
                        ),
                        ..old(config)@
                    }),
                    None => r == Err::<ConfigOutcome, CommandError>(CommandError::NotFound)
                        && final(config)@ == old(config)@,
                },
                ConfigSubcommands::Unset { name, key } => match named_index(
                    old(config)@.userchromes,
                    name@,
                ) {
                    Some(i) => r is Ok && r->Ok_0 is Changed && final(config)@ == (ConfigView {
                        userchromes: old(config)@.userchromes.update(
                            i,
                            with_configs(
                                old(config)@.userchromes[i],
                                unset_pref_spec(old(config)@.userchromes[i].configs, key@),
                            ),
                        ),
                        ..old(config)@
                    }),
                    None => r == Err::<ConfigOutcome, CommandError>(CommandError::NotFound)
                        && final(config)@ == old(config)@,
                },
            },
    {
        match &self.command {
            ConfigSubcommands::List { name } => match config.find(name.as_str()) {
                Some(i) => Ok(ConfigOutcome::Listed(copy_configs(&config.userchromes[i].configs))),
                None => Err(CommandError::NotFound),
            },
            ConfigSubcommands::SetPref { name, key, value, raw } => {
                if config.set_pref(name.as_str(), key.as_str(), value.as_str(), *raw) {
                    Ok(ConfigOutcome::Changed)
                } else {
                    Err(CommandError::NotFound)
                }
            },
            ConfigSubcommands::Unset { name, key } => {
                if config.unset_pref(name.as_str(), key.as_str()) {
                    Ok(ConfigOutcome::Changed)
                } else {
                    Err(CommandError::NotFound)
                }
            },
        }
    }
}

/// Adds a preset as a theme, or lists the presets.
pub struct PresetCommand {
    pub name: Option<String>,
}

impl PresetCommand {
    /// Adds the preset named by the command from `presets`; with no name,
    /// nothing changes (the presets are listed instead). A name already in
    /// use comes first, then an unknown preset.
    pub fn apply(&self, config: &mut Config, presets: &Vec<Userchrome>) -> (r: Result<
        (),
        CommandError,
    >)
        ensures
            match self.name {
                None => r is Ok && final(config)@ == old(config)@,
                Some(n) => if named_index(old(config)@.userchromes, n@) is Some {
                    r == Err::<(), CommandError>(CommandError::AlreadyExists) && final(config)@
                        == old(config)@
                } else {
                    match named_index(theme_views(presets@), n@) {
                        Some(k) => r is Ok && final(config)@ == (ConfigView {
                            userchromes: old(config)@.userchromes.push(theme_views(presets@)[k]),
                            ..old(config)@
                        }),
                        None => r == Err::<(), CommandError>(CommandError::NoSuchPreset)
                            && final(config)@ == old(config)@,
                    }
                },
            },
    {
        match &self.name {
            None => Ok(()),
            Some(n) => {
                if config.find(n.as_str()).is_some() {
                    return Err(CommandError::AlreadyExists);
                }
                match find_theme(presets, n.as_str()) {
                    Some(k) => {
                        let u = presets[k].duplicate();
                        let ghost before = config.userchromes@;
                        config.userchromes.push(u);
                        assert(theme_views(config.userchromes@) =~= theme_views(before).push(u@));
                        Ok(())
                    },
                    None => Err(CommandError::NoSuchPreset),
                }
            },
        }
    }
}

/// Switches to a theme, or with the name `out` to none.
pub struct SwitchCommand {
    pub name: String,
}

impl SwitchCommand {
    /// The theme to switch to: `None` for `out`.
    pub fn target(&self, config: &Config) -> (r: Result<Option<Userchrome>, CommandError>)
        ensures
            config@.profile is None ==> r == Err::<Option<Userchrome>, CommandError>(
                CommandError::NoProfile,
            ),
            config@.profile is Some ==> if self.name@ == "out"@ {
                r == Ok::<Option<Userchrome>, CommandError>(None)
            } else {
                match named_index(config@.userchromes, self.name@) {
                    Some(i) => r is Ok && r->Ok_0 is Some && r->Ok_0->0@ == config@.userchromes[i],
                    None => r == Err::<Option<Userchrome>, CommandError>(CommandError::NotFound),
                }
            },
    {
        if config.profile.is_none() {
            return Err(CommandError::NoProfile);
        }
        if self.name == String::from_str("out") {
            return Ok(None);
        }
        match config.find(self.name.as_str()) {
            Some(i) => Ok(Some(config.userchromes[i].duplicate())),
            None => Err(CommandError::NotFound),
        }
    }
}

/// What `str::trim` gives for a text.
pub uninterp spec fn trim_of(s: Seq<char>) -> Seq<char>;

/// Relies on `str::trim`: the text without leading and trailing white space,
/// which depends on the text alone.
#[verifier::external_body]
fn trimmed(s: &str) -> (r: String)
    ensures
        r@ == trim_of(s@),
{
    s.trim().to_owned()
}

/// Reinstalls the theme that the profile holds.
pub struct UpdateCommand {}

impl UpdateCommand {
    /// The installed theme, found by the name recorded in the profile
    /// (`recorded`, before trimming; `None` where there is no record).
    pub fn target(&self, config: &Config, recorded: Option<String>) -> (r: Result<
        Userchrome,
        CommandError,
    >)
        ensures
            config@.profile is None ==> r == Err::<Userchrome, CommandError>(
                CommandError::NoProfile,
            ),
            config@.profile is Some ==> match recorded {
                None => r == Err::<Userchrome, CommandError>(CommandError::NoInstalled),
                Some(t) => match named_index(config@.userchromes, trim_of(t@)) {
                    Some(i) => r is Ok && r->Ok_0@ == config@.userchromes[i],
                    None => r == Err::<Userchrome, CommandError>(CommandError::NoInstalled),
                },
            },
    {
        if config.profile.is_none() {
            return Err(CommandError::NoProfile);
        }
        match recorded {
            None => Err(CommandError::NoInstalled),
            Some(t) => {
                let name = trimmed(t.as_str());
                match config.find(name.as_str()) {
                    Some(i) => Ok(config.userchromes[i].duplicate()),
                    None => Err(CommandError::NoInstalled),
                }
            },
        }
    }
}

/// Sets the browser profile, or shows it.
pub struct ProfileCommand {
    pub path: Option<String>,
}

impl ProfileCommand {
    /// Sets the profile to the canonical form of the given directory, as
    /// `dir` reports it; true where the configuration changed.
    pub fn apply(&self, config: &mut Config, dir: DirProbe) -> (r: Result<bool, CommandError>)
        ensures
            self.path is None ==> r == Ok::<bool, CommandError>(false) && final(config)@ == old(
                config,
            )@,
            self.path is Some ==> match dir {
                DirProbe::Directory { canonical } => r == Ok::<bool, CommandError>(true)
                    && final(config)@ == (ConfigView { profile: Some(canonical@), ..old(config)@ }),
                DirProbe::NotADirectory => r == Err::<bool, CommandError>(
                    CommandError::ProfileNotADirectory,
                ) && final(config)@ == old(config)@,
                DirProbe::Unresolvable => r == Err::<bool, CommandError>(
                    CommandError::ProfileUnresolvable,
                ) && final(config)@ == old(config)@,
            },
    {
        if self.path.is_none() {
            return Ok(false);
        }
        match dir {
            DirProbe::Directory { canonical } => {
                config.profile = Some(canonical);
                Ok(true)
            },
            DirProbe::NotADirectory => Err(CommandError::ProfileNotADirectory),
            DirProbe::Unresolvable => Err(CommandError::ProfileUnresolvable),
        }
    }
}

} // verus!
