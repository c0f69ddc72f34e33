use vstd::prelude::*;

use crate::config::{config_views, Userchrome, UserchromeConfigView};
use crate::prefs::{patch_preferences, patched};

verus! {

/// The file, inside the installed chrome directory, that records the name of
/// the theme installed there.
pub const MARKER_FILE: &'static str = ".nyoom-chrome-name";

/// The directory of the profile that holds a theme's files.
pub const CHROME_DIR: &'static str = "chrome";

/// The preference file that a switch patches.
#[derive(Clone, Copy, Debug, PartialEq, Eq, Structural)]
pub enum PrefTarget {
    /// The profile's own `user.js`.
    UserJs,
    /// The override file of a hardened preference set, whose scripts then
    /// regenerate `user.js`.
    Overrides,
}

impl PrefTarget {
    /// The patched file's name inside the profile.
    pub fn file_name(&self) -> (r: &'static str)
        ensures
            r@ == match self {
                PrefTarget::UserJs => "user.js"@,
                PrefTarget::Overrides => "user-overrides.js"@,
            },
    {
        match self {
            PrefTarget::UserJs => "user.js",
            PrefTarget::Overrides => "user-overrides.js",
        }
    }
}

/// A helper script of the hardened preference set, run after its override
/// file is patched.
#[derive(Clone, Copy, Debug, PartialEq, Eq, Structural)]
pub enum Script {
    Updater,
    PrefsCleaner,
}

impl Script {
    /// The script's name, without the platform's suffix.
    pub fn name(&self) -> (r: &'static str)
        ensures
            r@ == match self {
                Script::Updater => "updater"@,
                Script::PrefsCleaner => "prefsCleaner"@,
            },
    {
        match self {
            Script::Updater => "updater",
            Script::PrefsCleaner => "prefsCleaner",
        }
    }
}

/// One step of a switch; each runs only once the ones before it succeeded.
#[derive(Clone, Copy, Debug, PartialEq, Eq, Structural)]
pub enum SwitchStep {
    /// Parse the theme's source and fetch its files into a fresh temporary
    /// directory.
    Retrieve,
    /// Put the fetched files in place of the profile's chrome directory.
    InstallChrome,
    /// Record the theme's name in the chrome directory.
    WriteMarker,
    /// Delete the profile's chrome directory.
    RemoveChrome,
    /// Patch the managed block of a preference file.
    PatchPreferences(PrefTarget),
    /// Run a helper script of the hardened preference set, silently, in the
    /// profile directory.
    RunScript(Script),
}

/// The steps of a switch to a theme (or, with none selected, away from any),
/// where `overrides` tells whether the profile has the override file of a
/// hardened preference set.
pub open spec fn switch_plan_spec(selected: bool, overrides: bool) -> Seq<SwitchStep> {
    let install = if selected {
        seq![SwitchStep::Retrieve, SwitchStep::InstallChrome, SwitchStep::WriteMarker]
    } else {
        seq![SwitchStep::RemoveChrome]
    };
    let prefs = if overrides {
        seq![
            SwitchStep::PatchPreferences(PrefTarget::Overrides),
            SwitchStep::RunScript(Script::Updater),
            SwitchStep::RunScript(Script::PrefsCleaner),
        ]
    } else {
        seq![SwitchStep::PatchPreferences(PrefTarget::UserJs)]
    };
    install + prefs
}

/// The steps of a switch, in order.
pub fn switch_plan(selected: bool, overrides: bool) -> (r: Vec<SwitchStep>)
    ensures
        r@ == switch_plan_spec(selected, overrides),
{
    let mut r: Vec<SwitchStep> = Vec::new();
    if selected {
        r.push(SwitchStep::Retrieve);
        r.push(SwitchStep::InstallChrome);
        r.push(SwitchStep::WriteMarker);
    } else {
        r.push(SwitchStep::RemoveChrome);
    }
    if overrides {
        r.push(SwitchStep::PatchPreferences(PrefTarget::Overrides));
        r.push(SwitchStep::RunScript(Script::Updater));
        r.push(SwitchStep::RunScript(Script::PrefsCleaner));
    } else {
        r.push(SwitchStep::PatchPreferences(PrefTarget::UserJs));
    }
    assert(r@ =~= switch_plan_spec(selected, overrides));
    r
}

/// What becomes of a chrome directory that a new theme replaces.
#[derive(Clone, Copy, Debug, PartialEq, Eq, Structural)]
pub enum ChromeDisposal {
    /// There is none.
    Absent,
    /// It holds a theme installed here: delete it.
    Remove,
    /// It was put there by hand: keep it under a backup name.
    Backup,
}

pub fn chrome_disposal(chrome_exists: bool, marker_exists: bool) -> (r: ChromeDisposal)
    ensures
        r == (if !chrome_exists {
            ChromeDisposal::Absent
        } else if marker_exists {
            ChromeDisposal::Remove
        } else {
            ChromeDisposal::Backup
        }),
{
    if !chrome_exists {
        ChromeDisposal::Absent
    } else if marker_exists {
        ChromeDisposal::Remove
    } else {
        ChromeDisposal::Backup
    }
}

/// The directory, inside what was fetched, whose files are installed: its
/// `chrome` directory where it has one, else (`None`) its top level.
pub fn install_subdir(fetched_has_chrome: bool) -> (r: Option<&'static str>)
    ensures
        fetched_has_chrome ==> r is Some && r->0@ == CHROME_DIR@,
        !fetched_has_chrome ==> r is None,
{
    if fetched_has_chrome {
        Some(CHROME_DIR)
    } else {
        None
    }
}

/// The name under which a file is kept before it is replaced:
/// `<name>.nyoom-<now>.bak`.
pub fn backup_name(name: &str, now: &str) -> (r: String)
    ensures
        r@ == name@ + ".nyoom-"@ + now@ + ".bak"@,
{
    String::from_str(name).concat(".nyoom-").concat(now).concat(".bak")
}

/// The preferences a switch writes: the theme's, or none when no theme is
/// selected.
pub open spec fn switch_prefs(theme: Option<Userchrome>) -> Seq<UserchromeConfigView> {
    match theme {
        Some(u) => u@.configs,
        None => Seq::empty(),
    }
}

/// The preference file's new content for a switch to `theme`.
pub fn patch_for_theme(contents: &str, theme: &Option<Userchrome>) -> (r: String)
    ensures
        r@ == patched(contents@, switch_prefs(*theme)),
{
    match theme {
        Some(u) => patch_preferences(contents, &u.configs),
        None => {
            let empty: Vec<crate::config::UserchromeConfig> = Vec::new();
            assert(config_views(empty@) =~= Seq::empty());
            patch_preferences(contents, &empty)
        },
    }
}

} // verus!
