use etcetera::AppStrategy;
use vstd::prelude::*;

verus! {

/// One preference that a theme sets: `user_pref("key", value);`.
pub struct UserchromeConfig {
    pub key: String,
    pub value: String,
    /// Whether `value` is written verbatim rather than as a quoted string.
    pub raw: bool,
}

pub struct UserchromeConfigView {
    pub key: Seq<char>,
    pub value: Seq<char>,
    pub raw: bool,
}

impl View for UserchromeConfig {
    type V = UserchromeConfigView;

    open spec fn view(&self) -> UserchromeConfigView {
        UserchromeConfigView { key: self.key@, value: self.value@, raw: self.raw }
    }
}

impl UserchromeConfig {
    /// A field-by-field copy.
    pub fn duplicate(&self) -> (r: UserchromeConfig)
        ensures
            r@ == self@,
    {
        UserchromeConfig { key: self.key.clone(), value: self.value.clone(), raw: self.raw }
    }
}

pub open spec fn config_views(prefs: Seq<UserchromeConfig>) -> Seq<UserchromeConfigView> {
    prefs.map_values(|c: UserchromeConfig| c@)
}

/// A copy of a list of preferences.
pub fn copy_configs(v: &Vec<UserchromeConfig>) -> (r: Vec<UserchromeConfig>)
    ensures
        config_views(r@) == config_views(v@),
{
    let mut r: Vec<UserchromeConfig> = Vec::new();
    let mut k: usize = 0;
    while k < v.len()
        invariant
            k <= v@.len(),
            config_views(r@) == config_views(v@.subrange(0, k as int)),
        decreases v.len() - k,
    {
        let ghost before = r@;
        let c = v[k].duplicate();
        r.push(c);
        proof {
            let next = v@.subrange(0, k + 1);
            assert(next =~= v@.subrange(0, k as int).push(v@[k as int]));
            assert(config_views(r@) =~= config_views(before).push(c@));
            assert(config_views(next) =~= config_views(v@.subrange(0, k as int)).push(v@[k as int]@));
        }
        k = k + 1;
    }
    assert(v@.subrange(0, k as int) =~= v@);
    r
}

/// A theme: its name, its source text and the preferences it sets.
pub struct Userchrome {
    pub name: String,
    pub source: String,
    pub configs: Vec<UserchromeConfig>,
}

pub struct UserchromeView {
    pub name: Seq<char>,
    pub source: Seq<char>,
    pub configs: Seq<UserchromeConfigView>,
}

impl View for Userchrome {
    type V = UserchromeView;

    open spec fn view(&self) -> UserchromeView {
        UserchromeView {
            name: self.name@,
            source: self.source@,
            configs: config_views(self.configs@),
        }
    }
}

pub open spec fn theme_views(us: Seq<Userchrome>) -> Seq<UserchromeView> {
    us.map_values(|u: Userchrome| u@)
}

/// The configuration: the browser profile in use and the themes, in order.
pub struct Config {
    pub profile: Option<String>,
    pub userchromes: Vec<Userchrome>,
}

pub struct ConfigView {
    pub profile: Option<Seq<char>>,
    pub userchromes: Seq<UserchromeView>,
}

pub open spec fn opt_view(o: Option<String>) -> Option<Seq<char>> {
    match o {
        Some(s) => Some(s@),
        None => None,
    }
}

impl View for Config {
    type V = ConfigView;

    open spec fn view(&self) -> ConfigView {
        ConfigView { profile: opt_view(self.profile), userchromes: theme_views(self.userchromes@) }
    }
}

/// How a theme is marked when it is listed.
#[derive(Clone, Copy, Debug, PartialEq, Eq, Structural)]
pub enum PrintContext {
    Normal,
    Modified,
    Added,
    Removed,
}

impl PrintContext {
    /// The mark printed before the theme's name.
    pub fn marker(&self) -> (r: &'static str)
        ensures
            r@ == match self {
                PrintContext::Normal => "·"@,
                PrintContext::Modified => "*"@,
                PrintContext::Added => "+"@,
                PrintContext::Removed => "-"@,
            },
    {
        match self {
            PrintContext::Normal => "·",
            PrintContext::Modified => "*",
            PrintContext::Added => "+",
            PrintContext::Removed => "-",
        }
    }
}

/// Whether `i` is the first position of a theme named `n`.
pub open spec fn first_named_at(us: Seq<UserchromeView>, n: Seq<char>, i: int) -> bool {
    0 <= i < us.len() && us[i].name == n && forall|j: int| 0 <= j < i ==> us[j].name != n
}

/// The first position of a theme named `n`.
#[verifier::opaque]
pub open spec fn named_index(us: Seq<UserchromeView>, n: Seq<char>) -> Option<int> {
    if exists|i: int| first_named_at(us, n, i) {
        Some(choose|i: int| first_named_at(us, n, i))
    } else {
        None
    }
}

proof fn lemma_named_index(us: Seq<UserchromeView>, n: Seq<char>)
    ensures
        match named_index(us, n) {
            Some(i) => first_named_at(us, n, i),
            None => forall|j: int| 0 <= j < us.len() ==> us[j].name != n,
        },
{
    reveal(named_index);
    if exists|i: int| first_named_at(us, n, i) {
        let i = choose|i: int| first_named_at(us, n, i);
        assert(first_named_at(us, n, i));
    } else if exists|j: int| 0 <= j < us.len() && us[j].name == n {
        let j = choose|j: int| 0 <= j < us.len() && us[j].name == n;
        lemma_least_named(us, n, j);
    }
}

proof fn lemma_least_named(us: Seq<UserchromeView>, n: Seq<char>, w: int)
    requires
        0 <= w < us.len(),
        us[w].name == n,
    ensures
        exists|i: int| first_named_at(us, n, i),
    decreases w,
{
    if exists|j: int| 0 <= j < w && us[j].name == n {
        let j = choose|j: int| 0 <= j < w && us[j].name == n;
        lemma_least_named(us, n, j);
    } else {
        assert(first_named_at(us, n, w));
    }
}

proof fn lemma_named_index_at(us: Seq<UserchromeView>, n: Seq<char>, i: int)
    requires
        first_named_at(us, n, i),
    ensures
        named_index(us, n) == Some(i),
{
    reveal(named_index);
    let k = choose|k: int| first_named_at(us, n, k);
    assert(first_named_at(us, n, k));
    if k < i {
        assert(us[k].name != n);
    } else if k > i {
        assert(us[i].name != n);
    }
}

/// Whether `i` is the first position of a preference with key `key`.
pub open spec fn first_keyed_at(cs: Seq<UserchromeConfigView>, key: Seq<char>, i: int) -> bool {
    0 <= i < cs.len() && cs[i].key == key && forall|j: int| 0 <= j < i ==> cs[j].key != key
}

/// The first position of a preference with key `key`.
#[verifier::opaque]
pub open spec fn keyed_index(cs: Seq<UserchromeConfigView>, key: Seq<char>) -> Option<int> {
    if exists|i: int| first_keyed_at(cs, key, i) {
        Some(choose|i: int| first_keyed_at(cs, key, i))
    } else {
        None
    }
}

proof fn lemma_keyed_index_at(cs: Seq<UserchromeConfigView>, key: Seq<char>, i: int)
    requires
        first_keyed_at(cs, key, i),
    ensures
        keyed_index(cs, key) == Some(i),
{
    reveal(keyed_index);
    let k = choose|k: int| first_keyed_at(cs, key, k);
    assert(first_keyed_at(cs, key, k));
    if k < i {
        assert(cs[k].key != key);
    } else if k > i {
        assert(cs[i].key != key);
    }
}

/// The preferences after `key` is set: the first entry with that key takes
/// the new value, or a new entry is added at the end.
pub open spec fn set_pref_spec(
    cs: Seq<UserchromeConfigView>,
    key: Seq<char>,
    value: Seq<char>,
    raw: bool,
) -> Seq<UserchromeConfigView> {
    let c = UserchromeConfigView { key, value, raw };
    match keyed_index(cs, key) {
        Some(j) => cs.update(j, c),
        None => cs.push(c),
    }
}

/// The preferences after `key` is unset: every entry with that key removed.
pub open spec fn unset_pref_spec(cs: Seq<UserchromeConfigView>, key: Seq<char>) -> Seq<
    UserchromeConfigView,
> {
    cs.filter(|c: UserchromeConfigView| c.key != key)
}

impl Userchrome {
    /// A field-by-field copy.
    pub fn duplicate(&self) -> (r: Userchrome)
        ensures
            r@ == self@,
    {
        Userchrome {
            name: self.name.clone(),
            source: self.source.clone(),
            configs: copy_configs(&self.configs),
        }
    }

    /// How many preferences are listed: at most three in a short listing.
    pub fn shown_configs(&self, short: bool) -> (r: usize)
        ensures
            r == (if short && self.configs@.len() > 3 {
                3
            } else {
                self.configs@.len()
            }),
    {
        if short && self.configs.len() > 3 {
            3
        } else {
            self.configs.len()
        }
    }

    /// How many preferences a short listing leaves out.
    pub fn hidden_configs(&self, short: bool) -> (r: usize)
        ensures
            r == (if short && self.configs@.len() > 3 {
                self.configs@.len() - 3
            } else {
                0
            }),
    {
        if short && self.configs.len() > 3 {
            self.configs.len() - 3
        } else {
            0
        }
    }
}

impl UserchromeConfig {
    /// `key: value`, with ` (raw)` after a raw value.
    pub fn describe(&self) -> (r: String)
        ensures
            r@ == self.key@ + ": "@ + self.value@ + (if self.raw {
                " (raw)"@
            } else {
                ""@
            }),
    {
        let r = self.key.clone().concat(": ").concat(self.value.as_str());
        if self.raw {
            r.concat(" (raw)")
        } else {
            r.concat("")
        }
    }
}

pub open spec fn with_configs(u: UserchromeView, cs: Seq<UserchromeConfigView>) -> UserchromeView {
    UserchromeView { configs: cs, ..u }
}

/// The position of the first preference with this key.
pub fn find_key(cs: &Vec<UserchromeConfig>, key: &String) -> (r: Option<usize>)
    ensures
        match r {
            Some(j) => j < cs@.len() && keyed_index(config_views(cs@), key@) == Some(j as int),
            None => keyed_index(config_views(cs@), key@) is None,
        },
{
    let ghost v = config_views(cs@);
    let mut k: usize = 0;
    while k < cs.len()
        invariant
            k <= cs@.len(),
            v == config_views(cs@),
            forall|j: int| 0 <= j < k ==> v[j].key != key@,
        decreases cs.len() - k,
    {
        if cs[k].key == *key {
            proof {
                lemma_keyed_index_at(v, key@, k as int);
            }
            return Some(k);
        }
        k = k + 1;
    }
    reveal(keyed_index);
    None
}

/// The preferences with `key` set to `value`.
pub fn set_in(cs: &Vec<UserchromeConfig>, key: &str, value: &str, raw: bool) -> (r: Vec<
    UserchromeConfig,
>)
    ensures
        config_views(r@) == set_pref_spec(config_views(cs@), key@, value@, raw),
{
    let mut out = copy_configs(cs);
    let k = String::from_str(key);
    let c = UserchromeConfig { key: k.clone(), value: String::from_str(value), raw };
    let ghost before = out@;
    match find_key(&out, &k) {
        Some(j) => {
            out[j] = c;
            assert(config_views(out@) =~= config_views(before).update(j as int, c@));
        },
        None => {
            out.push(c);
            assert(config_views(out@) =~= config_views(before).push(c@));
        },
    }
    out
}

/// The preferences with every entry of key `key` removed.
pub fn unset_in(cs: &Vec<UserchromeConfig>, key: &str) -> (r: Vec<UserchromeConfig>)
    ensures
        config_views(r@) == unset_pref_spec(config_views(cs@), key@),
{
    broadcast use vstd::seq_lib::group_filter_ensures;
    let k = String::from_str(key);
    let ghost pred = |c: UserchromeConfigView| c.key != key@;
    let mut out: Vec<UserchromeConfig> = Vec::new();
    let mut i: usize = 0;
    assert(config_views(cs@.subrange(0, 0)) =~= Seq::<UserchromeConfigView>::empty());
    assert(Seq::<UserchromeConfigView>::empty().filter(pred) =~= Seq::<UserchromeConfigView>::empty()) by {
        reveal(Seq::filter);
    }
    while i < cs.len()
        invariant
            i <= cs@.len(),
            k@ == key@,
            pred == (|c: UserchromeConfigView| c.key != key@),
            config_views(out@) == config_views(cs@.subrange(0, i as int)).filter(pred),
        decreases cs.len() - i,
    {
        let ghost before = out@;
        let ghost prev = config_views(cs@.subrange(0, i as int));
        assert(config_views(cs@.subrange(0, i + 1)) =~= prev.push(cs@[i as int]@));
        proof {
            prev.lemma_filter_push(cs@[i as int]@, pred);
        }
        if !(cs[i].key == k) {
            let c = cs[i].duplicate();
            out.push(c);
            assert(config_views(out@) =~= config_views(before).push(c@));
        }
        i = i + 1;
    }
    assert(cs@.subrange(0, i as int) =~= cs@);
    out
}

/// The position of the first theme named `name` in a list of themes.
pub fn find_theme(themes: &Vec<Userchrome>, name: &str) -> (r: Option<usize>)
    ensures
        match r {
            Some(i) => i < themes@.len() && named_index(theme_views(themes@), name@) == Some(
                i as int,
            ),
            None => named_index(theme_views(themes@), name@) is None,
        },
{
    let mut k: usize = 0;
    let n = String::from_str(name);
    let ghost v = theme_views(themes@);
    while k < themes.len()
        invariant
            k <= themes@.len(),
            v == theme_views(themes@),
            n@ == name@,
            forall|j: int| 0 <= j < k ==> v[j].name != name@,
        decreases themes.len() - k,
    {
        if themes[k].name == n {
            proof {
                lemma_named_index_at(v, name@, k as int);
            }
            return Some(k);
        }
        k = k + 1;
    }
    proof {
        lemma_named_index(v, name@);
    }
    None
}

impl Config {
    /// The position of the first theme named `name`.
    pub fn find(&self, name: &str) -> (r: Option<usize>)
        ensures
            match r {
                Some(i) => i < self.userchromes@.len() && named_index(self@.userchromes, name@)
                    == Some(i as int),
                None => named_index(self@.userchromes, name@) is None,
            },
    {
        find_theme(&self.userchromes, name)
    }

    /// Sets a preference of the theme named `name`; false, with nothing
    /// changed, where there is no such theme.
    pub fn set_pref(&mut self, name: &str, key: &str, value: &str, raw: bool) -> (r: bool)
        ensures
            r == (named_index(old(self)@.userchromes, name@) is Some),
            final(self)@ == match named_index(old(self)@.userchromes, name@) {
                Some(i) => ConfigView {
                    userchromes: old(self)@.userchromes.update(
                        i,
                        with_configs(
                            old(self)@.userchromes[i],
                            set_pref_spec(old(self)@.userchromes[i].configs, key@, value@, raw),
                        ),
                    ),
                    ..old(self)@
                },
                None => old(self)@,
            },
    {
        match self.find(name) {
            None => false,
            Some(i) => {
                let configs = set_in(&self.userchromes[i].configs, key, value, raw);
                self.replace_configs(i, configs);
                true
            },
        }
    }

    /// Unsets a preference of the theme named `name`; false, with nothing
    /// changed, where there is no such theme.
    pub fn unset_pref(&mut self, name: &str, key: &str) -> (r: bool)
        ensures
            r == (named_index(old(self)@.userchromes, name@) is Some),
            final(self)@ == match named_index(old(self)@.userchromes, name@) {
                Some(i) => ConfigView {
                    userchromes: old(self)@.userchromes.update(
                        i,
                        with_configs(
                            old(self)@.userchromes[i],
                            unset_pref_spec(old(self)@.userchromes[i].configs, key@),
                        ),
                    ),
                    ..old(self)@
                },
                None => old(self)@,
            },
    {
        match self.find(name) {
            None => false,
            Some(i) => {
                let configs = unset_in(&self.userchromes[i].configs, key);
                self.replace_configs(i, configs);
                true
            },
        }
    }

    fn replace_configs(&mut self, i: usize, configs: Vec<UserchromeConfig>)
        requires
            i < old(self).userchromes@.len(),
        ensures
            final(self)@ == (ConfigView {
                userchromes: old(self)@.userchromes.update(
                    i as int,
                    with_configs(old(self)@.userchromes[i as int], config_views(configs@)),
                ),
                ..old(self)@
            }),
    {
        let ghost before = self.userchromes@;
        let u = Userchrome {
            name: self.userchromes[i].name.clone(),
            source: self.userchromes[i].source.clone(),
            configs,
        };
        self.userchromes[i] = u;
        assert(theme_views(self.userchromes@) =~= theme_views(before).update(i as int, u@));
    }
}

/// Relies on `etcetera::choose_app_strategy` and `AppStrategy::config_dir`:
/// the platform's configuration directory for the application, `None` where
/// the home directory is unknown. It depends on the environment, so nothing
/// is stated of it.
#[verifier::external_body]
fn app_config_dir(top_level_domain: &str, author: &str, app_name: &str) -> (r: Option<String>) {
    etcetera::choose_app_strategy(
        etcetera::AppStrategyArgs {
            top_level_domain: top_level_domain.to_owned(),
            author: author.to_owned(),
            app_name: app_name.to_owned(),
        },
    ).ok().map(|s| s.config_dir().to_string_lossy().into_owned())
}

/// `dir` joined with the relative path `name`, as `Path::join` does on Unix.
pub open spec fn joined(dir: Seq<char>, name: Seq<char>) -> Seq<char> {
    if dir.len() == 0 {
        name
    } else if dir.last() == '/' {
        dir + name
    } else {
        dir + "/"@ + name
    }
}

/// The configuration file inside a configuration directory.
pub fn config_file_in(dir: &str) -> (r: String)
    ensures
        r@ == joined(dir@, "nyoom.toml"@),
{
    let n = dir.unicode_len();
    if n == 0 {
        String::from_str("nyoom.toml")
    } else if dir.get_char(n - 1) == '/' {
        String::from_str(dir).concat("nyoom.toml")
    } else {
        String::from_str(dir).concat("/").concat("nyoom.toml")
    }
}

/// The configuration file in the platform's configuration directory for the
/// application; `None` where that directory is unknown.
pub fn get_default_config_path() -> (r: Option<String>)
    ensures
        r matches Some(p) ==> exists|d: Seq<char>| p@ == joined(d, "nyoom.toml"@),
{
    match app_config_dir("dev.ryanccn", "Ryan Cao", "nyoom") {
        Some(d) => Some(config_file_in(d.as_str())),
        None => None,
    }
}

} // verus!
