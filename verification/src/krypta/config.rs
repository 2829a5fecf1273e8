use vstd::prelude::*;

verus! {

/// Krypta's own settings, kept in a TOML file in the working directory.
#[derive(Debug, Clone)]
pub struct Config {
    pub locked_path: Option<String>,
}

impl Default for Config {
    /// No setting made yet.
    fn default() -> (config: Self)
        ensures
            config.locked_path is None,
    {
        Config { locked_path: None }
    }
}

/// Where the settings are kept.
pub fn config_file_path() -> (path: String)
    ensures
        path@ == "./krypta.toml"@,
{
    "./krypta.toml".to_string()
}

/// The settings that `krypta config` reads and writes.
#[derive(Debug, Clone, Copy, PartialEq, Eq, Structural)]
pub enum ConfigKey {
    /// `locked`: the directory that holds the encrypted files.
    Locked,
}

/// Whether two texts are the same.
fn same_text(a: &str, b: &str) -> (r: bool)
    ensures
        r == (a@ == b@),
{
    let n = a.unicode_len();
    if n != b.unicode_len() {
        return false;
    }
    let mut i: usize = 0;
    while i < n
        invariant
            n == a@.len(),
            a@.len() == b@.len(),
            i <= n,
            forall|j: int| 0 <= j < i ==> a@[j] == b@[j],
        decreases n - i,
    {
        if a.get_char(i) != b.get_char(i) {
            return false;
        }
        i = i + 1;
    }
    proof {
        assert(a@ =~= b@);
    }
    true
}

/// The setting a key names; only `locked` names one.
pub fn parse_config_key(key: &str) -> (k: Option<ConfigKey>)
    ensures
        k is Some <==> key@ == "locked"@,
        k is Some ==> k == Some(ConfigKey::Locked),
{
    if same_text(key, "locked") {
        Some(ConfigKey::Locked)
    } else {
        None
    }
}

impl Config {
    /// The current value of a setting.
    pub fn value(&self, key: ConfigKey) -> (v: Option<String>)
        ensures
            v is Some <==> self.locked_path is Some,
            v is Some ==> v.unwrap()@ == self.locked_path.unwrap()@,
    {
        match key {
            ConfigKey::Locked => match &self.locked_path {
                Some(p) => Some(p.clone()),
                None => None,
            },
        }
    }

    /// Sets a setting to `value`.
    pub fn set_value(&mut self, key: ConfigKey, value: String)
        ensures
            final(self).locked_path == Some(value),
    {
        match key {
            ConfigKey::Locked => {
                self.locked_path = Some(value);
            },
        }
    }
}

} // verus!
