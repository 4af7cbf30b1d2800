//! Locations of the game's folders and of the agent's own files, as text.
use vstd::prelude::*;

verus! {

/// The separator placed between two path parts.
pub open spec fn is_separator(c: char) -> bool {
    c == '/' || c == '\\'
}

/// `base` followed by `part`, with one separator between them.
pub open spec fn joined(base: Seq<char>, part: Seq<char>) -> Seq<char> {
    if base.len() == 0 {
        part
    } else if is_separator(base.last()) {
        base + part
    } else {
        base + seq!['/'] + part
    }
}

/// Appends `part` to the path `base`.
pub fn join_path(base: &str, part: &str) -> (r: String)
    ensures
        r@ == joined(base@, part@),
{
    let mut r = base.to_owned();
    let n = base.unicode_len();
    if n > 0 {
        let last = base.get_char(n - 1);
        if last != '/' && last != '\\' {
            r.push_str("/");
        }
    }
    r.push_str(part);
    proof {
        reveal_strlit("/");
    }
    r
}

/// The de-duplication key of a character: `player@realm`.
pub open spec fn key_of(player: Seq<char>, realm: Seq<char>) -> Seq<char> {
    player + seq!['@'] + realm
}

/// Builds the ledger key `player@realm`.
pub fn to_key(player: &str, realm: &str) -> (r: String)
    ensures
        r@ == key_of(player@, realm@),
{
    let mut r = player.to_owned();
    r.push_str("@");
    r.push_str(realm);
    proof {
        reveal_strlit("@");
    }
    r
}

/// The directory the agent keeps its files in, below the user's data
/// directory, or below `AppData/Roaming` in the home directory.
pub open spec fn config_dir_spec(data: Option<Seq<char>>, home: Option<Seq<char>>) -> Option<Seq<char>> {
    match (data, home) {
        (Some(d), _) => Some(joined(d, "DeathLoggerAgent"@)),
        (None, Some(h)) => Some(joined(joined(h, "AppData/Roaming"@), "DeathLoggerAgent"@)),
        (None, None) => None,
    }
}

/// Chooses the agent's directory from the user's data and home directories;
/// none when neither is known.
pub fn config_dir_from(data_dir: Option<&str>, home_dir: Option<&str>) -> (r: Option<String>)
    ensures
        match r {
            Some(s) => config_dir_spec(
                match data_dir {
                    Some(d) => Some(d@),
                    None => None,
                },
                match home_dir {
                    Some(h) => Some(h@),
                    None => None,
                },
            ) == Some(s@),
            None => data_dir is None && home_dir is None,
        },
{
    match data_dir {
        Some(d) => Some(join_path(d, "DeathLoggerAgent")),
        None => match home_dir {
            Some(h) => {
                let roaming = join_path(h, "AppData/Roaming");
                Some(join_path(roaming.as_str(), "DeathLoggerAgent"))
            },
            None => None,
        },
    }
}

/// The settings file inside the agent's directory.
pub fn config_path(config_dir: &str) -> (r: String)
    ensures
        r@ == joined(config_dir@, "config.toml"@),
{
    join_path(config_dir, "config.toml")
}

/// The delivery-state file inside the agent's directory.
pub fn state_path(config_dir: &str) -> (r: String)
    ensures
        r@ == joined(config_dir@, "state.json"@),
{
    join_path(config_dir, "state.json")
}

/// A game installation and the branch of it that is watched.
#[derive(Debug)]
pub struct WowPaths {
    /// The installation folder.
    pub root: String,
    /// One of `_retail_`, `_classic_`, `_classic_era_`, `_classic_ptr_`.
    pub branch: String,
}

impl WowPaths {
    pub open spec fn branch_root_spec(&self) -> Seq<char> {
        joined(self.root@, self.branch@)
    }

    /// The folder of the watched branch.
    pub fn branch_root(&self) -> (r: String)
        ensures
            r@ == self.branch_root_spec(),
    {
        join_path(self.root.as_str(), self.branch.as_str())
    }

    /// The folder addons are installed in.
    pub fn addons_dir(&self) -> (r: String)
        ensures
            r@ == joined(joined(self.branch_root_spec(), "Interface"@), "AddOns"@),
    {
        let b = self.branch_root();
        let i = join_path(b.as_str(), "Interface");
        join_path(i.as_str(), "AddOns")
    }

    /// The folder the addon itself is installed in.
    pub fn addon_install_dir(&self) -> (r: String)
        ensures
            r@ == joined(
                joined(joined(self.branch_root_spec(), "Interface"@), "AddOns"@),
                "DeathLogger"@,
            ),
    {
        let a = self.addons_dir();
        join_path(a.as_str(), "DeathLogger")
    }

    /// The folder the game writes screenshots to.
    pub fn screenshots_dir(&self) -> (r: String)
        ensures
            r@ == joined(self.branch_root_spec(), "Screenshots"@),
    {
        let b = self.branch_root();
        join_path(b.as_str(), "Screenshots")
    }

    /// The folder holding one folder per game account.
    pub fn wtf_account_dir(&self) -> (r: String)
        ensures
            r@ == joined(joined(self.branch_root_spec(), "WTF"@), "Account"@),
    {
        let b = self.branch_root();
        let w = join_path(b.as_str(), "WTF");
        join_path(w.as_str(), "Account")
    }

    /// The glob pattern matching the addon's saved-variables file of every
    /// account.
    pub fn wtf_savedvariables_glob(&self) -> (r: String)
        ensures
            r@ == joined(
                joined(
                    joined(joined(joined(self.branch_root_spec(), "WTF"@), "Account"@), "*"@),
                    "SavedVariables"@,
                ),
                "DeathLogger.lua"@,
            ),
    {
        let a = self.wtf_account_dir();
        let star = join_path(a.as_str(), "*");
        let sv = join_path(star.as_str(), "SavedVariables");
        join_path(sv.as_str(), "DeathLogger.lua")
    }
}

} // verus!
