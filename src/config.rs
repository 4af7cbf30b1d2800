//! The agent's settings and the choices offered when they are first made.
use vstd::prelude::*;
use crate::pipeline::DEFAULT_PAIR_WINDOW_SECS;
use crate::text::str_eq;

verus! {

/// The agent's settings.
#[derive(Debug)]
pub struct Config {
    /// The game's installation folder.
    pub wow_root: String,
    /// The branch inside it that is watched.
    pub wow_branch: String,
    /// Where deaths are uploaded to.
    pub api_url: String,
    /// Sent as a bearer token when not empty.
    pub api_token: String,
    /// Whether the agent starts with Windows.
    pub start_with_windows: bool,
    /// How far apart, in seconds, a death and its screenshot may be.
    pub pair_window_secs: i64,
    /// Whether the addon files are refreshed at start.
    pub update_addon_on_start: bool,
}

/// The upload address offered until one is configured.
pub open spec fn placeholder_url() -> Seq<char> {
    "https://your-server.example/upload"@
}

fn placeholder_url_text() -> (r: String)
    ensures
        r@ == placeholder_url(),
{
    "https://your-server.example/upload".to_owned()
}

impl Config {
    /// Settings from the answers of the first-run questions; the pairing
    /// window is the default one and the addon is refreshed at start.
    pub fn from_answers(
        wow_root: String,
        wow_branch: String,
        api_url: String,
        api_token: String,
        start_with_windows: bool,
    ) -> (r: Config)
        ensures
            r.wow_root == wow_root,
            r.wow_branch == wow_branch,
            r.api_url == api_url,
            r.api_token == api_token,
            r.start_with_windows == start_with_windows,
            r.pair_window_secs == DEFAULT_PAIR_WINDOW_SECS,
            r.update_addon_on_start,
    {
        Config {
            wow_root,
            wow_branch,
            api_url,
            api_token,
            start_with_windows,
            pair_window_secs: DEFAULT_PAIR_WINDOW_SECS,
            update_addon_on_start: true,
        }
    }
}

impl Default for Config {
    /// No installation, the retail branch, the placeholder address, no token,
    /// no start with Windows, the default pairing window, addon refresh on.
    fn default() -> (r: Config)
        ensures
            r.wow_root@ == Seq::<char>::empty(),
            r.wow_branch@ == "_retail_"@,
            r.api_url@ == placeholder_url(),
            r.api_token@ == Seq::<char>::empty(),
            !r.start_with_windows,
            r.pair_window_secs == DEFAULT_PAIR_WINDOW_SECS,
            r.update_addon_on_start,
    {
        Config {
            wow_root: String::new(),
            wow_branch: "_retail_".to_owned(),
            api_url: placeholder_url_text(),
            api_token: String::new(),
            start_with_windows: false,
            pair_window_secs: DEFAULT_PAIR_WINDOW_SECS,
            update_addon_on_start: true,
        }
    }
}

/// The name of branch `i` of the game, in the order they are offered.
pub open spec fn branch_name(i: int) -> Seq<char> {
    if i == 0 {
        "_retail_"@
    } else if i == 1 {
        "_classic_"@
    } else if i == 2 {
        "_classic_era_"@
    } else {
        "_classic_ptr_"@
    }
}

fn branch_text(i: usize) -> (r: String)
    requires
        i < 4,
    ensures
        r@ == branch_name(i as int),
{
    if i == 0 {
        "_retail_".to_owned()
    } else if i == 1 {
        "_classic_".to_owned()
    } else if i == 2 {
        "_classic_era_".to_owned()
    } else {
        "_classic_ptr_".to_owned()
    }
}

/// The names of the first `n` branches whose flag in `present` is set.
pub open spec fn present_branches(present: Seq<bool>, n: int) -> Seq<Seq<char>>
    decreases n,
{
    if n <= 0 {
        Seq::empty()
    } else if present[n - 1] {
        present_branches(present, n - 1).push(branch_name(n - 1))
    } else {
        present_branches(present, n - 1)
    }
}

/// The branches offered for selection: those found in the installation
/// (`present[i]` for branch `i`), or all four when none was found.
pub open spec fn offered_branches(present: Seq<bool>) -> Seq<Seq<char>> {
    if present_branches(present, 4).len() > 0 {
        present_branches(present, 4)
    } else {
        present_branches(seq![true, true, true, true], 4)
    }
}

/// The texts of a list of strings.
pub open spec fn texts(v: Seq<String>) -> Seq<Seq<char>> {
    v.map_values(|s: String| s@)
}

fn push_present(present: &[bool; 4]) -> (r: Vec<String>)
    ensures
        texts(r@) == present_branches(present@, 4),
{
    let mut r: Vec<String> = Vec::new();
    let mut i: usize = 0;
    while i < 4
        invariant
            i <= 4,
            texts(r@) == present_branches(present@, i as int),
        decreases 4 - i,
    {
        if present[i] {
            let ghost before = r@;
            r.push(branch_text(i));
            assert(texts(r@) =~= texts(before).push(branch_name(i as int)));
        }
        i += 1;
    }
    r
}

/// The branches to offer, given which of the four were found.
pub fn branch_choices(present: &[bool; 4]) -> (r: Vec<String>)
    ensures
        texts(r@) == offered_branches(present@),
{
    let found = push_present(present);
    if found.len() > 0 {
        found
    } else {
        push_present(&[true, true, true, true])
    }
}

/// The usual installation folders, looked for first.
pub open spec fn usual_roots() -> Seq<Seq<char>> {
    seq![
        "C:\\Program Files (x86)\\World of Warcraft"@,
        "C:\\Program Files\\World of Warcraft"@,
        "D:\\World of Warcraft"@,
        "E:\\World of Warcraft"@,
    ]
}

/// The installation folders that are checked before searching the drives.
pub fn default_install_roots() -> (r: Vec<String>)
    ensures
        texts(r@) == usual_roots(),
{
    let mut r: Vec<String> = Vec::new();
    r.push("C:\\Program Files (x86)\\World of Warcraft".to_owned());
    r.push("C:\\Program Files\\World of Warcraft".to_owned());
    r.push("D:\\World of Warcraft".to_owned());
    r.push("E:\\World of Warcraft".to_owned());
    assert(texts(r@) =~= usual_roots());
    r
}

/// The glob patterns that find an installation anywhere on the drives.
pub open spec fn drive_patterns() -> Seq<Seq<char>> {
    seq![
        "C:\\**\\World of Warcraft"@,
        "D:\\**\\World of Warcraft"@,
        "E:\\**\\World of Warcraft"@,
        "F:\\**\\World of Warcraft"@,
    ]
}

/// The glob patterns searched for installations, one per drive.
pub fn drive_search_patterns() -> (r: Vec<String>)
    ensures
        texts(r@) == drive_patterns(),
{
    let mut r: Vec<String> = Vec::new();
    r.push("C:\\**\\World of Warcraft".to_owned());
    r.push("D:\\**\\World of Warcraft".to_owned());
    r.push("E:\\**\\World of Warcraft".to_owned());
    r.push("F:\\**\\World of Warcraft".to_owned());
    assert(texts(r@) =~= drive_patterns());
    r
}

/// `s` with every element after its first occurrence left out.
pub open spec fn first_occurrences(s: Seq<Seq<char>>) -> Seq<Seq<char>>
    decreases s.len(),
{
    if s.len() == 0 {
        s
    } else {
        let d = first_occurrences(s.drop_last());
        if d.contains(s.last()) {
            d
        } else {
            d.push(s.last())
        }
    }
}

fn contains_text(v: &Vec<String>, x: &str) -> (r: bool)
    ensures
        r == texts(v@).contains(x@),
{
    let mut i: usize = 0;
    while i < v.len()
        invariant
            i <= v@.len(),
            forall|j: int| 0 <= j < i ==> v@[j]@ != x@,
        decreases v@.len() - i,
    {
        if str_eq(v[i].as_str(), x) {
            assert(texts(v@)[i as int] == x@);
            return true;
        }
        i += 1;
    }
    assert(!texts(v@).contains(x@)) by {
        if texts(v@).contains(x@) {
            let j = choose|j: int| 0 <= j < texts(v@).len() && texts(v@)[j] == x@;
            assert(v@[j]@ == x@);
        }
    }
    false
}

/// The candidate installation folders with repeats left out, each kept where
/// it first appears.
pub fn dedup_candidates(cands: &Vec<String>) -> (r: Vec<String>)
    ensures
        texts(r@) == first_occurrences(texts(cands@)),
{
    let mut r: Vec<String> = Vec::new();
    let mut i: usize = 0;
    while i < cands.len()
        invariant
            i <= cands@.len(),
            texts(r@) == first_occurrences(texts(cands@).take(i as int)),
        decreases cands@.len() - i,
    {
        proof {
            assert(texts(cands@).take(i + 1).drop_last() =~= texts(cands@).take(i as int));
        }
        if !contains_text(&r, cands[i].as_str()) {
            let ghost before = r@;
            r.push(cands[i].clone());
            assert(texts(r@) =~= texts(before).push(cands@[i as int]@));
        }
        i += 1;
    }
    assert(texts(cands@).take(i as int) =~= texts(cands@));
    r
}

} // verus!
