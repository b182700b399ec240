use vstd::prelude::*;
use crate::text::{seq_starts_with, str_starts_with};

verus! {

/// Which directory entries count as games.
#[derive(Debug, Clone, Copy, PartialEq, Eq, Structural)]
pub enum ExpectedEntityType {
    EXECUTABLE,
    DIRECTORY,
    BOTH,
}

impl Default for ExpectedEntityType {
    fn default() -> (r: ExpectedEntityType)
        ensures
            r == ExpectedEntityType::BOTH,
    {
        ExpectedEntityType::BOTH
    }
}

/// Whether an entry that is a file (`is_file`) or a directory (`is_dir`)
/// is of the kind `kind`.
pub open spec fn kind_matches(kind: ExpectedEntityType, is_file: bool, is_dir: bool) -> bool {
    match kind {
        ExpectedEntityType::EXECUTABLE => is_file,
        ExpectedEntityType::DIRECTORY => is_dir,
        ExpectedEntityType::BOTH => is_file || is_dir,
    }
}

impl ExpectedEntityType {
    pub fn matches(&self, is_file: bool, is_dir: bool) -> (r: bool)
        ensures
            r == kind_matches(*self, is_file, is_dir),
    {
        match self {
            ExpectedEntityType::EXECUTABLE => is_file,
            ExpectedEntityType::DIRECTORY => is_dir,
            ExpectedEntityType::BOTH => is_file || is_dir,
        }
    }
}

/// One entry of a searched directory: its name and what it is.
#[derive(Debug, Clone)]
pub struct LocationEntry {
    pub name: String,
    pub is_file: bool,
    pub is_dir: bool,
}

pub open spec fn strings(v: Seq<String>) -> Seq<Seq<char>> {
    v.map_values(|s: String| s@)
}

/// Whether `name` starts with one of the prefixes in `ignore`.
pub open spec fn ignored(name: Seq<char>, ignore: Seq<Seq<char>>) -> bool {
    exists|k: int| 0 <= k < ignore.len() && seq_starts_with(name, #[trigger] ignore[k])
}

/// Whether `name` starts with one of the prefixes in `ignore`.
pub fn should_be_ignored(name: &String, ignore: &Vec<String>) -> (r: bool)
    ensures
        r == ignored(name@, strings(ignore@)),
{
    let mut k: usize = 0;
    while k < ignore.len()
        invariant
            k <= ignore@.len(),
            forall|j: int| 0 <= j < k ==> !seq_starts_with(name@, #[trigger] strings(ignore@)[j]),
        decreases ignore@.len() - k,
    {
        if str_starts_with(name.as_str(), ignore[k].as_str()) {
            assert(strings(ignore@)[k as int] == ignore@[k as int]@);
            return true;
        }
        k = k + 1;
    }
    false
}

/// The names of the entries that are of the kind `kind` and not ignored, in
/// order.
pub open spec fn kept_names(
    entries: Seq<LocationEntry>,
    kind: ExpectedEntityType,
    ignore: Seq<Seq<char>>,
) -> Seq<Seq<char>>
    decreases entries.len(),
{
    if entries.len() == 0 {
        Seq::empty()
    } else {
        let rest = kept_names(entries.drop_last(), kind, ignore);
        let e = entries.last();
        if kind_matches(kind, e.is_file, e.is_dir) && !ignored(e.name@, ignore) {
            rest.push(e.name@)
        } else {
            rest
        }
    }
}

/// What a platform's locator holds.
pub struct LocatorView {
    pub name: Seq<char>,
    pub games: Seq<Seq<char>>,
    pub home_paths: Seq<Seq<char>>,
    pub absolute_paths: Seq<Seq<char>>,
    pub search_entity_type: ExpectedEntityType,
    pub ignore: Seq<Seq<char>>,
}

/// One monitored platform: where to look for its games, which entries count,
/// which to ignore, and the game names found there.
#[derive(Debug, Clone)]
pub struct GameLocator {
    name: String,
    games: Vec<String>,
    home_paths: Vec<String>,
    absolute_paths: Vec<String>,
    search_entity_type: ExpectedEntityType,
    ignore: Vec<String>,
}

impl View for GameLocator {
    type V = LocatorView;

    closed spec fn view(&self) -> LocatorView {
        LocatorView {
            name: self.name@,
            games: strings(self.games@),
            home_paths: strings(self.home_paths@),
            absolute_paths: strings(self.absolute_paths@),
            search_entity_type: self.search_entity_type,
            ignore: strings(self.ignore@),
        }
    }
}

impl GameLocator {
    /// A platform with no game found yet.
    pub fn new(
        name: String,
        home_paths: Vec<String>,
        absolute_paths: Vec<String>,
        search_entity_type: ExpectedEntityType,
        ignore: Vec<String>,
    ) -> (r: GameLocator)
        ensures
            r@ == (LocatorView {
                name: name@,
                games: Seq::empty(),
                home_paths: strings(home_paths@),
                absolute_paths: strings(absolute_paths@),
                search_entity_type,
                ignore: strings(ignore@),
            }),
    {
        let r = GameLocator {
            name,
            games: Vec::new(),
            home_paths,
            absolute_paths,
            search_entity_type,
            ignore,
        };
        assert(r@.games =~= Seq::<Seq<char>>::empty());
        r
    }

    pub fn name(&self) -> (r: &String)
        ensures
            r@ == self@.name,
    {
        &self.name
    }

    pub fn games(&self) -> (r: &Vec<String>)
        ensures
            strings(r@) == self@.games,
    {
        &self.games
    }

    pub fn home_paths(&self) -> (r: &Vec<String>)
        ensures
            strings(r@) == self@.home_paths,
    {
        &self.home_paths
    }

    pub fn absolute_paths(&self) -> (r: &Vec<String>)
        ensures
            strings(r@) == self@.absolute_paths,
    {
        &self.absolute_paths
    }

    pub fn search_entity_type(&self) -> (r: ExpectedEntityType)
        ensures
            r == self@.search_entity_type,
    {
        self.search_entity_type
    }

    pub fn ignore(&self) -> (r: &Vec<String>)
        ensures
            strings(r@) == self@.ignore,
    {
        &self.ignore
    }

    /// Adds the names of the entries of one searched directory that are of
    /// the platform's kind and not ignored, in order.
    pub fn load_game_names_from_entries(&mut self, entries: &Vec<LocationEntry>)
        ensures
            final(self)@ == (LocatorView {
                games: old(self)@.games + kept_names(entries@, old(self)@.search_entity_type, old(self)@.ignore),
                ..old(self)@
            }),
    {
        let ghost g0 = self@.games;
        let mut i: usize = 0;
        assert(entries@.subrange(0, 0) =~= Seq::<LocationEntry>::empty());
        assert(g0 + Seq::<Seq<char>>::empty() =~= g0);
        while i < entries.len()
            invariant
                i <= entries@.len(),
                self@ == (LocatorView { games: self@.games, ..old(self)@ }),
                self@.games == g0 + kept_names(
                    entries@.subrange(0, i as int),
                    old(self)@.search_entity_type,
                    old(self)@.ignore,
                ),
            decreases entries@.len() - i,
        {
            let e = &entries[i];
            proof {
                assert(entries@.subrange(0, i + 1).drop_last() =~= entries@.subrange(0, i as int));
            }
            if self.search_entity_type.matches(e.is_file, e.is_dir) && !should_be_ignored(&e.name, &self.ignore) {
                let ghost before = self@.games;
                self.games.push(e.name.clone());
                proof {
                    assert(self@.games =~= before.push(e.name@));
                }
            }
            i = i + 1;
        }
        assert(entries@.subrange(0, i as int) =~= entries@);
    }
}

} // verus!
