use vstd::prelude::*;
use crate::clock::{current_time, local_midnight_after};
use crate::errors::Error;
use crate::locator::{GameLocator, LocatorView};
use crate::process_tree::{
    ProcessInfo, ProcessInfoView, ProcessTree, TreeView, as_index, find_from, lemma_find_from_bounds,
    same_identity, tree_wf, views,
};
use crate::session::{DailyGamingSession, SessionView, session_step};

verus! {

pub open spec fn locators(v: Seq<GameLocator>) -> Seq<LocatorView> {
    v.map_values(|g: GameLocator| g@)
}

/// The game names of all platforms, platform after platform.
pub open spec fn all_names(ps: Seq<LocatorView>) -> Seq<Seq<char>>
    decreases ps.len(),
{
    if ps.len() == 0 {
        Seq::empty()
    } else {
        ps[0].games + all_names(ps.drop_first())
    }
}

/// The first name of `names` found in the subtree of `root`, and where.
pub open spec fn first_hit(t: TreeView, root: int, names: Seq<Seq<char>>) -> Option<(Seq<char>, int)>
    decreases names.len(),
{
    if names.len() == 0 {
        None
    } else {
        match find_from(t, root, names[0], t.nodes.len() as nat) {
            Some(i) => Some((names[0], i)),
            None => first_hit(t, root, names.drop_first()),
        }
    }
}

/// The first game, in platform then name order, found in the subtree of
/// `root`, and the record where it was found.
pub fn find_game(tree: &ProcessTree, root: usize, games: &Vec<GameLocator>) -> (r: Option<(String, usize)>)
    requires
        tree.wf(),
        root < tree@.nodes.len(),
    ensures
        (match r {
            Some((name, i)) => first_hit(tree@, root as int, all_names(locators(games@))) == Some(
                (name@, i as int),
            ) && i < tree@.nodes.len(),
            None => first_hit(tree@, root as int, all_names(locators(games@))) is None,
        }),
{
    let ghost ps = locators(games@);
    let ghost t = tree@;
    let mut p: usize = 0;
    assert(ps.skip(0) =~= ps);
    while p < games.len()
        invariant
            p <= games@.len(),
            ps == locators(games@),
            t == tree@,
            tree.wf(),
            root < t.nodes.len(),
            first_hit(t, root as int, all_names(ps)) == first_hit(t, root as int, all_names(ps.skip(p as int))),
        decreases games@.len() - p,
    {
        let names = games[p].games();
        let ghost rest = all_names(ps.skip(p + 1));
        proof {
            assert(ps.skip(p as int).drop_first() =~= ps.skip(p + 1));
            assert(all_names(ps.skip(p as int)) == ps[p as int].games + rest);
            assert(names@.map_values(|s: String| s@).skip(0) + rest =~= ps[p as int].games + rest);
        }
        let mut k: usize = 0;
        while k < names.len()
            invariant
                k <= names@.len(),
                ps == locators(games@),
                t == tree@,
                tree.wf(),
                root < t.nodes.len(),
                first_hit(t, root as int, all_names(ps)) == first_hit(
                    t,
                    root as int,
                    names@.map_values(|s: String| s@).skip(k as int) + rest,
                ),
            decreases names@.len() - k,
        {
            let ghost cur = names@.map_values(|s: String| s@).skip(k as int) + rest;
            proof {
                assert(cur[0] == names@[k as int]@);
                assert(cur.drop_first() =~= names@.map_values(|s: String| s@).skip(k + 1) + rest);
            }
            match tree.find_from(root, names[k].as_str(), tree.len()) {
                Some(i) => {
                    proof {
                        lemma_find_from_bounds(t, root as int, names@[k as int]@, t.nodes.len() as nat);
                    }
                    return Some((names[k].clone(), i));
                },
                None => {},
            }
            k = k + 1;
        }
        proof {
            assert(names@.map_values(|s: String| s@).skip(k as int) + rest =~= rest);
        }
        p = p + 1;
    }
    proof {
        assert(all_names(ps.skip(p as int)) =~= Seq::<Seq<char>>::empty());
    }
    None
}

/// The first position at or after `k` of a record with the identity of `p`.
pub open spec fn identity_index(ps: Seq<ProcessInfoView>, p: ProcessInfoView, k: int) -> Option<int>
    decreases ps.len() - k,
{
    if !(0 <= k < ps.len()) {
        None
    } else if same_identity(ps[k], p) {
        Some(k)
    } else {
        identity_index(ps, p, k + 1)
    }
}

/// `ps` with `p` in the place of the record of the same identity, or with `p`
/// added where there is none.
pub open spec fn replace_or_push(ps: Seq<ProcessInfoView>, p: ProcessInfoView) -> Seq<ProcessInfoView> {
    match identity_index(ps, p, 0) {
        Some(k) => ps.update(k, p),
        None => ps.push(p),
    }
}

/// No two records of `ps` stand for the same logical process.
pub open spec fn identities_unique(ps: Seq<ProcessInfoView>) -> bool {
    forall|a: int, b: int| 0 <= a < b < ps.len() ==> !same_identity(#[trigger] ps[a], #[trigger] ps[b])
}

proof fn lemma_identity_index(ps: Seq<ProcessInfoView>, p: ProcessInfoView, k: int)
    requires
        0 <= k,
    ensures
        identity_index(ps, p, k) matches Some(j) ==> k <= j < ps.len() && same_identity(ps[j], p),
        identity_index(ps, p, k) is None ==> forall|j: int| k <= j < ps.len() ==> !same_identity(#[trigger] ps[j], p),
    decreases ps.len() - k,
{
    if 0 <= k < ps.len() && !same_identity(ps[k], p) {
        lemma_identity_index(ps, p, k + 1);
    }
}

/// Inserting a record whose identity is already in a set of records with
/// distinct identities replaces that record, and adds it otherwise: the set
/// then holds exactly one record of that identity, the new one, and its
/// identities stay distinct.
pub proof fn lemma_identity_replace(ps: Seq<ProcessInfoView>, p: ProcessInfoView)
    requires
        identities_unique(ps),
    ensures
        identities_unique(replace_or_push(ps, p)),
        exists|k: int|
            0 <= k < replace_or_push(ps, p).len() && #[trigger] replace_or_push(ps, p)[k] == p
                && forall|j: int|
                0 <= j < replace_or_push(ps, p).len() && j != k ==> !same_identity(
                    #[trigger] replace_or_push(ps, p)[j],
                    p,
                ),
        replace_or_push(ps, p).len() == ps.len() + (if identity_index(ps, p, 0) is Some {
            0int
        } else {
            1int
        }),
{
    lemma_identity_index(ps, p, 0);
    let r = replace_or_push(ps, p);
    match identity_index(ps, p, 0) {
        Some(k) => {
            assert forall|j: int| 0 <= j < r.len() && j != k implies !same_identity(#[trigger] r[j], p) by {
                if j < k {
                    assert(!same_identity(ps[j], ps[k]));
                } else {
                    assert(!same_identity(ps[k], ps[j]));
                }
            }
            assert(r[k] == p);
            assert forall|a: int, b: int| 0 <= a < b < r.len() implies !same_identity(#[trigger] r[a], #[trigger] r[b]) by {
                if a == k {
                    assert(!same_identity(ps[k], ps[b]));
                } else if b == k {
                    assert(!same_identity(ps[a], ps[k]));
                }
            }
        },
        None => {
            let k = ps.len() as int;
            assert(r[k] == p);
            assert forall|j: int| 0 <= j < r.len() && j != k implies !same_identity(#[trigger] r[j], p) by {
                assert(r[j] == ps[j]);
            }
        },
    }
}

/// What a game's entry holds: its name and the records of its processes.
pub type EntryView = (Seq<char>, Seq<ProcessInfoView>);

/// A game and the processes attributed to it, one per identity.
#[derive(Debug, Clone)]
pub struct GameTimeEntry {
    game: String,
    processes: Vec<ProcessInfo>,
}

impl View for GameTimeEntry {
    type V = EntryView;

    closed spec fn view(&self) -> EntryView {
        (self.game@, views(self.processes@))
    }
}

impl GameTimeEntry {
    pub fn game(&self) -> (r: &String)
        ensures
            r@ == self@.0,
    {
        &self.game
    }

    pub fn processes(&self) -> (r: &Vec<ProcessInfo>)
        ensures
            views(r@) == self@.1,
    {
        &self.processes
    }
}

pub open spec fn entries(v: Seq<GameTimeEntry>) -> Seq<EntryView> {
    v.map_values(|e: GameTimeEntry| e@)
}

/// The first position at or after `k` of the entry of game `g`.
pub open spec fn game_index(gs: Seq<EntryView>, g: Seq<char>, k: int) -> Option<int>
    decreases gs.len() - k,
{
    if !(0 <= k < gs.len()) {
        None
    } else if gs[k].0 == g {
        Some(k)
    } else {
        game_index(gs, g, k + 1)
    }
}

proof fn lemma_game_index(gs: Seq<EntryView>, g: Seq<char>, k: int)
    requires
        0 <= k,
    ensures
        game_index(gs, g, k) matches Some(j) ==> k <= j < gs.len() && gs[j].0 == g,
        game_index(gs, g, k) is None ==> forall|j: int| k <= j < gs.len() ==> #[trigger] gs[j].0 != g,
    decreases gs.len() - k,
{
    if 0 <= k < gs.len() && gs[k].0 != g {
        lemma_game_index(gs, g, k + 1);
    }
}

/// The table with `p` recorded for game `g`: in the game's entry, replacing
/// the record of the same identity, or in a new entry for the game.
pub open spec fn record_game(gs: Seq<EntryView>, g: Seq<char>, p: ProcessInfoView) -> Seq<EntryView> {
    match game_index(gs, g, 0) {
        Some(k) => gs.update(k, (g, replace_or_push(gs[k].1, p))),
        None => gs.push((g, seq![p])),
    }
}

/// Puts `p` in the place of the record of the same identity, or adds it.
fn insert_or_replace(ps: &mut Vec<ProcessInfo>, p: ProcessInfo)
    ensures
        views(final(ps)@) == replace_or_push(views(old(ps)@), p@),
{
    let ghost v0 = views(ps@);
    let mut k: usize = 0;
    while k < ps.len()
        invariant
            k <= ps@.len(),
            ps@ == old(ps)@,
            v0 == views(ps@),
            identity_index(v0, p@, 0) == identity_index(v0, p@, k as int),
        decreases ps@.len() - k,
    {
        if ps[k].same_identity(&p) {
            ps[k] = p;
            proof {
                assert(views(ps@) =~= v0.update(k as int, p@));
            }
            return;
        }
        k = k + 1;
    }
    ps.push(p);
    assert(views(ps@) =~= v0.push(p@));
}

/// Records `p` for game `g` (see `record_game`).
fn record_process(games: &mut Vec<GameTimeEntry>, g: String, p: ProcessInfo)
    ensures
        entries(final(games)@) == record_game(entries(old(games)@), g@, p@),
{
    let ghost e0 = entries(games@);
    let mut k: usize = 0;
    while k < games.len()
        invariant
            k <= games@.len(),
            games@ == old(games)@,
            e0 == entries(games@),
            game_index(e0, g@, 0) == game_index(e0, g@, k as int),
        decreases games@.len() - k,
    {
        if games[k].game == g {
            let mut entry = games.remove(k);
            insert_or_replace(&mut entry.processes, p);
            games.insert(k, entry);
            proof {
                assert(entries(games@) =~= e0.update(k as int, (g@, replace_or_push(e0[k as int].1, p@))));
            }
            return;
        }
        k = k + 1;
    }
    let mut ps: Vec<ProcessInfo> = Vec::new();
    ps.push(p);
    games.push(GameTimeEntry { game: g, processes: ps });
    proof {
        assert(views(ps@) =~= seq![p@]);
        assert(entries(games@) =~= e0.push((g@, seq![p@])));
    }
}

/// The run time of the records, summed.
pub open spec fn sum_runs(ps: Seq<ProcessInfoView>) -> nat
    decreases ps.len(),
{
    if ps.len() == 0 {
        0
    } else {
        sum_runs(ps.drop_last()) + ps.last().run_time as nat
    }
}

/// The run time of every record of every game, summed.
pub open spec fn total_of(gs: Seq<EntryView>) -> nat
    decreases gs.len(),
{
    if gs.len() == 0 {
        0
    } else {
        total_of(gs.drop_last()) + sum_runs(gs.last().1)
    }
}

pub open spec fn saturate(n: nat) -> u64 {
    if n > u64::MAX {
        u64::MAX
    } else {
        n as u64
    }
}

/// The positions of all `n` records, in order.
pub open spec fn positions(n: nat) -> Seq<usize> {
    Seq::new(n, |i: int| i as usize)
}

/// The table after matching the records at the positions in `roots`, in
/// order: for each, the first game found in its subtree is recorded with the
/// record where it was found.
pub open spec fn update_spec(gs: Seq<EntryView>, t: TreeView, roots: Seq<usize>, ps: Seq<LocatorView>) -> Seq<
    EntryView,
>
    decreases roots.len(),
{
    if roots.len() == 0 {
        gs
    } else {
        let g1 = match first_hit(t, roots[0] as int, all_names(ps)) {
            Some((name, i)) => record_game(gs, name, t.nodes[i]),
            None => gs,
        };
        update_spec(g1, t, roots.drop_first(), ps)
    }
}

/// What a tracker holds: the platforms, the latest process tree, the table
/// of games and their processes, and the optional daily session.
pub struct TrackerView {
    pub installed: Seq<LocatorView>,
    pub tree: TreeView,
    pub games: Seq<EntryView>,
    pub session: Option<SessionView>,
}

pub open spec fn session_view(s: Option<DailyGamingSession>) -> Option<SessionView> {
    match s {
        Some(x) => Some(x@),
        None => None,
    }
}

/// The tree is well formed, each game's records have distinct identities,
/// and a session's day ends after it started.
pub open spec fn tracker_wf(tv: TrackerView) -> bool {
    &&& tree_wf(tv.tree)
    &&& table_wf(tv.games)
    &&& (tv.session matches Some(sv) ==> sv.end_of_day > sv.start_time)
}

/// One tick of a tracker, from `before` to `after`, at the instant `now`
/// with the local midnight after it, on a snapshot of `processes`, with
/// outcome `r`: the tree is built from the snapshot; for every process in
/// order the first game found in its subtree is recorded; the session, if any,
/// takes a step with the total run time, or stays as it was where that step
/// fails with the error that comes back.
pub open spec fn refreshed(
    before: TrackerView,
    after: TrackerView,
    processes: Seq<ProcessInfoView>,
    now: i64,
    midnight: Option<i64>,
    r: Result<(), Error>,
) -> bool {
    &&& tree_wf(after.tree)
    &&& after.tree.nodes.to_multiset() == processes.to_multiset()
    &&& after.installed == before.installed
    &&& after.games == update_spec(
        before.games,
        after.tree,
        positions(after.tree.nodes.len()),
        before.installed,
    )
    &&& match before.session {
        None => r is Ok && after.session is None,
        Some(sv) => match session_step(sv, total_of(after.games), now, midnight) {
            Ok(next) => r is Ok && after.session == Some(next),
            Err(e) => r == Err::<(), Error>(e) && after.session == Some(sv),
        },
    }
}

/// Tracks the games found in successive process snapshots and the time
/// they ran, against an optional daily budget.
#[derive(Debug, Clone)]
pub struct GamingTracker {
    installed_games: Vec<GameLocator>,
    process_snapshots: ProcessTree,
    games: Vec<GameTimeEntry>,
    gaming_session: Option<DailyGamingSession>,
}

impl View for GamingTracker {
    type V = TrackerView;

    closed spec fn view(&self) -> TrackerView {
        TrackerView {
            installed: locators(self.installed_games@),
            tree: self.process_snapshots@,
            games: entries(self.games@),
            session: session_view(self.gaming_session),
        }
    }
}

/// A well-formed table: one entry per game, and each game's records have
/// distinct identities.
pub open spec fn table_wf(gs: Seq<EntryView>) -> bool {
    &&& forall|k: int| 0 <= k < gs.len() ==> identities_unique(#[trigger] gs[k].1)
    &&& forall|a: int, b: int| 0 <= a < b < gs.len() ==> #[trigger] gs[a].0 != #[trigger] gs[b].0
}

proof fn lemma_record_game_wf(gs: Seq<EntryView>, g: Seq<char>, p: ProcessInfoView)
    requires
        table_wf(gs),
    ensures
        table_wf(record_game(gs, g, p)),
{
    lemma_game_index(gs, g, 0);
    let r = record_game(gs, g, p);
    match game_index(gs, g, 0) {
        Some(k) => {
            assert(identities_unique(gs[k].1));
            lemma_identity_replace(gs[k].1, p);
            assert forall|j: int| 0 <= j < r.len() implies identities_unique(#[trigger] r[j].1) by {
                if j != k {
                    assert(r[j] == gs[j]);
                }
            }
        },
        None => {
            assert forall|j: int| 0 <= j < r.len() implies identities_unique(#[trigger] r[j].1) by {
                if j < gs.len() {
                    assert(r[j] == gs[j]);
                }
            }
        },
    }
}

/// The records of `ps` with the identity of `p` are exactly one, and it is
/// `p`.
pub open spec fn holds_only(ps: Seq<ProcessInfoView>, p: ProcessInfoView) -> bool {
    exists|k: int|
        0 <= k < ps.len() && #[trigger] ps[k] == p && forall|j: int|
            0 <= j < ps.len() && j != k ==> !same_identity(#[trigger] ps[j], p)
}

/// Recording a process for a game in a well-formed table leaves it well
/// formed, and the game's entry then holds exactly one record of that
/// process's identity: the new one.
pub proof fn lemma_record_game_replace(gs: Seq<EntryView>, g: Seq<char>, p: ProcessInfoView)
    requires
        table_wf(gs),
    ensures
        table_wf(record_game(gs, g, p)),
        exists|k: int|
            0 <= k < record_game(gs, g, p).len() && (#[trigger] record_game(gs, g, p)[k]).0 == g
                && holds_only(record_game(gs, g, p)[k].1, p),
{
    lemma_record_game_wf(gs, g, p);
    lemma_game_index(gs, g, 0);
    let r = record_game(gs, g, p);
    match game_index(gs, g, 0) {
        Some(k) => {
            assert(identities_unique(gs[k].1));
            lemma_identity_replace(gs[k].1, p);
            assert(r[k].0 == g && holds_only(r[k].1, p));
        },
        None => {
            let k = gs.len() as int;
            assert(r[k].1 == seq![p]);
            assert(r[k].1[0] == p);
            assert(r[k].0 == g && holds_only(r[k].1, p));
        },
    }
}

/// The table after recording the processes of `ps` for game `g`, in order.
pub open spec fn record_all(gs: Seq<EntryView>, g: Seq<char>, ps: Seq<ProcessInfoView>) -> Seq<EntryView>
    decreases ps.len(),
{
    if ps.len() == 0 {
        gs
    } else {
        record_game(record_all(gs, g, ps.drop_last()), g, ps.last())
    }
}

/// However many times processes are recorded for a game, the table stays
/// well formed, and the game's entry holds exactly one record of the last
/// recorded process's identity: the last one recorded, with its run time.
pub proof fn lemma_record_all(gs: Seq<EntryView>, g: Seq<char>, ps: Seq<ProcessInfoView>)
    requires
        table_wf(gs),
    ensures
        table_wf(record_all(gs, g, ps)),
        ps.len() > 0 ==> exists|k: int|
            0 <= k < record_all(gs, g, ps).len() && (#[trigger] record_all(gs, g, ps)[k]).0 == g
                && holds_only(record_all(gs, g, ps)[k].1, ps.last()),
    decreases ps.len(),
{
    if ps.len() > 0 {
        lemma_record_all(gs, g, ps.drop_last());
        lemma_record_game_replace(record_all(gs, g, ps.drop_last()), g, ps.last());
    }
}

/// The table has an entry for game `g` that holds exactly one record of the
/// identity of `p`: `p` itself.
pub open spec fn has_only(gs: Seq<EntryView>, g: Seq<char>, p: ProcessInfoView) -> bool {
    exists|k: int| 0 <= k < gs.len() && (#[trigger] gs[k]).0 == g && holds_only(gs[k].1, p)
}

proof fn lemma_record_other_game(gs: Seq<EntryView>, g: Seq<char>, p: ProcessInfoView, g2: Seq<char>, q: ProcessInfoView)
    requires
        has_only(gs, g, p),
        g2 != g,
    ensures
        has_only(record_game(gs, g2, q), g, p),
{
    lemma_game_index(gs, g2, 0);
    let k = choose|k: int| 0 <= k < gs.len() && (#[trigger] gs[k]).0 == g && holds_only(gs[k].1, p);
    let r = record_game(gs, g2, q);
    assert(r[k] == gs[k]);
}

/// Whether the match of the record at position `root` finds game `g`.
pub open spec fn hit_for(t: TreeView, root: usize, ps: Seq<LocatorView>, g: Seq<char>) -> bool {
    first_hit(t, root as int, all_names(ps)) matches Some(h) && h.0 == g
}

/// Identity replacement over a whole tick: where every match of game `g`
/// in the snapshot finds the same record `p`, and there is such a match (or
/// the table already held only `p` for `g`), the table afterwards has an
/// entry for `g` with exactly one record of `p`'s identity, `p` itself,
/// whatever the run time it held before.
pub proof fn lemma_update_single_record(
    gs: Seq<EntryView>,
    t: TreeView,
    roots: Seq<usize>,
    ps: Seq<LocatorView>,
    g: Seq<char>,
    p: ProcessInfoView,
)
    requires
        table_wf(gs),
        forall|k: int|
            0 <= k < roots.len() && #[trigger] hit_for(t, roots[k], ps, g) ==> t.nodes[first_hit(
                t,
                roots[k] as int,
                all_names(ps),
            ).unwrap().1] == p,
        has_only(gs, g, p) || exists|k: int| 0 <= k < roots.len() && #[trigger] hit_for(t, roots[k], ps, g),
    ensures
        has_only(update_spec(gs, t, roots, ps), g, p),
        table_wf(update_spec(gs, t, roots, ps)),
    decreases roots.len(),
{
    if roots.len() == 0 {
        if !has_only(gs, g, p) {
            let k = choose|k: int| 0 <= k < roots.len() && #[trigger] hit_for(t, roots[k], ps, g);
        }
    } else {
        let g1 = match first_hit(t, roots[0] as int, all_names(ps)) {
            Some((name, i)) => record_game(gs, name, t.nodes[i]),
            None => gs,
        };
        match first_hit(t, roots[0] as int, all_names(ps)) {
            Some((name, i)) => {
                lemma_record_game_replace(gs, name, t.nodes[i]);
                if name == g {
                    assert(hit_for(t, roots[0], ps, g));
                    assert(t.nodes[i] == p);
                } else if has_only(gs, g, p) {
                    lemma_record_other_game(gs, g, p, name, t.nodes[i]);
                }
            },
            None => {},
        }
        let rest = roots.drop_first();
        assert forall|k: int|
            0 <= k < rest.len() && #[trigger] hit_for(t, rest[k], ps, g) implies t.nodes[first_hit(
                t,
                rest[k] as int,
                all_names(ps),
            ).unwrap().1] == p by {
            assert(rest[k] == roots[k + 1]);
            assert(hit_for(t, roots[k + 1], ps, g));
        }
        if !has_only(g1, g, p) {
            let k = choose|k: int| 0 <= k < roots.len() && #[trigger] hit_for(t, roots[k], ps, g);
            assert(k != 0);
            assert(rest[k - 1] == roots[k]);
            assert(hit_for(t, rest[k - 1], ps, g));
        }
        lemma_update_single_record(g1, t, rest, ps, g, p);
    }
}

impl GamingTracker {
    /// The tree is well formed, each game's records have distinct
    /// identities, and a session's day ends after it started.
    pub open spec fn wf(&self) -> bool {
        tracker_wf(self@)
    }

    /// A tracker of the given platforms, with nothing found yet and no
    /// session.
    pub fn new(installed_games: Vec<GameLocator>) -> (r: GamingTracker)
        ensures
            r.wf(),
            r@.installed == locators(installed_games@),
            r@.tree.nodes.len() == 0,
            r@.games.len() == 0,
            r@.session is None,
    {
        let r = GamingTracker {
            installed_games,
            process_snapshots: ProcessTree::new(),
            games: Vec::new(),
            gaming_session: None,
        };
        assert(r@.games =~= Seq::<EntryView>::empty());
        r
    }

    /// Sets the daily session.
    pub fn add_gaming_session(&mut self, gaming_session: DailyGamingSession)
        requires
            old(self).wf(),
            gaming_session.wf(),
        ensures
            final(self).wf(),
            final(self)@ == (TrackerView { session: Some(gaming_session@), ..old(self)@ }),
    {
        self.gaming_session = Some(gaming_session);
    }

    /// The games found so far, each with its processes.
    pub fn gametime_tracker(&self) -> (r: &Vec<GameTimeEntry>)
        ensures
            entries(r@) == self@.games,
    {
        &self.games
    }

    pub fn installed_games(&self) -> (r: &Vec<GameLocator>)
        ensures
            locators(r@) == self@.installed,
    {
        &self.installed_games
    }

    /// The process tree of the latest snapshot.
    pub fn process_tree(&self) -> (r: &ProcessTree)
        ensures
            r@ == self@.tree,
    {
        &self.process_snapshots
    }

    pub fn session(&self) -> (r: Option<&DailyGamingSession>)
        ensures
            (match r {
                Some(s) => self@.session == Some(s@),
                None => self@.session is None,
            }),
    {
        match &self.gaming_session {
            Some(s) => Some(s),
            None => None,
        }
    }

    /// The run time of every tracked process, summed (at most `u64::MAX`).
    pub fn total_time_played(&self) -> (r: u64)
        ensures
            r == saturate(total_of(self@.games)),
    {
        let ghost gs = entries(self.games@);
        let mut acc: u64 = 0;
        let mut k: usize = 0;
        assert(gs.subrange(0, 0) =~= Seq::<EntryView>::empty());
        while k < self.games.len()
            invariant
                k <= self.games@.len(),
                gs == entries(self.games@),
                acc == saturate(total_of(gs.subrange(0, k as int))),
            decreases self.games@.len() - k,
        {
            let ps = &self.games[k].processes;
            let ghost base = total_of(gs.subrange(0, k as int));
            let ghost pv = views(ps@);
            let mut j: usize = 0;
            assert(pv.subrange(0, 0) =~= Seq::<ProcessInfoView>::empty());
            while j < ps.len()
                invariant
                    j <= ps@.len(),
                    pv == views(ps@),
                    acc == saturate(base + sum_runs(pv.subrange(0, j as int))),
                decreases ps@.len() - j,
            {
                let x = ps[j].run_time();
                proof {
                    assert(pv.subrange(0, j + 1).drop_last() =~= pv.subrange(0, j as int));
                }
                if acc > u64::MAX - x {
                    acc = u64::MAX;
                } else {
                    acc = acc + x;
                }
                j = j + 1;
            }
            proof {
                assert(pv.subrange(0, j as int) =~= pv);
                assert(gs.subrange(0, k + 1).drop_last() =~= gs.subrange(0, k as int));
                assert(gs[k as int].1 == pv);
            }
            k = k + 1;
        }
        assert(gs.subrange(0, k as int) =~= gs);
        acc
    }

    /// Records, for every process of the current tree in order, the first
    /// game found in its subtree.
    fn update_running_games(&mut self)
        requires
            old(self).wf(),
        ensures
            final(self).wf(),
            final(self)@ == (TrackerView {
                games: update_spec(
                    old(self)@.games,
                    old(self)@.tree,
                    positions(old(self)@.tree.nodes.len()),
                    old(self)@.installed,
                ),
                ..old(self)@
            }),
    {
        let ghost g0 = self@.games;
        let ghost t = self@.tree;
        let ghost ps = self@.installed;
        let ghost all = positions(t.nodes.len());
        let mut k: usize = 0;
        assert(all.skip(0) =~= all);
        while k < self.process_snapshots.len()
            invariant
                self.wf(),
                t == self@.tree,
                ps == self@.installed,
                all == positions(t.nodes.len()),
                self@.session == old(self)@.session,
                k <= t.nodes.len(),
                update_spec(g0, t, all, ps) == update_spec(self@.games, t, all.skip(k as int), ps),
            decreases t.nodes.len() - k,
        {
            let ghost before = self@.games;
            proof {
                assert(all.skip(k as int)[0] == k);
                assert(all.skip(k as int).drop_first() =~= all.skip(k + 1));
            }
            match find_game(&self.process_snapshots, k, &self.installed_games) {
                Some((name, i)) => {
                    let p = self.process_snapshots.node(i).duplicate();
                    record_process(&mut self.games, name, p);
                    proof {
                        lemma_record_game_wf(before, name@, p@);
                    }
                },
                None => {},
            }
            k = k + 1;
        }
        assert(all.skip(k as int) =~= Seq::<usize>::empty());
    }

    /// One tick at the instant `now`, given the processes of a fresh snapshot
    /// and the local midnight after `now`: the tree is rebuilt from the
    /// snapshot, the games found are recorded, and the session, if any, takes
    /// a step (see `session_step`) with the total run time. Where the session
    /// cannot start a new day, the error comes back and the session is left
    /// as it was.
    pub fn refresh_at(&mut self, processes: Vec<ProcessInfo>, now: i64, midnight: Option<i64>) -> (r: Result<(), Error>)
        requires
            old(self).wf(),
        ensures
            final(self).wf(),
            refreshed(old(self)@, final(self)@, views(processes@), now, midnight, r),
    {
        self.process_snapshots = ProcessTree::from(processes);
        self.update_running_games();
        let played = self.total_time_played();
        let ghost total = total_of(self@.games);
        match &mut self.gaming_session {
            Some(s) => {
                let ghost sv = s@;
                let r = s.step(played, now, midnight);
                proof {
                    assert(session_step(sv, played as nat, now, midnight) == session_step(sv, total, now, midnight));
                }
                r
            },
            None => Ok(()),
        }
    }

    /// One tick now (see `refresh_at`), with the system clock and the local
    /// midnight after it: whatever they read, the tick is one of `refreshed`
    /// for some reading, and the only error is `CalculateEndOfDayError`.
    pub fn refresh(&mut self, processes: Vec<ProcessInfo>) -> (r: Result<(), Error>)
        requires
            old(self).wf(),
        ensures
            final(self).wf(),
            exists|now: i64, midnight: Option<i64>|
                refreshed(old(self)@, final(self)@, views(processes@), now, midnight, r),
            r is Err ==> r == Err::<(), Error>(Error::CalculateEndOfDayError),
    {
        let ghost pv = views(processes@);
        let now = current_time();
        let midnight = local_midnight_after(now);
        let r = self.refresh_at(processes, now, midnight);
        assert(refreshed(old(self)@, self@, pv, now, midnight, r));
        r
    }
}

} // verus!
