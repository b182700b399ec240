use vstd::prelude::*;
use vstd::multiset::Multiset;
use crate::text::{decimal, push_text, seq_contains, str_contains, u64_text};

verus! {

broadcast use vstd::seq_lib::group_to_multiset_ensures;

/// What a process record holds.
pub struct ProcessInfoView {
    pub pid: u32,
    pub parent: Option<u32>,
    pub name: Seq<char>,
    pub cmd: Seq<Seq<char>>,
    pub run_time: u64,
    pub start_time: u64,
}

/// The tokens of a command line joined by single spaces.
pub open spec fn joined(cmd: Seq<Seq<char>>) -> Seq<char>
    decreases cmd.len(),
{
    if cmd.len() == 0 {
        Seq::empty()
    } else if cmd.len() == 1 {
        cmd[0]
    } else {
        joined(cmd.drop_last()) + " "@ + cmd.last()
    }
}

/// Two records stand for the same logical process: equal process id, name
/// and command line (run time and start time aside).
pub open spec fn same_identity(a: ProcessInfoView, b: ProcessInfoView) -> bool {
    a.pid == b.pid && a.name == b.name && a.cmd == b.cmd
}

/// A record matches a search string when its name or its joined command
/// line contains it.
pub open spec fn record_matches(p: ProcessInfoView, s: Seq<char>) -> bool {
    seq_contains(p.name, s) || seq_contains(joined(p.cmd), s)
}

/// One process as captured at one instant: its id, its parent's id, its
/// name, its command line, how long it has run and when it started (both in
/// seconds).
#[derive(Debug, Clone)]
pub struct ProcessInfo {
    pid: u32,
    parent: Option<u32>,
    name: String,
    cmd: Vec<String>,
    run_time: u64,
    start_time: u64,
}

impl View for ProcessInfo {
    type V = ProcessInfoView;

    closed spec fn view(&self) -> ProcessInfoView {
        ProcessInfoView {
            pid: self.pid,
            parent: self.parent,
            name: self.name@,
            cmd: self.cmd@.map_values(|s: String| s@),
            run_time: self.run_time,
            start_time: self.start_time,
        }
    }
}

/// A copy of a list of strings.
fn copy_strings(v: &Vec<String>) -> (r: Vec<String>)
    ensures
        r@.map_values(|s: String| s@) == v@.map_values(|s: String| s@),
{
    let mut r: Vec<String> = Vec::new();
    let mut i: usize = 0;
    while i < v.len()
        invariant
            i <= v@.len(),
            r@.len() == i,
            forall|k: int| 0 <= k < i ==> #[trigger] r@[k]@ == v@[k]@,
        decreases v@.len() - i,
    {
        r.push(v[i].clone());
        i = i + 1;
    }
    assert(r@.map_values(|s: String| s@) =~= v@.map_values(|s: String| s@));
    r
}

impl ProcessInfo {
    pub fn new(
        pid: u32,
        parent: Option<u32>,
        name: String,
        cmd: Vec<String>,
        run_time: u64,
        start_time: u64,
    ) -> (r: ProcessInfo)
        ensures
            r@ == (ProcessInfoView {
                pid,
                parent,
                name: name@,
                cmd: cmd@.map_values(|s: String| s@),
                run_time,
                start_time,
            }),
    {
        ProcessInfo { pid, parent, name, cmd, run_time, start_time }
    }

    /// A record equal to this one.
    pub fn duplicate(&self) -> (r: ProcessInfo)
        ensures
            r@ == self@,
    {
        ProcessInfo {
            pid: self.pid,
            parent: self.parent,
            name: self.name.clone(),
            cmd: copy_strings(&self.cmd),
            run_time: self.run_time,
            start_time: self.start_time,
        }
    }

    /// The command line, its tokens joined by single spaces.
    pub fn cmd(&self) -> (r: String)
        ensures
            r@ == joined(self@.cmd),
    {
        let ghost c = self@.cmd;
        let mut r = String::new();
        if self.cmd.len() == 0 {
            return r;
        }
        push_text(&mut r, self.cmd[0].as_str());
        assert(c.subrange(0, 1) =~= seq![c[0]]);
        let mut i: usize = 1;
        while i < self.cmd.len()
            invariant
                1 <= i <= self.cmd@.len(),
                c == self@.cmd,
                c.len() == self.cmd@.len(),
                r@ == joined(c.subrange(0, i as int)),
            decreases self.cmd@.len() - i,
        {
            push_text(&mut r, " ");
            push_text(&mut r, self.cmd[i].as_str());
            assert(c.subrange(0, i + 1).drop_last() =~= c.subrange(0, i as int));
            i = i + 1;
        }
        assert(c.subrange(0, i as int) =~= c);
        r
    }

    pub fn run_time(&self) -> (r: u64)
        ensures
            r == self@.run_time,
    {
        self.run_time
    }

    pub fn pid(&self) -> (r: u32)
        ensures
            r == self@.pid,
    {
        self.pid
    }

    pub fn parent(&self) -> (r: Option<u32>)
        ensures
            r == self@.parent,
    {
        self.parent
    }

    pub fn name(&self) -> (r: &str)
        ensures
            r@ == self@.name,
    {
        self.name.as_str()
    }

    pub fn start_time(&self) -> (r: u64)
        ensures
            r == self@.start_time,
    {
        self.start_time
    }

    /// Whether the joined command line contains `s`.
    pub fn cmd_contains(&self, s: &str) -> (r: bool)
        ensures
            r == seq_contains(joined(self@.cmd), s@),
    {
        str_contains(self.cmd().as_str(), s)
    }

    /// Whether the name or the joined command line contains `s`.
    pub fn matches(&self, s: &str) -> (r: bool)
        ensures
            r == record_matches(self@, s@),
    {
        self.cmd_contains(s) || str_contains(self.name.as_str(), s)
    }

    /// Whether `other` stands for the same logical process.
    pub fn same_identity(&self, other: &ProcessInfo) -> (r: bool)
        ensures
            r == same_identity(self@, other@),
    {
        if self.pid != other.pid || self.name != other.name || self.cmd.len() != other.cmd.len() {
            proof {
                if self.cmd.len() != other.cmd.len() {
                    assert(self@.cmd.len() != other@.cmd.len());
                }
            }
            return false;
        }
        let mut i: usize = 0;
        while i < self.cmd.len()
            invariant
                i <= self.cmd@.len(),
                self.cmd@.len() == other.cmd@.len(),
                forall|k: int| 0 <= k < i ==> #[trigger] self.cmd@[k]@ == other.cmd@[k]@,
            decreases self.cmd@.len() - i,
        {
            if self.cmd[i] != other.cmd[i] {
                assert(self@.cmd[i as int] != other@.cmd[i as int]);
                return false;
            }
            i = i + 1;
        }
        assert(self@.cmd =~= other@.cmd);
        true
    }
}

/// The id of the system's init process: a parent of that id counts as none.
pub const INIT_PID: u32 = 1;

pub open spec fn views(s: Seq<ProcessInfo>) -> Seq<ProcessInfoView> {
    s.map_values(|p: ProcessInfo| p@)
}

pub open spec fn sorted_by_pid(s: Seq<ProcessInfoView>) -> bool {
    forall|a: int, b: int| 0 <= a < b < s.len() ==> s[a].pid <= s[b].pid
}

/// The first position at or after `k` whose record has process id `pid`.
pub open spec fn pid_index_from(ns: Seq<ProcessInfoView>, pid: u32, k: int) -> Option<int>
    decreases ns.len() - k,
{
    if !(0 <= k < ns.len()) {
        None
    } else if ns[k].pid == pid {
        Some(k)
    } else {
        pid_index_from(ns, pid, k + 1)
    }
}

/// The position of the parent that record `i` names, where it is present
/// and is not the init process.
pub open spec fn raw_parent(ns: Seq<ProcessInfoView>, i: int) -> Option<int> {
    match ns[i].parent {
        Some(pp) => if pp == INIT_PID {
            None
        } else {
            pid_index_from(ns, pp, 0)
        },
        None => None,
    }
}

/// Following the parents from `cur`, the record `target` comes up within
/// `fuel` further steps.
pub open spec fn returns_to(ns: Seq<ProcessInfoView>, target: int, cur: int, fuel: nat) -> bool
    decreases fuel,
{
    match raw_parent(ns, cur) {
        None => false,
        Some(j) => j == target || (fuel > 0 && returns_to(ns, target, j, (fuel - 1) as nat)),
    }
}

/// Record `i` lies on a cycle of parents: following its parents leads back
/// to it. A cycle has at most as many records as the snapshot.
pub open spec fn on_cycle(ns: Seq<ProcessInfoView>, i: int) -> bool {
    returns_to(ns, i, i, ns.len() as nat)
}

/// The parent of record `i` in the tree: the parent it names, unless it
/// lies on a cycle of parents, in which case it is a root.
pub open spec fn tree_parent(ns: Seq<ProcessInfoView>, i: int) -> Option<int> {
    if on_cycle(ns, i) {
        None
    } else {
        raw_parent(ns, i)
    }
}

pub open spec fn strictly_increasing(s: Seq<usize>) -> bool {
    forall|a: int, b: int| 0 <= a < b < s.len() ==> s[a] < s[b]
}

pub open spec fn as_index(o: Option<usize>) -> Option<int> {
    match o {
        Some(j) => Some(j as int),
        None => None,
    }
}

/// What a process tree holds: the records in order of process id, for each
/// record the positions of its children, and the positions of the roots.
pub struct TreeView {
    pub nodes: Seq<ProcessInfoView>,
    pub children: Seq<Seq<usize>>,
    pub roots: Seq<usize>,
}

/// A well-formed tree: records sorted by process id; each child list holds,
/// in increasing order, exactly the records whose tree parent is that
/// record; the root list holds, in increasing order, exactly the records
/// with no tree parent.
pub open spec fn tree_wf(t: TreeView) -> bool {
    &&& sorted_by_pid(t.nodes)
    &&& t.children.len() == t.nodes.len()
    &&& forall|j: int|
        0 <= j < t.nodes.len() ==> #[trigger] strictly_increasing(t.children[j]) && forall|c: usize|
            #[trigger] t.children[j].contains(c) <==> (c < t.nodes.len() && tree_parent(
                t.nodes,
                c as int,
            ) == Some(j))
    &&& strictly_increasing(t.roots)
    &&& forall|c: usize|
        #[trigger] t.roots.contains(c) <==> (c < t.nodes.len() && tree_parent(t.nodes, c as int)
            is None)
}

/// The processes of one snapshot, as a forest: each process hangs under its
/// parent; a process whose parent is absent or is the init process, or that
/// lies on a cycle of parents, is a root.
#[derive(Debug, Clone)]
pub struct ProcessTree {
    nodes: Vec<ProcessInfo>,
    children: Vec<Vec<usize>>,
    roots: Vec<usize>,
}

impl View for ProcessTree {
    type V = TreeView;

    closed spec fn view(&self) -> TreeView {
        TreeView {
            nodes: views(self.nodes@),
            children: self.children@.map_values(|c: Vec<usize>| c@),
            roots: self.roots@,
        }
    }
}

/// The records ordered by process id.
fn sort_by_pid(input: Vec<ProcessInfo>) -> (r: Vec<ProcessInfo>)
    ensures
        sorted_by_pid(views(r@)),
        views(r@).to_multiset() == views(input@).to_multiset(),
{
    let ghost orig = views(input@);
    let mut rem = input;
    let mut out: Vec<ProcessInfo> = Vec::new();
    assert(views(out@).to_multiset() =~= Multiset::empty());
    assert(views(out@).to_multiset().add(views(rem@).to_multiset()) =~= orig.to_multiset());
    while rem.len() > 0
        invariant
            sorted_by_pid(views(out@)),
            views(out@).to_multiset().add(views(rem@).to_multiset()) == orig.to_multiset(),
        decreases rem@.len(),
    {
        let ghost old_rem = rem@;
        let ghost old_out = out@;
        let x = match rem.pop() {
            Some(x) => x,
            None => {
                return out;
            },
        };
        let mut pos: usize = 0;
        while pos < out.len() && out[pos].pid <= x.pid
            invariant
                pos <= out@.len(),
                out@ == old_out,
                forall|k: int| 0 <= k < pos ==> #[trigger] out@[k]@.pid <= x@.pid,
            decreases out@.len() - pos,
        {
            pos = pos + 1;
        }
        out.insert(pos, x);
        proof {
            let ov = views(old_out);
            ov.insert_ensures(pos as int, x@);
            assert(views(out@) =~= ov.insert(pos as int, x@));
            assert(views(old_rem) =~= views(rem@).push(x@));
            let nv = views(out@);
            assert forall|a: int, b: int| 0 <= a < b < nv.len() implies nv[a].pid <= nv[b].pid by {
                if pos < old_out.len() {
                    assert(ov[pos as int].pid > x@.pid);
                }
                if a < pos && b > pos {
                    assert(nv[b] == ov[b - 1]);
                } else if a == pos && b > pos {
                    assert(nv[b] == ov[b - 1]);
                    assert(ov[pos as int].pid <= ov[b - 1].pid);
                } else if a > pos {
                    assert(nv[a] == ov[a - 1]);
                    assert(nv[b] == ov[b - 1]);
                } else if b < pos {
                } else {
                    assert(nv[a] == ov[a]);
                }
            }
            assert(views(out@).to_multiset().add(views(rem@).to_multiset()) =~= orig.to_multiset());
        }
    }
    out
}

/// The position of the first record with process id `pid`.
fn find_pid(nodes: &Vec<ProcessInfo>, pid: u32) -> (r: Option<usize>)
    ensures
        as_index(r) == pid_index_from(views(nodes@), pid, 0),
{
    let ghost ns = views(nodes@);
    let mut k: usize = 0;
    while k < nodes.len()
        invariant
            k <= nodes@.len(),
            ns == views(nodes@),
            pid_index_from(ns, pid, 0) == pid_index_from(ns, pid, k as int),
        decreases nodes@.len() - k,
    {
        if nodes[k].pid == pid {
            return Some(k);
        }
        k = k + 1;
    }
    None
}

/// For each record, the position of the parent it names.
fn raw_parents(nodes: &Vec<ProcessInfo>) -> (r: Vec<Option<usize>>)
    ensures
        r@.len() == nodes@.len(),
        forall|i: int| 0 <= i < nodes@.len() ==> as_index(#[trigger] r@[i]) == raw_parent(views(nodes@), i),
{
    let mut r: Vec<Option<usize>> = Vec::new();
    let mut i: usize = 0;
    while i < nodes.len()
        invariant
            i <= nodes@.len(),
            r@.len() == i,
            forall|k: int| 0 <= k < i ==> as_index(#[trigger] r@[k]) == raw_parent(views(nodes@), k),
        decreases nodes@.len() - i,
    {
        let p = match nodes[i].parent {
            Some(pp) => if pp == INIT_PID {
                None
            } else {
                find_pid(nodes, pp)
            },
            None => None,
        };
        r.push(p);
        i = i + 1;
    }
    r
}

/// Whether following `raw` from `start` meets `target` within `fuel`
/// further steps.
fn walks_back_to(
    raw: &Vec<Option<usize>>,
    target: usize,
    start: usize,
    fuel: usize,
    Ghost(ns): Ghost<Seq<ProcessInfoView>>,
) -> (r: bool)
    requires
        raw@.len() == ns.len(),
        start < ns.len(),
        forall|k: int| 0 <= k < ns.len() ==> as_index(#[trigger] raw@[k]) == raw_parent(ns, k),
        forall|k: int| 0 <= k < ns.len() ==> (#[trigger] raw@[k] matches Some(j) ==> j < ns.len()),
    ensures
        r == returns_to(ns, target as int, start as int, fuel as nat),
{
    let mut cur: usize = start;
    let mut left: usize = fuel;
    loop
        invariant
            cur < ns.len(),
            raw@.len() == ns.len(),
            forall|k: int| 0 <= k < ns.len() ==> as_index(#[trigger] raw@[k]) == raw_parent(ns, k),
            forall|k: int| 0 <= k < ns.len() ==> (#[trigger] raw@[k] matches Some(j) ==> j < ns.len()),
            returns_to(ns, target as int, start as int, fuel as nat) == returns_to(
                ns,
                target as int,
                cur as int,
                left as nat,
            ),
        decreases left,
    {
        match raw[cur] {
            None => {
                return false;
            },
            Some(j) => {
                if j == target {
                    return true;
                }
                if left == 0 {
                    return false;
                }
                cur = j;
                left = left - 1;
            },
        }
    }
}

proof fn lemma_pid_index_bounds(ns: Seq<ProcessInfoView>, pid: u32, k: int)
    requires
        0 <= k,
    ensures
        pid_index_from(ns, pid, k) matches Some(j) ==> k <= j < ns.len(),
    decreases ns.len() - k,
{
    if 0 <= k < ns.len() && ns[k].pid != pid {
        lemma_pid_index_bounds(ns, pid, k + 1);
    }
}

/// For each record, the position of its parent in the tree.
fn tree_parents(nodes: &Vec<ProcessInfo>) -> (r: Vec<Option<usize>>)
    ensures
        r@.len() == nodes@.len(),
        forall|i: int| 0 <= i < nodes@.len() ==> as_index(#[trigger] r@[i]) == tree_parent(views(nodes@), i),
        forall|i: int| 0 <= i < nodes@.len() ==> (#[trigger] r@[i] matches Some(j) ==> j < nodes@.len()),
{
    let ghost ns = views(nodes@);
    let raw = raw_parents(nodes);
    assert forall|k: int| 0 <= k < ns.len() implies (#[trigger] raw@[k] matches Some(j) ==> j < ns.len()) by {
        match ns[k].parent {
            Some(pp) => lemma_pid_index_bounds(ns, pp, 0),
            None => {},
        }
    }
    let mut r: Vec<Option<usize>> = Vec::new();
    let mut i: usize = 0;
    while i < nodes.len()
        invariant
            i <= nodes@.len(),
            ns == views(nodes@),
            raw@.len() == ns.len(),
            forall|k: int| 0 <= k < ns.len() ==> as_index(#[trigger] raw@[k]) == raw_parent(ns, k),
            forall|k: int| 0 <= k < ns.len() ==> (#[trigger] raw@[k] matches Some(j) ==> j < ns.len()),
            r@.len() == i,
            forall|k: int| 0 <= k < i ==> as_index(#[trigger] r@[k]) == tree_parent(ns, k),
            forall|k: int| 0 <= k < i ==> (#[trigger] r@[k] matches Some(j) ==> j < ns.len()),
        decreases nodes@.len() - i,
    {
        let p = if walks_back_to(&raw, i, i, nodes.len(), Ghost(ns)) {
            None
        } else {
            raw[i]
        };
        r.push(p);
        i = i + 1;
    }
    r
}

/// The positions, in increasing order, whose entry in `parents` is `target`.
fn positions_with_parent(parents: &Vec<Option<usize>>, target: Option<usize>) -> (r: Vec<usize>)
    ensures
        strictly_increasing(r@),
        forall|c: usize| #[trigger] r@.contains(c) <==> (c < parents@.len() && parents@[c as int] == target),
{
    let mut r: Vec<usize> = Vec::new();
    let mut c: usize = 0;
    while c < parents.len()
        invariant
            c <= parents@.len(),
            strictly_increasing(r@),
            forall|k: int| 0 <= k < r@.len() ==> #[trigger] r@[k] < c,
            forall|x: usize| #[trigger] r@.contains(x) <==> (x < c && parents@[x as int] == target),
        decreases parents@.len() - c,
    {
        if parents[c] == target {
            let ghost old_r = r@;
            r.push(c);
            proof {
                assert forall|x: usize| #[trigger] r@.contains(x) <==> (x < c + 1 && parents@[x as int] == target) by {
                    if x == c {
                        assert(r@[old_r.len() as int] == c);
                    }
                    if r@.contains(x) && x != c {
                        let k = choose|k: int| 0 <= k < r@.len() && r@[k] == x;
                        assert(k < old_r.len());
                        assert(old_r[k] == x);
                    }
                    if old_r.contains(x) {
                        let k = choose|k: int| 0 <= k < old_r.len() && old_r[k] == x;
                        assert(r@[k] == x);
                    }
                }
            }
        } else {
            proof {
                assert forall|x: usize| #[trigger] r@.contains(x) <==> (x < c + 1 && parents@[x as int] == target) by {
                    if r@.contains(x) {
                        let k = choose|k: int| 0 <= k < r@.len() && r@[k] == x;
                        assert(x < c);
                    }
                }
            }
        }
        c = c + 1;
    }
    r
}

/// Depth-first search from record `i`, at most `fuel` levels deep: `i`
/// itself if it matches `s`, else the first hit among its children in order.
pub open spec fn find_from(t: TreeView, i: int, s: Seq<char>, fuel: nat) -> Option<int>
    decreases fuel, 0nat,
{
    if fuel == 0 {
        None
    } else if record_matches(t.nodes[i], s) {
        Some(i)
    } else {
        find_in(t, t.children[i], s, (fuel - 1) as nat)
    }
}

/// Depth-first search through the subtrees of the records in `list`, in
/// order: the first hit.
pub open spec fn find_in(t: TreeView, list: Seq<usize>, s: Seq<char>, fuel: nat) -> Option<int>
    decreases fuel, list.len(),
{
    if list.len() == 0 {
        None
    } else {
        match find_from(t, list[0] as int, s, fuel) {
            Some(x) => Some(x),
            None => find_in(t, list.drop_first(), s, fuel),
        }
    }
}

/// The positions in the child and root lists of a well-formed tree are
/// positions of records.
pub proof fn lemma_lists_in_bounds(t: TreeView)
    requires
        tree_wf(t),
    ensures
        forall|j: int, k: int|
            0 <= j < t.nodes.len() && 0 <= k < t.children[j].len() ==> #[trigger] t.children[j][k]
                < t.nodes.len(),
        forall|k: int| 0 <= k < t.roots.len() ==> #[trigger] t.roots[k] < t.nodes.len(),
{
    assert forall|j: int, k: int|
        0 <= j < t.nodes.len() && 0 <= k < t.children[j].len() implies #[trigger] t.children[j][k]
            < t.nodes.len() by {
        assert(strictly_increasing(t.children[j]));
        assert(t.children[j].contains(t.children[j][k]));
    }
    assert forall|k: int| 0 <= k < t.roots.len() implies #[trigger] t.roots[k] < t.nodes.len() by {
        assert(t.roots.contains(t.roots[k]));
    }
}

pub proof fn lemma_find_from_bounds(t: TreeView, i: int, s: Seq<char>, fuel: nat)
    requires
        tree_wf(t),
        0 <= i < t.nodes.len(),
    ensures
        find_from(t, i, s, fuel) matches Some(x) ==> 0 <= x < t.nodes.len(),
    decreases fuel, 0nat,
{
    if fuel > 0 && !record_matches(t.nodes[i], s) {
        lemma_lists_in_bounds(t);
        lemma_find_in_bounds(t, t.children[i], s, (fuel - 1) as nat);
    }
}

pub proof fn lemma_find_in_bounds(t: TreeView, list: Seq<usize>, s: Seq<char>, fuel: nat)
    requires
        tree_wf(t),
        forall|k: int| 0 <= k < list.len() ==> #[trigger] list[k] < t.nodes.len(),
    ensures
        find_in(t, list, s, fuel) matches Some(x) ==> 0 <= x < t.nodes.len(),
    decreases fuel, list.len(),
{
    if list.len() > 0 {
        lemma_find_from_bounds(t, list[0] as int, s, fuel);
        lemma_find_in_bounds(t, list.drop_first(), s, fuel);
    }
}

/// Depth-first search of the whole forest, roots in order of process id.
pub open spec fn find_spec(t: TreeView, s: Seq<char>) -> Option<int> {
    find_in(t, t.roots, s, t.nodes.len() as nat)
}

/// In a well-formed tree, a record whose parent is present (and is not the
/// init process) hangs directly under that parent, unless the record itself
/// lies on a cycle of parents.
pub proof fn lemma_child_under_parent(t: TreeView, i: usize)
    requires
        tree_wf(t),
        0 <= i < t.nodes.len(),
        raw_parent(t.nodes, i as int) is Some,
        !on_cycle(t.nodes, i as int),
    ensures
        t.children[raw_parent(t.nodes, i as int).unwrap()].contains(i),
        0 <= raw_parent(t.nodes, i as int).unwrap() < t.nodes.len(),
{
    let j = raw_parent(t.nodes, i as int).unwrap();
    match t.nodes[i as int].parent {
        Some(pp) => lemma_pid_index_bounds(t.nodes, pp, 0),
        None => {},
    }
    assert(strictly_increasing(t.children[j]));
    assert(tree_parent(t.nodes, i as int) == Some(j));
    assert(t.children[j].contains(i) <==> (i < t.nodes.len() && tree_parent(t.nodes, i as int) == Some(j)));
}

/// Whether process ids tell apart the distinct records of `s`.
pub open spec fn pid_identifies(s: Seq<ProcessInfoView>) -> bool {
    forall|x: ProcessInfoView, y: ProcessInfoView|
        #[trigger] s.contains(x) && #[trigger] s.contains(y) && x.pid == y.pid ==> x == y
}

proof fn lemma_sorted_same_multiset(s1: Seq<ProcessInfoView>, s2: Seq<ProcessInfoView>)
    requires
        sorted_by_pid(s1),
        sorted_by_pid(s2),
        s1.to_multiset() == s2.to_multiset(),
        pid_identifies(s1),
    ensures
        s1 == s2,
    decreases s1.len(),
{
    if s1.len() == 0 {
        assert(s2.to_multiset().len() == 0);
        assert(s2 =~= s1);
    } else {
        assert(s1.to_multiset().count(s1[0]) > 0);
        assert(s2.contains(s1[0]));
        assert(s2.len() > 0);
        assert(s1.to_multiset().count(s2[0]) > 0);
        assert(s1.contains(s2[0]));
        let k1 = choose|k: int| 0 <= k < s1.len() && s1[k] == s2[0];
        let k2 = choose|k: int| 0 <= k < s2.len() && s2[k] == s1[0];
        assert(s1[0].pid <= s1[k1].pid);
        assert(s2[0].pid <= s2[k2].pid);
        assert(s1.contains(s1[0]));
        assert(s1[0] == s2[0]);
        let t1 = s1.drop_first();
        let t2 = s2.drop_first();
        assert(s1.remove(0) =~= t1);
        assert(s2.remove(0) =~= t2);
        assert(t1.to_multiset() == s1.to_multiset().remove(s1[0]));
        assert(t2.to_multiset() == s2.to_multiset().remove(s2[0]));
        assert forall|x: ProcessInfoView, y: ProcessInfoView|
            #[trigger] t1.contains(x) && #[trigger] t1.contains(y) && x.pid == y.pid implies x == y by {
            let a = choose|k: int| 0 <= k < t1.len() && t1[k] == x;
            let b = choose|k: int| 0 <= k < t1.len() && t1[k] == y;
            assert(s1[a + 1] == x);
            assert(s1[b + 1] == y);
            assert(s1.contains(x));
            assert(s1.contains(y));
        }
        lemma_sorted_same_multiset(t1, t2);
        assert(s1 =~= seq![s1[0]] + t1);
        assert(s2 =~= seq![s2[0]] + t2);
    }
}

proof fn lemma_increasing_same_members(s1: Seq<usize>, s2: Seq<usize>)
    requires
        strictly_increasing(s1),
        strictly_increasing(s2),
        forall|c: usize| s1.contains(c) <==> s2.contains(c),
    ensures
        s1 == s2,
    decreases s1.len(),
{
    if s1.len() == 0 {
        if s2.len() > 0 {
            assert(s2.contains(s2[0]));
        }
        assert(s2 =~= s1);
    } else {
        assert(s1.contains(s1[0]));
        assert(s2.contains(s1[0]));
        assert(s2.contains(s2[0]));
        assert(s1.contains(s2[0]));
        let k1 = choose|k: int| 0 <= k < s1.len() && s1[k] == s2[0];
        let k2 = choose|k: int| 0 <= k < s2.len() && s2[k] == s1[0];
        if k1 > 0 {
            assert(s1[0] < s1[k1]);
        }
        if k2 > 0 {
            assert(s2[0] < s2[k2]);
        }
        let t1 = s1.drop_first();
        let t2 = s2.drop_first();
        assert forall|c: usize| t1.contains(c) <==> t2.contains(c) by {
            if t1.contains(c) {
                let a = choose|k: int| 0 <= k < t1.len() && t1[k] == c;
                assert(s1[a + 1] == c);
                assert(s1.contains(c));
                let b = choose|k: int| 0 <= k < s2.len() && s2[k] == c;
                assert(s1[0] < c);
                assert(b != 0);
                assert(t2[b - 1] == c);
            }
            if t2.contains(c) {
                let a = choose|k: int| 0 <= k < t2.len() && t2[k] == c;
                assert(s2[a + 1] == c);
                assert(s2.contains(c));
                let b = choose|k: int| 0 <= k < s1.len() && s1[k] == c;
                assert(s2[0] < c);
                assert(b != 0);
                assert(t1[b - 1] == c);
            }
        }
        lemma_increasing_same_members(t1, t2);
        assert(s1 =~= seq![s1[0]] + t1);
        assert(s2 =~= seq![s2[0]] + t2);
    }
}

/// Building is independent of the order of the input: two well-formed trees
/// built from lists with the same records, where process ids tell the
/// records apart, are equal.
pub proof fn lemma_tree_order_independent(
    a: Seq<ProcessInfoView>,
    b: Seq<ProcessInfoView>,
    ta: TreeView,
    tb: TreeView,
)
    requires
        tree_wf(ta),
        tree_wf(tb),
        ta.nodes.to_multiset() == a.to_multiset(),
        tb.nodes.to_multiset() == b.to_multiset(),
        a.to_multiset() == b.to_multiset(),
        pid_identifies(a),
    ensures
        ta == tb,
{
    assert forall|x: ProcessInfoView, y: ProcessInfoView|
        #[trigger] ta.nodes.contains(x) && #[trigger] ta.nodes.contains(y) && x.pid == y.pid implies x == y by {
        assert(ta.nodes.to_multiset().count(x) > 0);
        assert(ta.nodes.to_multiset().count(y) > 0);
        assert(a.contains(x));
        assert(a.contains(y));
    }
    lemma_sorted_same_multiset(ta.nodes, tb.nodes);
    let n = ta.nodes.len();
    assert forall|j: int| 0 <= j < n implies ta.children[j] == tb.children[j] by {
        assert(strictly_increasing(ta.children[j]));
        assert(strictly_increasing(tb.children[j]));
        assert forall|c: usize| ta.children[j].contains(c) <==> tb.children[j].contains(c) by {
            assert(ta.children[j].contains(c) <==> (c < n && tree_parent(ta.nodes, c as int) == Some(j)));
            assert(tb.children[j].contains(c) <==> (c < n && tree_parent(tb.nodes, c as int) == Some(j)));
        }
        lemma_increasing_same_members(ta.children[j], tb.children[j]);
    }
    assert(ta.children =~= tb.children);
    assert forall|c: usize| ta.roots.contains(c) <==> tb.roots.contains(c) by {
        assert(ta.roots.contains(c) <==> (c < n && tree_parent(ta.nodes, c as int) is None));
        assert(tb.roots.contains(c) <==> (c < n && tree_parent(tb.nodes, c as int) is None));
    }
    lemma_increasing_same_members(ta.roots, tb.roots);
}

/// `n` spaces.
pub open spec fn spaces(n: nat) -> Seq<char> {
    Seq::new(n, |k: int| ' ')
}

/// The line of one record, indented by `level`: `"  |__<42> cmd args\n"`.
pub open spec fn node_line(p: ProcessInfoView, level: nat) -> Seq<char> {
    spaces(level) + "|__<"@ + decimal(p.pid as nat) + "> "@ + joined(p.cmd) + "\n"@
}

/// The lines of the subtree of record `i`, at most `fuel` levels deep, each
/// level indented one space more than its parent.
pub open spec fn subtree_text(t: TreeView, i: int, level: nat, fuel: nat) -> Seq<char>
    decreases fuel, 0nat,
{
    if fuel == 0 {
        Seq::empty()
    } else {
        node_line(t.nodes[i], level) + list_text(t, t.children[i], level + 1, (fuel - 1) as nat)
    }
}

/// The lines of the subtrees of the records in `list`, in order.
pub open spec fn list_text(t: TreeView, list: Seq<usize>, level: nat, fuel: nat) -> Seq<char>
    decreases fuel, list.len(),
{
    if list.len() == 0 {
        Seq::empty()
    } else {
        subtree_text(t, list[0] as int, level, fuel) + list_text(t, list.drop_first(), level, fuel)
    }
}

impl ProcessTree {
    pub open spec fn wf(&self) -> bool {
        tree_wf(self@)
    }

    /// The number of records.
    pub fn len(&self) -> (r: usize)
        ensures
            r == self@.nodes.len(),
    {
        self.nodes.len()
    }

    /// The record at position `i`.
    pub fn node(&self, i: usize) -> (r: &ProcessInfo)
        requires
            i < self@.nodes.len(),
        ensures
            r@ == self@.nodes[i as int],
    {
        &self.nodes[i]
    }

    /// The positions of the roots, in order of process id.
    pub fn roots(&self) -> (r: &Vec<usize>)
        ensures
            r@ == self@.roots,
    {
        &self.roots
    }

    /// The positions of the children of record `i`, in order of process id.
    pub fn children(&self, i: usize) -> (r: &Vec<usize>)
        requires
            i < self@.nodes.len(),
            self.wf(),
        ensures
            r@ == self@.children[i as int],
    {
        &self.children[i]
    }

    /// Searches the subtree of record `i`, at most `fuel` levels deep.
    pub fn find_from(&self, i: usize, s: &str, fuel: usize) -> (r: Option<usize>)
        requires
            self.wf(),
            i < self@.nodes.len(),
        ensures
            as_index(r) == find_from(self@, i as int, s@, fuel as nat),
        decreases fuel, 0nat,
    {
        if fuel == 0 {
            return None;
        }
        if self.nodes[i].matches(s) {
            return Some(i);
        }
        proof {
            assert(self@.children[i as int] == self.children@[i as int]@);
            lemma_lists_in_bounds(self@);
        }
        self.find_in(&self.children[i], s, fuel - 1)
    }

    /// Searches the subtrees of the records in `list`, in order.
    pub fn find_in(&self, list: &Vec<usize>, s: &str, fuel: usize) -> (r: Option<usize>)
        requires
            self.wf(),
            forall|k: int| 0 <= k < list@.len() ==> #[trigger] list@[k] < self@.nodes.len(),
        ensures
            as_index(r) == find_in(self@, list@, s@, fuel as nat),
        decreases fuel, list@.len(),
    {
        let mut k: usize = 0;
        assert(list@.skip(0) =~= list@);
        while k < list.len()
            invariant
                k <= list@.len(),
                self.wf(),
                forall|k: int| 0 <= k < list@.len() ==> #[trigger] list@[k] < self@.nodes.len(),
                find_in(self@, list@, s@, fuel as nat) == find_in(
                    self@,
                    list@.skip(k as int),
                    s@,
                    fuel as nat,
                ),
            decreases list@.len() - k,
        {
            let found = self.find_from(list[k], s, fuel);
            proof {
                let rest = list@.skip(k as int);
                assert(rest[0] == list@[k as int]);
                assert(rest.drop_first() =~= list@.skip(k + 1));
            }
            if found.is_some() {
                return found;
            }
            k = k + 1;
        }
        proof {
            assert(list@.skip(k as int).len() == 0);
        }
        None
    }

    /// Searches the whole forest depth first, roots in order of process
    /// id: the position of the first record whose name or command line
    /// contains `s`.
    pub fn find_index(&self, s: &str) -> (r: Option<usize>)
        requires
            self.wf(),
        ensures
            as_index(r) == find_spec(self@, s@),
    {
        proof {
            lemma_lists_in_bounds(self@);
        }
        self.find_in(&self.roots, s, self.nodes.len())
    }

    /// The first record whose name or command line contains `s`, searched
    /// depth first from the roots in order of process id.
    pub fn find(&self, s: &str) -> (r: Option<&ProcessInfo>)
        requires
            self.wf(),
        ensures
            r is None <==> find_spec(self@, s@) is None,
            r matches Some(p) ==> (find_spec(self@, s@) matches Some(i) && p@ == self@.nodes[i]),
    {
        match self.find_index(s) {
            Some(i) => {
                proof {
                    lemma_lists_in_bounds(self@);
                    lemma_find_in_bounds(self@, self@.roots, s@, self@.nodes.len() as nat);
                }
                Some(&self.nodes[i])
            },
            None => None,
        }
    }

    /// Appends the lines of the subtree of record `i` (see `subtree_text`).
    fn write_subtree(&self, out: &mut String, i: usize, level: usize, fuel: usize)
        requires
            self.wf(),
            i < self@.nodes.len(),
            level + fuel <= usize::MAX,
        ensures
            final(out)@ == old(out)@ + subtree_text(self@, i as int, level as nat, fuel as nat),
        decreases fuel, 0nat,
    {
        if fuel == 0 {
            assert(old(out)@ + Seq::<char>::empty() =~= old(out)@);
            return;
        }
        let ghost start = out@;
        let mut k: usize = 0;
        while k < level
            invariant
                k <= level,
                out@ == start + spaces(k as nat),
            decreases level - k,
        {
            push_text(out, " ");
            proof {
                reveal_strlit(" ");
                assert(out@ =~= start + spaces((k + 1) as nat));
            }
            k = k + 1;
        }
        push_text(out, "|__<");
        push_text(out, u64_text(self.nodes[i].pid as u64).as_str());
        push_text(out, "> ");
        push_text(out, self.nodes[i].cmd().as_str());
        push_text(out, "\n");
        let ghost after_line = out@;
        proof {
            assert(after_line =~= start + node_line(self@.nodes[i as int], level as nat));
            assert(self@.children[i as int] == self.children@[i as int]@);
            lemma_lists_in_bounds(self@);
        }
        self.write_list(out, &self.children[i], level + 1, fuel - 1);
        proof {
            assert(out@ =~= start + subtree_text(self@, i as int, level as nat, fuel as nat));
        }
    }

    /// Appends the lines of the subtrees of the records in `list`.
    fn write_list(&self, out: &mut String, list: &Vec<usize>, level: usize, fuel: usize)
        requires
            self.wf(),
            forall|k: int| 0 <= k < list@.len() ==> #[trigger] list@[k] < self@.nodes.len(),
            level + fuel <= usize::MAX,
        ensures
            final(out)@ == old(out)@ + list_text(self@, list@, level as nat, fuel as nat),
        decreases fuel, list@.len(),
    {
        let ghost start = out@;
        let mut k: usize = 0;
        assert(list@.skip(0) =~= list@);
        assert(start + Seq::<char>::empty() =~= start);
        while k < list.len()
            invariant
                k <= list@.len(),
                self.wf(),
                level + fuel <= usize::MAX,
                forall|j: int| 0 <= j < list@.len() ==> #[trigger] list@[j] < self@.nodes.len(),
                start + list_text(self@, list@, level as nat, fuel as nat) == out@ + list_text(
                    self@,
                    list@.skip(k as int),
                    level as nat,
                    fuel as nat,
                ),
            decreases list@.len() - k,
        {
            let ghost before = out@;
            self.write_subtree(out, list[k], level, fuel);
            proof {
                let rest = list@.skip(k as int);
                assert(rest[0] == list@[k as int]);
                assert(rest.drop_first() =~= list@.skip(k + 1));
                assert(list_text(self@, rest, level as nat, fuel as nat) == subtree_text(self@, list@[k as int] as int, level as nat, fuel as nat) + list_text(self@, list@.skip(k + 1), level as nat, fuel as nat));
                assert(before + list_text(self@, rest, level as nat, fuel as nat) =~= out@ + list_text(self@, list@.skip(k + 1), level as nat, fuel as nat));
            }
            k = k + 1;
        }
        proof {
            assert(list@.skip(k as int).len() == 0);
            assert(out@ + Seq::<char>::empty() =~= out@);
        }
    }

    /// The subtree of record `i` as indented lines, one per record, each
    /// child one space deeper than its parent.
    pub fn to_string(&self, i: usize, level: usize) -> (r: String)
        requires
            self.wf(),
            i < self@.nodes.len(),
            level + self@.nodes.len() <= usize::MAX,
        ensures
            r@ == subtree_text(self@, i as int, level as nat, self@.nodes.len() as nat),
    {
        let mut out = String::new();
        self.write_subtree(&mut out, i, level, self.nodes.len());
        assert(Seq::<char>::empty() + subtree_text(self@, i as int, level as nat, self@.nodes.len() as nat) =~= subtree_text(self@, i as int, level as nat, self@.nodes.len() as nat));
        out
    }

    /// An empty tree.
    pub fn new() -> (r: ProcessTree)
        ensures
            r@.nodes.len() == 0,
            tree_wf(r@),
    {
        let r = ProcessTree { nodes: Vec::new(), children: Vec::new(), roots: Vec::new() };
        assert(r@.roots =~= Seq::<usize>::empty());
        r
    }

    /// The tree of one snapshot: the records sorted by process id, each
    /// under its tree parent (see `tree_parent`); children and roots in
    /// order of process id. No record is dropped.
    pub fn from(processes: Vec<ProcessInfo>) -> (r: ProcessTree)
        ensures
            tree_wf(r@),
            r@.nodes.to_multiset() == views(processes@).to_multiset(),
    {
        let nodes = sort_by_pid(processes);
        let ghost ns = views(nodes@);
        let parents = tree_parents(&nodes);
        let mut children: Vec<Vec<usize>> = Vec::new();
        let mut j: usize = 0;
        while j < nodes.len()
            invariant
                j <= nodes@.len(),
                ns == views(nodes@),
                parents@.len() == nodes@.len(),
                forall|i: int| 0 <= i < nodes@.len() ==> as_index(#[trigger] parents@[i]) == tree_parent(ns, i),
                children@.len() == j,
                forall|k: int|
                    0 <= k < j ==> #[trigger] strictly_increasing(children@[k]@) && forall|c: usize|
                        #[trigger] children@[k]@.contains(c) <==> (c < ns.len() && tree_parent(
                            ns,
                            c as int,
                        ) == Some(k)),
            decreases nodes@.len() - j,
        {
            let list = positions_with_parent(&parents, Some(j));
            proof {
                assert forall|c: usize| #[trigger] list@.contains(c) <==> (c < ns.len() && tree_parent(ns, c as int) == Some(j as int)) by {
                    if c < ns.len() {
                        assert(as_index(parents@[c as int]) == tree_parent(ns, c as int));
                    }
                }
            }
            children.push(list);
            j = j + 1;
        }
        let roots = positions_with_parent(&parents, None);
        proof {
            assert forall|c: usize| #[trigger] roots@.contains(c) <==> (c < ns.len() && tree_parent(ns, c as int) is None) by {
                if c < ns.len() {
                    assert(as_index(parents@[c as int]) == tree_parent(ns, c as int));
                }
            }
        }
        let r = ProcessTree { nodes, children, roots };
        proof {
            let t = r@;
            assert forall|k: int| 0 <= k < t.nodes.len() implies #[trigger] strictly_increasing(t.children[k]) && forall|c: usize|
                #[trigger] t.children[k].contains(c) <==> (c < t.nodes.len() && tree_parent(t.nodes, c as int) == Some(k)) by {
                assert(t.children[k] == children@[k]@);
            }
        }
        r
    }
}

} // verus!
