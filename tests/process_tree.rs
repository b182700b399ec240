use game_tracker::{ProcessInfo, ProcessTree};

fn proc_(pid: u32, parent: Option<u32>, name: &str, cmd: &[&str], run_time: u64) -> ProcessInfo {
    ProcessInfo::new(
        pid,
        parent,
        name.to_string(),
        cmd.iter().map(|s| s.to_string()).collect(),
        run_time,
        1000,
    )
}

fn sample(order: &[usize]) -> Vec<ProcessInfo> {
    let all = vec![
        proc_(1, None, "init", &["/sbin/init"], 0),
        proc_(50, Some(1), "shell", &["bash"], 0),
        proc_(7, Some(50), "launcher", &["steam", "-silent"], 0),
        proc_(80, Some(7), "game", &["/games/mygame/run", "--fast"], 3),
        proc_(3, Some(999), "orphan", &["orphan"], 0),
        proc_(20, Some(21), "loop-a", &["a"], 0),
        proc_(21, Some(20), "loop-b", &["b"], 0),
        proc_(22, Some(20), "below-loop", &["c"], 0),
    ];
    order.iter().map(|i| all[*i].clone()).collect()
}

fn shape(t: &ProcessTree) -> Vec<(u32, Vec<u32>)> {
    (0..t.len())
        .map(|i| {
            (
                t.node(i).pid(),
                t.children(i).iter().map(|c| t.node(*c).pid()).collect(),
            )
        })
        .collect()
}

#[test]
fn children_hang_under_their_parent() {
    let t = ProcessTree::from(sample(&[0, 1, 2, 3, 4, 5, 6, 7]));
    let pids: Vec<u32> = (0..t.len()).map(|i| t.node(i).pid()).collect();
    assert_eq!(pids, vec![1, 3, 7, 20, 21, 22, 50, 80]);
    let roots: Vec<u32> = t.roots().iter().map(|i| t.node(*i).pid()).collect();
    // init's children count as roots; a missing parent makes a root; a cycle
    // makes roots of its own members only.
    assert_eq!(roots, vec![1, 3, 20, 21, 50]);
    let s = shape(&t);
    assert_eq!(s[2], (7, vec![80]));
    assert_eq!(s[3], (20, vec![22]));
    assert_eq!(s[6], (50, vec![7]));
    assert_eq!(s[0], (1, vec![]));
}

#[test]
fn building_is_independent_of_order() {
    let a = ProcessTree::from(sample(&[0, 1, 2, 3, 4, 5, 6, 7]));
    let b = ProcessTree::from(sample(&[6, 3, 7, 5, 2, 0, 4, 1]));
    assert_eq!(shape(&a), shape(&b));
    let ra: Vec<usize> = a.roots().clone();
    let rb: Vec<usize> = b.roots().clone();
    assert_eq!(ra, rb);
}

#[test]
fn find_searches_depth_first_by_name_or_command_line() {
    let t = ProcessTree::from(sample(&[3, 2, 1, 0, 4, 5, 6, 7]));
    assert_eq!(t.find("mygame").map(|p| p.pid()), Some(80));
    assert_eq!(t.find("launcher").map(|p| p.pid()), Some(7));
    assert_eq!(t.find("-silent").map(|p| p.pid()), Some(7));
    assert_eq!(t.find("run --fast").map(|p| p.pid()), Some(80));
    assert!(t.find("MYGAME").is_none());
    assert!(t.find("nothing").is_none());
    // first hit in root order: "a" is in "orphan" (pid 3), "loop-a" (pid 20)
    // and "bash" (pid 50)
    assert_eq!(t.find("a").map(|p| p.pid()), Some(3));
}

#[test]
fn empty_snapshot_gives_empty_tree() {
    let t = ProcessTree::from(Vec::new());
    assert_eq!(t.len(), 0);
    assert!(t.roots().is_empty());
    assert!(t.find("x").is_none());
}

#[test]
fn joined_command_line() {
    let p = proc_(5, None, "n", &["a", "b c", "d"], 0);
    assert_eq!(p.cmd(), "a b c d");
    assert!(p.cmd_contains("c d"));
    assert!(!p.cmd_contains("x"));
    assert!(p.matches("n"));
}

#[test]
fn identity_ignores_run_time() {
    let a = proc_(5, None, "n", &["a"], 1);
    let b = proc_(5, None, "n", &["a"], 99);
    let c = proc_(5, None, "n", &["a", "b"], 1);
    assert!(a.same_identity(&b));
    assert!(!a.same_identity(&c));
    let d = a.duplicate();
    assert_eq!(d.run_time(), 1);
    assert_eq!(d.name(), "n");
}

#[test]
fn subtree_as_indented_lines() {
    let t = ProcessTree::from(sample(&[0, 1, 2, 3, 4, 5, 6, 7]));
    // position 6 holds pid 50: bash -> steam -> game
    assert_eq!(
        t.to_string(6, 0),
        "|__<50> bash\n |__<7> steam -silent\n  |__<80> /games/mygame/run --fast\n"
    );
    assert_eq!(t.to_string(0, 2), "  |__<1> /sbin/init\n");
}
