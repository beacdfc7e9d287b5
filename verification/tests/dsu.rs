use algo_primitives::dsu::Dsu;
use rand::{thread_rng, Rng};

#[test]
fn test_random() {
    let mut rng = thread_rng();
    for _ in 0..100 {
        let len = rng.gen_range(1..30);
        let mut adj = vec![vec![false; len]; len];
        let mut dsu = Dsu::new(len);
        for _ in 0..100 {
            let a = rng.gen_range(0..len);
            let b = rng.gen_range(0..len);
            adj[a][b] = true;
            adj[b][a] = true;
            dsu.merge(a, b);
            assert_eq!(dsu.same(a, b), reachable(&adj, a, b));
        }
    }
}

fn reachable(adj: &[Vec<bool>], a: usize, b: usize) -> bool {
    let mut visited = vec![false; adj.len()];
    let mut stack = vec![a];
    while let Some(x) = stack.pop() {
        visited[x] = true;
        if x == b {
            return true;
        }
        for y in (0..adj.len()).filter(|&y| !visited[y] && adj[x][y]) {
            stack.push(y);
        }
    }
    false
}

#[test]
fn dsu_example() {
    let mut dsu = Dsu::new(5);
    dsu.merge(0, 1);
    dsu.merge(1, 2);
    assert!(dsu.same(0, 2));
    assert!(!dsu.same(0, 3));
    assert_eq!(dsu.size(0), 3);
    assert_eq!(dsu.groups(), vec![vec![0, 1, 2], vec![3], vec![4]]);
}

#[test]
fn dsu_new_is_singletons() {
    let mut dsu = Dsu::new(4);
    for a in 0..4 {
        assert_eq!(dsu.leader(a), a);
        assert_eq!(dsu.size(a), 1);
        for b in 0..4 {
            assert_eq!(dsu.same(a, b), a == b);
        }
    }
    assert_eq!(dsu.groups(), vec![vec![0], vec![1], vec![2], vec![3]]);
}

#[test]
fn dsu_empty() {
    let mut dsu = Dsu::new(0);
    assert_eq!(dsu.groups(), Vec::<Vec<usize>>::new());
}

#[test]
fn dsu_merge_returns_surviving_root() {
    let mut dsu = Dsu::new(6);
    // A tie keeps the leader of the first argument.
    assert_eq!(dsu.merge(3, 1), 3);
    assert_eq!(dsu.merge(4, 5), 4);
    // The larger tree keeps its root, whichever side it is on.
    assert_eq!(dsu.merge(0, 1), 3);
    assert_eq!(dsu.merge(3, 2), 3);
    assert_eq!(dsu.merge(5, 0), 3);
    // Merging within one part changes nothing.
    assert_eq!(dsu.merge(4, 2), 3);
    assert_eq!(dsu.size(5), 6);
    assert_eq!(dsu.groups(), vec![vec![0, 1, 2, 3, 4, 5]]);
}

#[test]
fn dsu_leader_is_stable_under_path_compression() {
    let mut dsu = Dsu::new(8);
    dsu.merge(0, 1);
    dsu.merge(2, 3);
    dsu.merge(0, 2);
    dsu.merge(4, 5);
    dsu.merge(6, 7);
    dsu.merge(4, 6);
    dsu.merge(0, 4);
    let root = dsu.leader(7);
    for a in 0..8 {
        assert_eq!(dsu.leader(a), root);
        assert_eq!(dsu.leader(a), root);
        assert_eq!(dsu.size(a), 8);
    }
}

#[test]
fn dsu_groups_follow_leaders() {
    let mut dsu = Dsu::new(7);
    dsu.merge(6, 2);
    dsu.merge(5, 1);
    dsu.merge(1, 3);
    let groups = dsu.groups();
    assert_eq!(groups, vec![vec![0], vec![4], vec![1, 3, 5], vec![2, 6]]);
    let mut seen = vec![false; 7];
    let mut last_leader = None;
    for group in &groups {
        assert!(!group.is_empty());
        let leader = dsu.leader(group[0]);
        assert!(last_leader < Some(leader));
        last_leader = Some(leader);
        assert_eq!(dsu.size(group[0]), group.len());
        for pair in group.windows(2) {
            assert!(pair[0] < pair[1]);
        }
        for &a in group {
            assert!(!seen[a]);
            seen[a] = true;
            assert!(dsu.same(a, group[0]));
        }
    }
    assert!(seen.iter().all(|&s| s));
}
