use route_finder::routes::{dfs_fast, find_routes, FastPool, TokenIndex};

fn pool(id: &str, token_a: &str, token_b: &str) -> FastPool {
    FastPool {
        id: id.to_string(),
        token_a_id: token_a.to_string(),
        token_b_id: token_b.to_string(),
    }
}

fn triangle() -> Vec<FastPool> {
    vec![pool("1", "X", "Y"), pool("2", "Y", "Z"), pool("3", "X", "Z")]
}

fn routes(pools: &Vec<FastPool>, from: &str, to: &str, max_hops: usize) -> Vec<Vec<usize>> {
    let index = TokenIndex::build(pools);
    find_routes(pools, &index, &from.to_string(), &to.to_string(), max_hops)
}

#[test]
fn index_lists_the_pools_of_a_token_in_order() {
    let pools = triangle();
    let index = TokenIndex::build(&pools);
    assert_eq!(index.get("X"), Some(&vec![0, 2]));
    assert_eq!(index.get("Y"), Some(&vec![0, 1]));
    assert_eq!(index.get("Z"), Some(&vec![1, 2]));
    assert_eq!(index.get("W"), None);
    assert_eq!(index.get(""), None);
}

#[test]
fn index_lists_a_pool_of_one_token_twice() {
    let pools = vec![pool("1", "X", "X"), pool("2", "X", "Y")];
    let index = TokenIndex::build(&pools);
    assert_eq!(index.get("X"), Some(&vec![0, 0, 1]));
    assert_eq!(index.get("Y"), Some(&vec![1]));
}

#[test]
fn index_of_no_pools_is_empty() {
    let index = TokenIndex::new();
    assert_eq!(index.get("X"), None);
    let built = TokenIndex::build(&Vec::new());
    assert_eq!(built.get("X"), None);
}

#[test]
fn single_hop_route() {
    let pools = vec![pool("1", "X", "Y")];
    assert_eq!(routes(&pools, "X", "Y", 3), vec![vec![0]]);
    assert_eq!(routes(&pools, "Y", "X", 3), vec![vec![0]]);
}

#[test]
fn two_paths_in_search_order() {
    assert_eq!(routes(&triangle(), "X", "Z", 3), vec![vec![0, 1], vec![2]]);
}

#[test]
fn hop_cap_prunes_longer_paths() {
    assert_eq!(routes(&triangle(), "X", "Z", 1), vec![vec![2]]);
    assert_eq!(routes(&triangle(), "X", "Z", 2), vec![vec![0, 1], vec![2]]);
    assert!(routes(&triangle(), "X", "Z", 0).is_empty());
}

#[test]
fn unknown_tokens_give_no_routes() {
    assert!(routes(&triangle(), "Q", "Z", 3).is_empty());
    assert!(routes(&triangle(), "X", "Q", 3).is_empty());
    assert!(routes(&Vec::new(), "X", "Z", 3).is_empty());
}

#[test]
fn routes_end_on_the_first_pool_that_touches_the_target() {
    // X-Y, Y-Z, Z-W, W-Y: from X to Z, the path through pool 1 ends there
    let pools = vec![
        pool("1", "X", "Y"),
        pool("2", "Y", "Z"),
        pool("3", "Z", "W"),
        pool("4", "W", "Y"),
    ];
    assert_eq!(routes(&pools, "X", "Z", 5), vec![vec![0, 1], vec![0, 3, 2]]);
}

#[test]
fn routes_from_a_token_to_itself_stop_at_the_first_pool() {
    assert_eq!(routes(&triangle(), "X", "X", 3), vec![vec![0], vec![2]]);
}

#[test]
fn routes_are_simple_and_end_on_the_target() {
    let pools = vec![
        pool("1", "A", "B"),
        pool("2", "B", "C"),
        pool("3", "C", "D"),
        pool("4", "A", "C"),
        pool("5", "B", "D"),
        pool("6", "A", "D"),
        pool("7", "B", "A"),
    ];
    let found = routes(&pools, "A", "D", 4);
    assert!(!found.is_empty());
    for route in &found {
        assert!(!route.is_empty() && route.len() <= 4);
        for (i, a) in route.iter().enumerate() {
            assert!(*a < pools.len());
            for b in &route[i + 1..] {
                assert_ne!(a, b);
            }
        }
        let last = &pools[*route.last().unwrap()];
        assert!(last.token_a_id == "D" || last.token_b_id == "D");
    }
    assert_eq!(found[0], vec![0, 1, 2]);
    assert!(found.contains(&vec![5]));
    assert!(found.contains(&vec![6, 4]));
}

#[test]
fn a_pool_of_one_token_is_tried_twice() {
    let pools = vec![pool("1", "X", "X"), pool("2", "X", "Y")];
    assert_eq!(
        routes(&pools, "X", "Y", 3),
        vec![vec![0, 1], vec![0, 1], vec![1]]
    );
}

#[test]
fn search_appends_to_routes_and_restores_its_buffers() {
    let pools = triangle();
    let index = TokenIndex::build(&pools);
    let mut path = vec![0];
    let mut used = vec![true, false, false];
    let mut found = vec![vec![9, 9]];
    dfs_fast(
        &"Y".to_string(),
        &"Z".to_string(),
        &mut path,
        &mut used,
        &mut found,
        3,
        &pools,
        &index,
    );
    assert_eq!(found, vec![vec![9, 9], vec![0, 1]]);
    assert_eq!(path, vec![0]);
    assert_eq!(used, vec![true, false, false]);
}
