use pea2pea::topology::{Link, TopologyError};
use pea2pea::Topology;

fn links(t: Topology, n: usize) -> Vec<Link> {
    t.links(n).unwrap()
}

#[test]
fn expected_connections_per_topology() {
    assert_eq!(Topology::Line.num_expected_connections(5), 8);
    assert_eq!(Topology::Ring.num_expected_connections(5), 10);
    assert_eq!(Topology::Mesh.num_expected_connections(5), 20);
    assert_eq!(Topology::Star.num_expected_connections(5), 8);
    assert_eq!(Topology::Tree.num_expected_connections(5), 8);
    assert_eq!(Topology::Grid { width: 3, height: 2 }.num_expected_connections(6), 14);
    assert_eq!(Topology::Random { degree: 2, seed: 7 }.num_expected_connections(5), 20);
}

#[test]
fn expected_connections_of_no_nodes_is_zero() {
    assert_eq!(Topology::Mesh.num_expected_connections(0), 0);
    assert_eq!(Topology::Grid { width: 0, height: 3 }.num_expected_connections(0), 0);
}

#[test]
fn line_links_each_node_to_the_next() {
    assert_eq!(links(Topology::Line, 4), vec![(0, 1), (1, 2), (2, 3)]);
}

#[test]
fn ring_closes_the_line() {
    assert_eq!(links(Topology::Ring, 4), vec![(0, 1), (1, 2), (2, 3), (3, 0)]);
    assert_eq!(links(Topology::Ring, 2), vec![(0, 1), (1, 0)]);
}

#[test]
fn mesh_links_every_pair_once() {
    assert_eq!(links(Topology::Mesh, 4), vec![(0, 1), (0, 2), (0, 3), (1, 2), (1, 3), (2, 3)]);
}

#[test]
fn star_links_everyone_to_the_hub() {
    assert_eq!(links(Topology::Star, 4), vec![(1, 0), (2, 0), (3, 0)]);
}

#[test]
fn tree_links_parents_to_children() {
    assert_eq!(links(Topology::Tree, 6), vec![(0, 1), (0, 2), (1, 3), (1, 4), (2, 5)]);
}

#[test]
fn grid_links_right_and_down() {
    assert_eq!(
        links(Topology::Grid { width: 3, height: 2 }, 6),
        vec![(0, 1), (0, 3), (1, 2), (1, 4), (2, 5), (3, 4), (4, 5)]
    );
    assert_eq!(links(Topology::Grid { width: 1, height: 3 }, 3), vec![(0, 1), (1, 2)]);
}

#[test]
fn too_few_nodes_are_refused() {
    assert_eq!(Topology::Line.links(1), Err(TopologyError::TooFewNodes));
    assert_eq!(Topology::Mesh.links(0), Err(TopologyError::TooFewNodes));
    assert_eq!(Topology::Grid { width: 1, height: 1 }.links(1), Err(TopologyError::TooFewNodes));
}

#[test]
fn mismatched_grid_is_refused() {
    assert_eq!(
        Topology::Grid { width: 2, height: 2 }.links(5),
        Err(TopologyError::GridMismatch { width: 2, height: 2, nodes: 5 })
    );
}

#[test]
fn random_degree_must_be_below_node_count() {
    assert_eq!(Topology::Random { degree: 3, seed: 1 }.links(3), Err(TopologyError::DegreeTooHigh));
    assert_eq!(Topology::Random { degree: 4, seed: 1 }.links(3), Err(TopologyError::DegreeTooHigh));
}

#[test]
fn random_links_pick_distinct_peers() {
    let n = 7;
    let degree = 3;
    let all = links(Topology::Random { degree, seed: 42 }, n);
    assert_eq!(all.len(), n * degree);
    for node in 0..n {
        let mut targets: Vec<usize> = all.iter().filter(|l| l.0 == node).map(|l| l.1).collect();
        assert_eq!(targets.len(), degree);
        assert!(targets.iter().all(|t| *t != node && *t < n));
        targets.sort();
        targets.dedup();
        assert_eq!(targets.len(), degree);
    }
}

#[test]
fn random_links_follow_the_mixer() {
    // the first proposal made to node 0 with seed 0 is attempt 1
    let mut x: u64 = 1u64.wrapping_mul(0x517cc1b727220a95);
    x ^= x >> 32;
    let first = (x as usize) % 5;
    let all = links(Topology::Random { degree: 1, seed: 0 }, 5);
    if first != 0 {
        assert_eq!(all[0], (0, first));
    }
    let again = links(Topology::Random { degree: 1, seed: 0 }, 5);
    assert_eq!(all, again);
}

#[test]
fn links_match_expected_connections() {
    let cases = [
        (Topology::Line, 6),
        (Topology::Ring, 6),
        (Topology::Mesh, 6),
        (Topology::Star, 6),
        (Topology::Tree, 6),
        (Topology::Grid { width: 2, height: 3 }, 6),
        (Topology::Grid { width: 4, height: 4 }, 16),
        (Topology::Random { degree: 2, seed: 99 }, 6),
    ];
    for (t, n) in cases {
        assert_eq!(links(t, n).len() * 2, t.num_expected_connections(n), "{t:?}");
    }
}

#[test]
fn links_never_join_a_node_to_itself() {
    for t in [Topology::Line, Topology::Ring, Topology::Mesh, Topology::Star, Topology::Tree] {
        for n in 2..9 {
            for (a, b) in links(t, n) {
                assert!(a != b && a < n && b < n);
            }
        }
    }
}

#[test]
fn links_never_repeat() {
    let cases = [
        (Topology::Line, 7),
        (Topology::Ring, 7),
        (Topology::Mesh, 7),
        (Topology::Star, 7),
        (Topology::Tree, 7),
        (Topology::Grid { width: 1, height: 5 }, 5),
        (Topology::Grid { width: 5, height: 1 }, 5),
        (Topology::Grid { width: 3, height: 4 }, 12),
        (Topology::Random { degree: 4, seed: 3 }, 7),
    ];
    for (t, n) in cases {
        let all = links(t, n);
        let mut sorted = all.clone();
        sorted.sort();
        sorted.dedup();
        assert_eq!(sorted.len(), all.len(), "{t:?}");
        assert!(all.iter().all(|(a, b)| a != b && *a < n && *b < n), "{t:?}");
    }
}

#[test]
fn mesh_contains_every_pair() {
    let all = links(Topology::Mesh, 6);
    for i in 0..6 {
        for j in (i + 1)..6 {
            assert!(all.contains(&(i, j)));
        }
    }
}

#[test]
fn only_random_topologies_go_on_after_a_connect_error() {
    assert!(Topology::Line.connect_errors_abort());
    assert!(Topology::Mesh.connect_errors_abort());
    assert!(Topology::Grid { width: 2, height: 2 }.connect_errors_abort());
    assert!(!Topology::Random { degree: 1, seed: 0 }.connect_errors_abort());
}
