use axiom_profiler::digraph::DiGraph;
use axiom_profiler::subgraph::{Subgraph, SubgraphError};
use axiom_profiler::digraph::Direction;

fn graph_of(nodes: usize, edges: &[(usize, usize)]) -> DiGraph {
    let mut g = DiGraph::new();
    for i in 0..nodes {
        assert_eq!(g.add_node(), Some(i));
    }
    for (k, &(a, b)) in edges.iter().enumerate() {
        assert_eq!(g.add_edge(a, b), Some(k));
    }
    g
}

fn reaches(nodes: usize, edges: &[(usize, usize)], from: usize, to: usize) -> bool {
    let mut seen = vec![false; nodes];
    let mut stack = vec![from];
    while let Some(v) = stack.pop() {
        if seen[v] {
            continue;
        }
        seen[v] = true;
        for &(a, b) in edges {
            if a == v && !seen[b] {
                stack.push(b);
            }
        }
    }
    seen[to]
}

fn component(nodes: usize, edges: &[(usize, usize)], root: usize) -> Vec<bool> {
    let mut seen = vec![false; nodes];
    let mut stack = vec![root];
    while let Some(v) = stack.pop() {
        if seen[v] {
            continue;
        }
        seen[v] = true;
        for &(a, b) in edges {
            if a == v && !seen[b] {
                stack.push(b);
            }
            if b == v && !seen[a] {
                stack.push(a);
            }
        }
    }
    seen
}

struct Lcg(u64);

impl Lcg {
    fn next(&mut self, bound: u64) -> u64 {
        self.0 = self.0.wrapping_mul(6364136223846793005).wrapping_add(1442695040888963407);
        (self.0 >> 33) % bound
    }
}

fn random_dag(rng: &mut Lcg, nodes: usize, density: u64) -> Vec<(usize, usize)> {
    let mut label: Vec<usize> = (0..nodes).collect();
    for i in (1..nodes).rev() {
        let j = rng.next(i as u64 + 1) as usize;
        label.swap(i, j);
    }
    let mut edges = Vec::new();
    for i in 0..nodes {
        for j in (i + 1)..nodes {
            if rng.next(100) < density {
                edges.push((label[i], label[j]));
            }
        }
    }
    edges
}

fn check_against_brute_force(nodes: usize, edges: &[(usize, usize)], root: usize) {
    let g = graph_of(nodes, edges);
    let sub = match Subgraph::new(root, &g) {
        Ok(sub) => sub,
        Err(e) => panic!("an acyclic component with a source must build: {:?}", e),
    };
    let in_component = component(nodes, edges, root);
    let ranked = sub.nodes().clone();
    assert_eq!(sub.len(), ranked.len());
    for v in 0..nodes {
        let times = ranked.iter().filter(|&&x| x == v).count();
        assert_eq!(times, if in_component[v] { 1 } else { 0 });
        match sub.rank_of(v) {
            Some(r) => assert_eq!(ranked[r as usize], v),
            None => assert!(!in_component[v]),
        }
    }
    for &(a, b) in edges {
        if in_component[a] {
            assert!(sub.rank_of(a).unwrap() < sub.rank_of(b).unwrap());
        }
    }
    let n = ranked.len() as u32;
    for from in 0..n {
        assert!(sub.in_transitive_closure(from, from));
        let listed = sub.reachable_from(from);
        for w in listed.windows(2) {
            assert!(w[0] < w[1]);
        }
        for to in 0..n {
            let expected = reaches(nodes, edges, ranked[from as usize], ranked[to as usize]);
            assert_eq!(sub.in_transitive_closure(from, to), expected);
            assert_eq!(listed.contains(&to), expected);
        }
        assert!(!sub.in_transitive_closure(from, n));
    }
}

#[test]
fn closure_matches_brute_force_on_random_dags() {
    let mut rng = Lcg(0x5eed);
    for round in 0..40u64 {
        let nodes = 1 + rng.next(50) as usize;
        let density = 3 + (round % 5) * 7;
        let edges = random_dag(&mut rng, nodes, density);
        let root = rng.next(nodes as u64) as usize;
        check_against_brute_force(nodes, &edges, root);
    }
}

#[test]
fn closure_of_a_diamond() {
    // 0 -> 1 -> 3, 0 -> 2 -> 3
    let edges = [(0, 1), (0, 2), (1, 3), (2, 3)];
    let g = graph_of(4, &edges);
    let sub = Subgraph::new(3, &g).ok().unwrap();
    assert_eq!(sub.len(), 4);
    assert_eq!(sub.nodes()[0], 0);
    assert_eq!(sub.nodes()[3], 3);
    assert_eq!(sub.rank_of(0), Some(0));
    assert_eq!(sub.rank_of(3), Some(3));
    assert_eq!(sub.reachable_from(0), vec![0, 1, 2, 3]);
    assert_eq!(sub.reachable_from(3), vec![3]);
    let r1 = sub.rank_of(1).unwrap();
    let r2 = sub.rank_of(2).unwrap();
    assert!(!sub.in_transitive_closure(r1, r2));
    assert!(!sub.in_transitive_closure(r2, r1));
    assert!(sub.in_transitive_closure(r1, 3));
    assert!(!sub.in_transitive_closure(3, 0));
}

#[test]
fn every_rank_reaches_itself() {
    let edges = [(2, 0), (0, 1), (4, 1)];
    let g = graph_of(5, &edges);
    let sub = Subgraph::new(1, &g).ok().unwrap();
    assert_eq!(sub.len(), 4);
    for i in 0..4u32 {
        assert!(sub.in_transitive_closure(i, i));
    }
    // node 3 is alone in another component
    assert_eq!(sub.rank_of(3), None);
}

#[test]
fn reachable_from_many_is_the_union() {
    let edges = [(0, 1), (1, 2), (3, 4), (4, 2), (0, 5)];
    let g = graph_of(6, &edges);
    let sub = Subgraph::new(0, &g).ok().unwrap();
    let a = sub.rank_of(1).unwrap();
    let b = sub.rank_of(4).unwrap();
    let both = sub.reachable_from_many(&vec![a, b]);
    let from_a = sub.reachable_from(a);
    let from_b = sub.reachable_from(b);
    for t in 0..sub.len() as u32 {
        assert_eq!(both.contains(t), from_a.contains(&t) || from_b.contains(&t));
    }
    assert_eq!(both.len() as usize, 3);
    assert!(both.contains(sub.rank_of(2).unwrap()));
    assert!(!both.contains(sub.rank_of(5).unwrap()));
    let none = sub.reachable_from_many(&Vec::new());
    assert!(none.is_empty());
    let out_of_range = sub.reachable_from_many(&vec![99]);
    assert!(out_of_range.is_empty());
}

#[test]
fn queries_out_of_range_find_nothing() {
    let g = graph_of(2, &[(0, 1)]);
    let sub = Subgraph::new(0, &g).ok().unwrap();
    assert!(!sub.in_transitive_closure(2, 0));
    assert!(!sub.in_transitive_closure(0, 2));
    assert_eq!(sub.reachable_from(7), Vec::<u32>::new());
    assert_eq!(sub.rank_of(9), None);
}

#[test]
fn unknown_root_is_refused() {
    let g = graph_of(2, &[(0, 1)]);
    assert_eq!(Subgraph::new(2, &g).err(), Some(SubgraphError::UnknownRoot));
}

#[test]
fn component_without_source_is_refused() {
    let g = graph_of(3, &[(0, 1), (1, 0)]);
    assert_eq!(Subgraph::new(0, &g).err(), Some(SubgraphError::NoSource));
    // the node outside the cycle still builds
    let alone = Subgraph::new(2, &g).ok().unwrap();
    assert_eq!(alone.len(), 1);
    assert_eq!(alone.reachable_from(0), vec![0]);
}

#[test]
fn cycle_behind_a_source_is_refused() {
    let g = graph_of(3, &[(0, 1), (1, 2), (2, 1)]);
    assert_eq!(Subgraph::new(0, &g).err(), Some(SubgraphError::Cyclic));
    assert_eq!(Subgraph::new(2, &g).err(), Some(SubgraphError::Cyclic));
    // a failed query leaves the graph as it was
    assert_eq!(g.node_count(), 3);
    assert_eq!(g.edge_count(), 3);
    assert_eq!(g.neighbors_directed(1, Direction::Incoming), vec![2, 0]);
}

#[test]
fn self_loop_is_refused() {
    let g = graph_of(2, &[(0, 1), (1, 1)]);
    assert_eq!(Subgraph::new(0, &g).err(), Some(SubgraphError::Cyclic));
}

#[test]
fn from_order_takes_only_topological_orders_of_the_component() {
    let edges = [(0, 1), (0, 2), (1, 3), (2, 3)];
    let g = graph_of(5, &edges);
    assert!(Subgraph::from_order(&g, 0, vec![0, 1, 2, 3]).is_some());
    assert!(Subgraph::from_order(&g, 0, vec![0, 2, 1, 3]).is_some());
    // an edge that does not climb
    assert!(Subgraph::from_order(&g, 0, vec![1, 0, 2, 3]).is_none());
    // a node of the component is missing
    assert!(Subgraph::from_order(&g, 0, vec![0, 1, 2]).is_none());
    // a node stands twice
    assert!(Subgraph::from_order(&g, 0, vec![0, 1, 1, 2, 3]).is_none());
    // a number that is no node
    assert!(Subgraph::from_order(&g, 0, vec![0, 1, 2, 3, 9]).is_none());
    // the root is not ranked
    assert!(Subgraph::from_order(&g, 0, vec![4]).is_none());
    assert!(Subgraph::from_order(&g, 4, vec![4]).is_some());
    // other components may be ranked along
    let wide = Subgraph::from_order(&g, 0, vec![4, 0, 1, 2, 3]).unwrap();
    assert_eq!(wide.reachable_from(0), vec![0]);
    assert_eq!(wide.reachable_from(1), vec![1, 2, 3, 4]);
}

#[test]
fn parallel_edges_change_nothing() {
    let g = graph_of(3, &[(0, 1), (0, 1), (1, 2)]);
    let sub = Subgraph::new(1, &g).ok().unwrap();
    assert_eq!(sub.nodes().clone(), vec![0, 1, 2]);
    assert_eq!(sub.reachable_from(0), vec![0, 1, 2]);
    assert_eq!(sub.reachable_from(1), vec![1, 2]);
}

#[test]
fn digraph_keeps_what_was_added() {
    let mut g = DiGraph::new();
    assert_eq!(g.node_count(), 0);
    assert_eq!(g.add_edge(0, 0), None);
    assert_eq!(g.add_node(), Some(0));
    assert_eq!(g.add_node(), Some(1));
    assert_eq!(g.add_node(), Some(2));
    assert_eq!(g.add_edge(0, 1), Some(0));
    assert_eq!(g.add_edge(0, 2), Some(1));
    assert_eq!(g.add_edge(2, 1), Some(2));
    assert_eq!(g.add_edge(0, 3), None);
    assert_eq!(g.node_count(), 3);
    assert_eq!(g.edge_count(), 3);
    assert_eq!(g.edge_endpoints(1), Some((0, 2)));
    assert_eq!(g.edge_endpoints(3), None);
    // latest edge first
    assert_eq!(g.neighbors_directed(0, Direction::Outgoing), vec![2, 1]);
    assert_eq!(g.neighbors_directed(1, Direction::Incoming), vec![2, 0]);
    assert_eq!(g.neighbors_directed(1, Direction::Outgoing), Vec::<usize>::new());
    assert_eq!(g.neighbors_directed(5, Direction::Outgoing), Vec::<usize>::new());
}

#[test]
fn walks_visit_what_they_should() {
    let g = graph_of(5, &[(0, 1), (1, 2), (3, 1), (4, 4)]);
    let mut down = g.dfs(1);
    down.sort();
    assert_eq!(down, vec![1, 2]);
    let mut up = g.dfs_reversed(1);
    up.sort();
    assert_eq!(up, vec![0, 1, 3]);
    let mut around = g.dfs_undirected(2);
    around.sort();
    assert_eq!(around, vec![0, 1, 2, 3]);
    assert_eq!(g.dfs(0)[0], 0);
    assert_eq!(g.dfs(9), Vec::<usize>::new());
    assert_eq!(g.dfs_reversed(9), Vec::<usize>::new());
    assert_eq!(g.dfs_undirected(9), Vec::<usize>::new());
    let order = g.topo(&vec![0, 3]);
    assert_eq!(order.len(), 4);
    let pos = |v: usize| order.iter().position(|&x| x == v).unwrap();
    assert!(pos(0) < pos(1));
    assert!(pos(3) < pos(1));
    assert!(pos(1) < pos(2));
    // a seed with incoming edges is passed over
    assert_eq!(g.topo(&vec![2]), Vec::<usize>::new());
    // a seed that is no node stops the walk before it starts
    assert_eq!(g.topo(&vec![0, 5]), Vec::<usize>::new());
}
