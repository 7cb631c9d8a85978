use algorithms::graph::{AdjacencyTable, Graph, NodeNotInGraph, UndirectedGraph};

#[test]
fn test_add_edge() {
    let mut graph = UndirectedGraph::new();
    graph.add_edge(("a", "b", 5));
    graph.add_edge(("b", "c", 10));
    graph.add_edge(("c", "a", 7));
    let expected_edges = [
        (&String::from("a"), &String::from("b"), 5),
        (&String::from("b"), &String::from("a"), 5),
        (&String::from("c"), &String::from("a"), 7),
        (&String::from("a"), &String::from("c"), 7),
        (&String::from("b"), &String::from("c"), 10),
        (&String::from("c"), &String::from("b"), 10),
    ];
    for edge in expected_edges.iter() {
        assert_eq!(graph.edges().contains(edge), true);
    }
}

fn owned(edges: Vec<(&String, &String, i32)>) -> Vec<(String, String, i32)> {
    edges
        .into_iter()
        .map(|(from, to, weight)| (from.clone(), to.clone(), weight))
        .collect()
}

fn edge(from: &str, to: &str, weight: i32) -> (String, String, i32) {
    (String::from(from), String::from(to), weight)
}

#[test]
fn new_graph_has_no_nodes_and_no_edges() {
    let graph = UndirectedGraph::new();
    assert!(graph.nodes().is_empty());
    assert!(graph.edges().is_empty());
    assert!(!graph.contains("a"));
}

#[test]
fn add_node_says_whether_the_node_is_new() {
    let mut graph = UndirectedGraph::new();
    assert_eq!(graph.add_node("a"), true);
    assert_eq!(graph.add_node("b"), true);
    assert_eq!(graph.add_node("a"), false);
    assert!(graph.contains("a"));
    assert!(graph.contains("b"));
    assert!(!graph.contains("c"));
    assert_eq!(graph.nodes(), vec![&String::from("a"), &String::from("b")]);
    assert!(graph.edges().is_empty());
}

#[test]
fn undirected_edge_is_listed_in_both_directions() {
    let mut graph = UndirectedGraph::new();
    graph.add_edge(("a", "b", 5));
    assert_eq!(owned(graph.edges()), vec![edge("a", "b", 5), edge("b", "a", 5)]);
    assert_eq!(graph.nodes(), vec![&String::from("a"), &String::from("b")]);
}

#[test]
fn edges_come_row_by_row_in_insertion_order() {
    let mut graph = UndirectedGraph::new();
    graph.add_edge(("a", "b", 5));
    graph.add_edge(("b", "c", 10));
    graph.add_edge(("c", "a", 7));
    assert_eq!(
        owned(graph.edges()),
        vec![
            edge("a", "b", 5),
            edge("a", "c", 7),
            edge("b", "a", 5),
            edge("b", "c", 10),
            edge("c", "b", 10),
            edge("c", "a", 7),
        ]
    );
    assert_eq!(
        graph.nodes(),
        vec![&String::from("a"), &String::from("b"), &String::from("c")]
    );
}

#[test]
fn add_edge_keeps_nodes_that_exist() {
    let mut graph = UndirectedGraph::new();
    graph.add_node("b");
    graph.add_edge(("a", "b", -3));
    assert_eq!(graph.nodes(), vec![&String::from("b"), &String::from("a")]);
    assert_eq!(owned(graph.edges()), vec![edge("b", "a", -3), edge("a", "b", -3)]);
    assert_eq!(graph.add_node("a"), false);
}

#[test]
fn a_loop_edge_is_recorded_twice_on_its_node() {
    let mut graph = UndirectedGraph::new();
    graph.add_edge(("a", "a", 1));
    assert_eq!(graph.nodes(), vec![&String::from("a")]);
    assert_eq!(owned(graph.edges()), vec![edge("a", "a", 1), edge("a", "a", 1)]);
}

#[test]
fn parallel_edges_are_all_kept() {
    let mut graph = UndirectedGraph::new();
    graph.add_edge(("a", "b", 1));
    graph.add_edge(("a", "b", 2));
    assert_eq!(
        owned(graph.edges()),
        vec![edge("a", "b", 1), edge("a", "b", 2), edge("b", "a", 1), edge("b", "a", 2)]
    );
}

struct DirectedGraph {
    table: AdjacencyTable,
}

impl Graph for DirectedGraph {
    fn new() -> DirectedGraph {
        DirectedGraph { table: AdjacencyTable::new() }
    }

    fn adjacency_table_mutable(&mut self) -> &mut AdjacencyTable {
        &mut self.table
    }

    fn adjacency_table(&self) -> &AdjacencyTable {
        &self.table
    }
}

#[test]
fn default_add_edge_records_one_direction() {
    let mut graph = DirectedGraph::new();
    graph.add_edge(("a", "b", 5));
    graph.add_edge(("b", "c", 10));
    assert_eq!(
        graph.nodes(),
        vec![&String::from("a"), &String::from("b"), &String::from("c")]
    );
    assert_eq!(owned(graph.edges()), vec![edge("a", "b", 5), edge("b", "c", 10)]);
    assert!(graph.contains("c"));
}

#[test]
fn table_insert_replaces_the_row_of_a_known_name() {
    let mut table = AdjacencyTable::new();
    table.insert(String::from("a"), vec![(String::from("b"), 1)]);
    table.insert(String::from("c"), Vec::new());
    table.insert(String::from("a"), vec![(String::from("d"), 2)]);
    assert_eq!(table.len(), 2);
    assert_eq!(table.find("a"), Some(0));
    assert_eq!(table.find("c"), Some(1));
    assert_eq!(table.find("d"), None);
    assert!(table.contains_key("c"));
    assert!(!table.contains_key("b"));
    assert_eq!(table.row(0), &(String::from("a"), vec![(String::from("d"), 2)]));
    assert_eq!(table.names(), vec![&String::from("a"), &String::from("c")]);
}

#[test]
fn table_append_makes_a_row_where_there_is_none() {
    let mut table = AdjacencyTable::new();
    table.append(String::from("a"), String::from("b"), 4);
    table.append(String::from("a"), String::from("c"), 6);
    assert_eq!(table.len(), 1);
    assert_eq!(
        table.row(0),
        &(String::from("a"), vec![(String::from("b"), 4), (String::from("c"), 6)])
    );
}

#[test]
fn node_not_in_graph_has_its_message() {
    let failure = NodeNotInGraph;
    assert_eq!(failure.to_string(), "accessing a node that is not in the graph");
    assert_eq!(failure.clone().to_string(), failure.to_string());
}

#[test]
fn names_and_weights_are_kept_as_given() {
    let mut graph = UndirectedGraph::new();
    graph.add_edge(("", "Zürich", i32::MIN));
    graph.add_edge(("Zürich", "zürich", i32::MAX));
    assert_eq!(
        graph.nodes(),
        vec![&String::new(), &String::from("Zürich"), &String::from("zürich")]
    );
    assert_eq!(
        owned(graph.edges()),
        vec![
            edge("", "Zürich", i32::MIN),
            edge("Zürich", "", i32::MIN),
            edge("Zürich", "zürich", i32::MAX),
            edge("zürich", "Zürich", i32::MAX),
        ]
    );
    assert!(graph.contains(""));
    assert!(!graph.contains("zurich"));
}

#[test]
fn adjacency_table_can_be_read_and_changed_through_the_graph() {
    let mut graph = UndirectedGraph::new();
    graph.add_node("a");
    graph.adjacency_table_mutable().append(String::from("a"), String::from("b"), 3);
    assert_eq!(graph.adjacency_table().len(), 1);
    assert_eq!(owned(graph.edges()), vec![edge("a", "b", 3)]);
    assert!(!graph.contains("b"));
}
