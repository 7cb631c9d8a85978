//! A weighted graph over named nodes, kept as an adjacency table.
//!
//! The table is a list of rows, one per node, in the order in which the nodes were added.
//! A row holds the node's name and its outgoing edges, in the order in which they were added.
//! No name occurs in two rows.

use vstd::prelude::*;

verus! {

/// One row of the table as mathematics: a node's name and its outgoing `(to, weight)` edges.
pub type Row = (Seq<char>, Seq<(Seq<char>, i32)>);

/// One edge as mathematics: `(from, to, weight)`.
pub type Edge = (Seq<char>, Seq<char>, i32);

/// Some row of `t` is named `name`.
pub open spec fn has_node(t: Seq<Row>, name: Seq<char>) -> bool {
    exists|i: int| 0 <= i < t.len() && (#[trigger] t[i]).0 == name
}

/// The index of a row of `t` named `name`.
pub open spec fn row_of(t: Seq<Row>, name: Seq<char>) -> int {
    choose|i: int| 0 <= i < t.len() && (#[trigger] t[i]).0 == name
}

/// No name occurs in two rows.
pub open spec fn distinct_names(t: Seq<Row>) -> bool {
    forall|i: int, j: int| 0 <= i < j < t.len() ==> (#[trigger] t[i]).0 != (#[trigger] t[j]).0
}

/// The names of the nodes, in table order.
pub open spec fn node_names(t: Seq<Row>) -> Seq<Seq<char>> {
    Seq::new(t.len(), |i: int| t[i].0)
}

/// `t` with a node named `name`: where there is none yet, a row without edges is appended.
pub open spec fn with_node(t: Seq<Row>, name: Seq<char>) -> Seq<Row> {
    if has_node(t, name) {
        t
    } else {
        t.push((name, Seq::empty()))
    }
}

/// `t` with the row of `name` holding `edges`: the row is replaced, and where there is none
/// yet, one is appended.
pub open spec fn with_row(t: Seq<Row>, name: Seq<char>, edges: Seq<(Seq<char>, i32)>) -> Seq<
    Row,
> {
    if has_node(t, name) {
        t.update(row_of(t, name), (name, edges))
    } else {
        t.push((name, edges))
    }
}

/// `t` with the entry `from -> to` of the given weight: it is appended to the row of `from`,
/// and where there is no such row, one is appended that holds just this entry.
pub open spec fn with_entry(t: Seq<Row>, from: Seq<char>, to: Seq<char>, weight: i32) -> Seq<
    Row,
> {
    if has_node(t, from) {
        let i = row_of(t, from);
        t.update(i, (from, t[i].1.push((to, weight))))
    } else {
        t.push((from, seq![(to, weight)]))
    }
}

/// `t` after a directed edge was added: both nodes exist and `from -> to` is recorded.
pub open spec fn with_directed_edge(
    t: Seq<Row>,
    from: Seq<char>,
    to: Seq<char>,
    weight: i32,
) -> Seq<Row> {
    with_entry(with_node(with_node(t, from), to), from, to, weight)
}

/// `t` after an undirected edge was added: both nodes exist, `a -> b` is recorded and then
/// `b -> a`, with the same weight.
pub open spec fn with_undirected_edge(t: Seq<Row>, a: Seq<char>, b: Seq<char>, weight: i32) -> Seq<
    Row,
> {
    with_entry(with_directed_edge(t, a, b, weight), b, a, weight)
}

/// The edges that one row records.
pub open spec fn row_edges(row: Row) -> Seq<Edge> {
    Seq::new(row.1.len(), |k: int| (row.0, row.1[k].0, row.1[k].1))
}

/// All edges of the table, row by row: one per directed entry.
pub open spec fn edge_list(t: Seq<Row>) -> Seq<Edge>
    decreases t.len(),
{
    if t.len() == 0 {
        Seq::empty()
    } else {
        edge_list(t.drop_last()) + row_edges(t.last())
    }
}

/// Where no name occurs twice, a row with the name is the row of that name.
pub proof fn lemma_row_is_unique(t: Seq<Row>, name: Seq<char>, i: int)
    requires
        distinct_names(t),
        0 <= i < t.len(),
        t[i].0 == name,
    ensures
        has_node(t, name),
        row_of(t, name) == i,
{
    let j = row_of(t, name);
    assert(t[j].0 == name);
    if j < i {
        assert(t[j].0 != t[i].0);
    } else if i < j {
        assert(t[i].0 != t[j].0);
    }
}

/// Setting a row keeps the names distinct.
pub proof fn lemma_with_row_distinct(t: Seq<Row>, name: Seq<char>, edges: Seq<(Seq<char>, i32)>)
    requires
        distinct_names(t),
    ensures
        distinct_names(with_row(t, name, edges)),
{
    let u = with_row(t, name, edges);
    assert forall|i: int, j: int| 0 <= i < j < u.len() implies (#[trigger] u[i]).0 != (
    #[trigger] u[j]).0 by {
        if has_node(t, name) {
            assert(u[i].0 == t[i].0 && u[j].0 == t[j].0);
        } else if j == t.len() {
            assert(t[i].0 != name);
        }
    }
}

/// Recording an entry keeps the names distinct.
pub proof fn lemma_with_entry_distinct(t: Seq<Row>, from: Seq<char>, to: Seq<char>, weight: i32)
    requires
        distinct_names(t),
    ensures
        distinct_names(with_entry(t, from, to, weight)),
{
    if has_node(t, from) {
        let i = row_of(t, from);
        assert(with_entry(t, from, to, weight) == with_row(t, from, t[i].1.push((to, weight))));
        lemma_with_row_distinct(t, from, t[i].1.push((to, weight)));
    } else {
        assert(with_entry(t, from, to, weight) == with_row(t, from, seq![(to, weight)]));
        lemma_with_row_distinct(t, from, seq![(to, weight)]);
    }
}

/// Entry `k` of row `i` of `t` is the edge `e`.
pub open spec fn records(t: Seq<Row>, i: int, k: int, e: Edge) -> bool {
    &&& 0 <= i < t.len()
    &&& 0 <= k < t[i].1.len()
    &&& e == (t[i].0, t[i].1[k].0, t[i].1[k].1)
}

/// An edge is listed exactly if some row records it.
pub proof fn lemma_edge_listed(t: Seq<Row>, e: Edge)
    ensures
        edge_list(t).contains(e) <==> exists|i: int, k: int| records(t, i, k, e),
    decreases t.len(),
{
    if t.len() > 0 {
        let init = t.drop_last();
        let last = t.len() - 1;
        lemma_edge_listed(init, e);
        if edge_list(t).contains(e) {
            let n = choose|n: int| 0 <= n < edge_list(t).len() && edge_list(t)[n] == e;
            if n < edge_list(init).len() {
                assert(edge_list(init)[n] == e);
                let (i, k) = choose|i: int, k: int| records(init, i, k, e);
                assert(records(t, i, k, e));
            } else {
                assert(row_edges(t.last())[n - edge_list(init).len()] == e);
                assert(records(t, last, n - edge_list(init).len(), e));
            }
        }
        if exists|i: int, k: int| records(t, i, k, e) {
            let (i, k) = choose|i: int, k: int| records(t, i, k, e);
            if i == last {
                assert(edge_list(t)[edge_list(init).len() + k] == e);
            } else {
                assert(records(init, i, k, e));
                let n = choose|n: int| 0 <= n < edge_list(init).len() && edge_list(init)[n] == e;
                assert(edge_list(t)[n] == e);
            }
        }
    }
}

/// Recording an entry lists its edge and the node it starts from, and keeps every node and
/// every edge that was listed.
pub proof fn lemma_entry_recorded(t: Seq<Row>, from: Seq<char>, to: Seq<char>, weight: i32)
    ensures
        has_node(with_entry(t, from, to, weight), from),
        edge_list(with_entry(t, from, to, weight)).contains((from, to, weight)),
        forall|name: Seq<char>|
            has_node(t, name) ==> has_node(with_entry(t, from, to, weight), name),
        forall|e: Edge|
            edge_list(t).contains(e) ==> edge_list(with_entry(t, from, to, weight)).contains(e),
{
    let u = with_entry(t, from, to, weight);
    let at = if has_node(t, from) {
        row_of(t, from)
    } else {
        t.len() as int
    };
    assert(u[at].0 == from);
    assert(records(u, at, u[at].1.len() - 1, (from, to, weight)));
    lemma_edge_listed(u, (from, to, weight));
    assert forall|name: Seq<char>| has_node(t, name) implies has_node(u, name) by {
        let i = row_of(t, name);
        assert(u[i].0 == name);
    }
    assert forall|e: Edge| edge_list(t).contains(e) implies edge_list(u).contains(e) by {
        lemma_edge_listed(t, e);
        let (i, k) = choose|i: int, k: int| records(t, i, k, e);
        assert(records(u, i, k, e));
        lemma_edge_listed(u, e);
    }
}

/// After a directed edge was added both nodes exist and the edge is listed.
pub proof fn lemma_directed_edge_recorded(t: Seq<Row>, from: Seq<char>, to: Seq<char>, weight: i32)
    ensures
        has_node(with_directed_edge(t, from, to, weight), from),
        has_node(with_directed_edge(t, from, to, weight), to),
        edge_list(with_directed_edge(t, from, to, weight)).contains((from, to, weight)),
{
    lemma_with_node(with_node(t, from), to);
    lemma_entry_recorded(with_node(with_node(t, from), to), from, to, weight);
}

/// After an undirected edge was added both nodes exist and the edge is listed in both
/// directions.
pub proof fn lemma_undirected_edge_recorded(t: Seq<Row>, a: Seq<char>, b: Seq<char>, weight: i32)
    ensures
        has_node(with_undirected_edge(t, a, b, weight), a),
        has_node(with_undirected_edge(t, a, b, weight), b),
        edge_list(with_undirected_edge(t, a, b, weight)).contains((a, b, weight)),
        edge_list(with_undirected_edge(t, a, b, weight)).contains((b, a, weight)),
{
    lemma_directed_edge_recorded(t, a, b, weight);
    lemma_entry_recorded(with_directed_edge(t, a, b, weight), b, a, weight);
}

/// Adding a node makes it a node, and keeps every node.
pub proof fn lemma_with_node(t: Seq<Row>, name: Seq<char>)
    ensures
        has_node(with_node(t, name), name),
        forall|other: Seq<char>| has_node(t, other) ==> has_node(with_node(t, name), other),
{
    let u = with_node(t, name);
    if !has_node(t, name) {
        assert(u[t.len() as int].0 == name);
    }
    assert forall|other: Seq<char>| has_node(t, other) implies has_node(u, other) by {
        let i = row_of(t, other);
        assert(u[i].0 == other);
    }
}

/// The adjacency table: rows of `(name, edges)` with no name in two rows.
pub struct AdjacencyTable {
    rows: Vec<(String, Vec<(String, i32)>)>,
}

impl View for AdjacencyTable {
    type V = Seq<Row>;

    closed spec fn view(&self) -> Seq<Row> {
        self.rows.deep_view()
    }
}

impl AdjacencyTable {
    #[verifier::type_invariant]
    spec fn names_are_distinct(&self) -> bool {
        distinct_names(self@)
    }

    /// An empty table.
    pub fn new() -> (table: Self)
        ensures
            table@ == Seq::<Row>::empty(),
    {
        let table = AdjacencyTable { rows: Vec::new() };
        assert(table@ =~= Seq::<Row>::empty());
        table
    }

    /// The number of rows.
    pub fn len(&self) -> (n: usize)
        ensures
            n == self@.len(),
    {
        self.rows.len()
    }

    /// The index of the row named `name`, if there is one.
    pub fn find(&self, name: &str) -> (found: Option<usize>)
        ensures
            distinct_names(self@),
            match found {
                Some(i) => i < self@.len() && self@[i as int].0 == name@,
                None => !has_node(self@, name@),
            },
    {
        proof {
            use_type_invariant(&*self);
        }
        let key = name.to_owned();
        let mut i: usize = 0;
        while i < self.rows.len()
            invariant
                i <= self.rows.len(),
                key@ == name@,
                distinct_names(self@),
                forall|k: int| 0 <= k < i ==> (#[trigger] self@[k]).0 != name@,
            decreases self.rows.len() - i,
        {
            if self.rows[i].0 == key {
                assert(self@[i as int].0 == name@);
                return Some(i);
            }
            i += 1;
        }
        None
    }

    /// Whether a row is named `name`.
    pub fn contains_key(&self, name: &str) -> (r: bool)
        ensures
            r == has_node(self@, name@),
    {
        self.find(name).is_some()
    }

    /// Gives the node `name` the edges `edges`: its row is replaced, and where there is none
    /// yet, one is appended.
    pub fn insert(&mut self, name: String, edges: Vec<(String, i32)>)
        ensures
            final(self)@ == with_row(old(self)@, name@, edges.deep_view()),
    {
        let found = self.find(name.as_str());
        proof {
            if let Some(i) = found {
                lemma_row_is_unique(self@, name@, i as int);
            }
        }
        let mut rows = Vec::new();
        std::mem::swap(&mut rows, &mut self.rows);
        let ghost wanted = with_row(old(self)@, name@, edges.deep_view());
        match found {
            Some(i) => {
                rows[i] = (name, edges);
            },
            None => {
                rows.push((name, edges));
            },
        }
        assert(rows.deep_view() =~= wanted);
        proof {
            lemma_with_row_distinct(old(self)@, name@, edges.deep_view());
        }
        self.rows = rows;
    }

    /// Records the entry `from -> to` of the given weight: it is appended to the row of
    /// `from`, and where there is none yet, a row with just this entry is appended.
    pub fn append(&mut self, from: String, to: String, weight: i32)
        ensures
            final(self)@ == with_entry(old(self)@, from@, to@, weight),
    {
        let found = self.find(from.as_str());
        proof {
            if let Some(i) = found {
                lemma_row_is_unique(self@, from@, i as int);
            }
        }
        let mut rows = Vec::new();
        std::mem::swap(&mut rows, &mut self.rows);
        let ghost wanted = with_entry(old(self)@, from@, to@, weight);
        match found {
            Some(i) => {
                rows[i].1.push((to, weight));
                assert(rows@[i as int].1.deep_view() =~= old(self)@[i as int].1.push(
                    (to@, weight),
                ));
            },
            None => {
                let mut edges = Vec::new();
                edges.push((to, weight));
                assert(edges.deep_view() =~= seq![(to@, weight)]);
                rows.push((from, edges));
            },
        }
        assert(rows.deep_view() =~= wanted);
        proof {
            lemma_with_entry_distinct(old(self)@, from@, to@, weight);
        }
        self.rows = rows;
    }

    /// The row at index `i`.
    pub fn row(&self, i: usize) -> (row: &(String, Vec<(String, i32)>))
        requires
            i < self@.len(),
        ensures
            row.deep_view() == self@[i as int],
    {
        &self.rows[i]
    }

    /// The names of the nodes, in table order. No name occurs twice.
    pub fn names(&self) -> (names: Vec<&String>)
        ensures
            names.deep_view() == node_names(self@),
            node_names(self@).no_duplicates(),
    {
        proof {
            use_type_invariant(&*self);
        }
        let mut names: Vec<&String> = Vec::new();
        let n = self.rows.len();
        assert(names.deep_view() =~= node_names(self@).take(0));
        for i in 0..n
            invariant
                n == self@.len(),
                names@.len() == i,
                names.deep_view() == node_names(self@).take(i as int),
        {
            let ghost before = names;
            names.push(&self.rows[i].0);
            assert(names.deep_view() =~= before.deep_view().push(self@[i as int].0));
            assert(names.deep_view() =~= node_names(self@).take(i + 1));
        }
        assert(node_names(self@).take(self@.len() as int) =~= node_names(self@));
        names
    }
}

/// The failure of a lookup that named a node which the graph does not hold.
#[derive(Debug, Clone)]
pub struct NodeNotInGraph;

impl NodeNotInGraph {
    /// The message of this failure.
    pub fn to_string(&self) -> (message: String)
        ensures
            message@ == "accessing a node that is not in the graph"@,
    {
        "accessing a node that is not in the graph".to_owned()
    }
}

/// A weighted graph kept in an adjacency table. An implementor says where the table is and
/// how a new graph is made; the operations come with the trait. The directed reading of
/// `add_edge` is the default; a variant may record more, as [`UndirectedGraph`] does.
///
/// What is proved through this trait holds of every implementor that meets the contracts of
/// `new` and of the two accessors. For an implementor inside verified code that is proved;
/// for one outside it is taken on trust.
pub trait Graph: Sized {
    /// The adjacency table as mathematics. An implementor defines it as the view of the table
    /// that its two accessors hand out.
    open spec fn table(&self) -> Seq<Row> {
        arbitrary()
    }

    /// A graph without nodes.
    fn new() -> (graph: Self)
        ensures
            graph.table() == Seq::<Row>::empty(),
    ;

    /// The adjacency table, to be changed.
    fn adjacency_table_mutable(&mut self) -> (table: &mut AdjacencyTable)
        ensures
            table@ == old(self).table(),
            final(self).table() == final(table)@,
    ;

    /// The adjacency table.
    fn adjacency_table(&self) -> (table: &AdjacencyTable)
        ensures
            table@ == self.table(),
    ;

    /// Adds the node `node` unless the graph holds it already, and says whether it was added.
    fn add_node(&mut self, node: &str) -> (added: bool)
        ensures
            added == !has_node(old(self).table(), node@),
            final(self).table() == with_node(old(self).table(), node@),
    {
        let node_str = node.to_owned();
        if self.contains(node) {
            false
        } else {
            let edges: Vec<(String, i32)> = Vec::new();
            assert(edges.deep_view() =~= Seq::empty());
            self.adjacency_table_mutable().insert(node_str, edges);
            true
        }
    }

    /// Adds the edge `(from, to, weight)`. Both nodes are added where they are missing, and
    /// the entry `from -> to` is recorded. By default nothing else is.
    fn add_edge(&mut self, edge: (&str, &str, i32))
        ensures
            has_node(final(self).table(), edge.0@),
            has_node(final(self).table(), edge.1@),
            edge_list(final(self).table()).contains((edge.0@, edge.1@, edge.2)),
        default_ensures
            final(self).table() == with_directed_edge(
                old(self).table(),
                edge.0@,
                edge.1@,
                edge.2,
            ),
    {
        let (node1, node2, weight) = edge;
        self.add_node(node1);
        self.add_node(node2);
        let table = self.adjacency_table_mutable();
        table.append(node1.to_owned(), node2.to_owned(), weight);
        proof {
            lemma_directed_edge_recorded(old(self).table(), node1@, node2@, weight);
        }
    }

    /// Whether the graph holds the node `node`.
    fn contains(&self, node: &str) -> (r: bool)
        ensures
            r == has_node(self.table(), node@),
    {
        self.adjacency_table().contains_key(node)
    }

    /// The names of all nodes, each once, in the order in which the nodes were added.
    fn nodes(&self) -> (names: Vec<&String>)
        ensures
            names.deep_view() == node_names(self.table()),
            node_names(self.table()).no_duplicates(),
    {
        self.adjacency_table().names()
    }

    /// All edges as `(from, to, weight)`, one per directed entry of the table: row by row,
    /// and within a row in the order in which the entries were recorded.
    fn edges(&self) -> (edges: Vec<(&String, &String, i32)>)
        ensures
            edges.deep_view() == edge_list(self.table()),
    {
        let table = self.adjacency_table();
        let mut edges: Vec<(&String, &String, i32)> = Vec::new();
        assert(edges.deep_view() =~= edge_list(table@.take(0)));
        let n = table.len();
        for i in 0..n
            invariant
                n == table@.len(),
                table@ == self.table(),
                edges.deep_view() == edge_list(table@.take(i as int)),
        {
            let row = table.row(i);
            assert(edges.deep_view() =~= edge_list(table@.take(i as int)) + row_edges(
                table@[i as int],
            ).take(0));
            let m = row.1.len();
            for k in 0..m
                invariant
                    i < table@.len(),
                    m == row.1@.len(),
                    row.deep_view() == table@[i as int],
                    edges.deep_view() == edge_list(table@.take(i as int)) + row_edges(
                        table@[i as int],
                    ).take(k as int),
            {
                let ghost before = edges;
                edges.push((&row.0, &row.1[k].0, row.1[k].1));
                assert(edges.deep_view() =~= before.deep_view().push(
                    row_edges(table@[i as int])[k as int],
                ));
                assert(edges.deep_view() =~= edge_list(table@.take(i as int)) + row_edges(
                    table@[i as int],
                ).take(k + 1));
            }
            assert(row_edges(table@[i as int]).take(m as int) =~= row_edges(
                table@[i as int],
            ));
            assert(table@.take(i + 1).drop_last() =~= table@.take(i as int));
        }
        assert(table@.take(table@.len() as int) =~= table@);
        edges
    }
}

/// An undirected graph: every edge is recorded in both directions.
pub struct UndirectedGraph {
    adjacency_table: AdjacencyTable,
}

impl Graph for UndirectedGraph {
    closed spec fn table(&self) -> Seq<Row> {
        self.adjacency_table@
    }

    fn new() -> (graph: UndirectedGraph) {
        UndirectedGraph { adjacency_table: AdjacencyTable::new() }
    }

    fn adjacency_table_mutable(&mut self) -> (table: &mut AdjacencyTable) {
        &mut self.adjacency_table
    }

    fn adjacency_table(&self) -> (table: &AdjacencyTable) {
        &self.adjacency_table
    }

    /// Adds the edge between `a` and `b`. Both nodes are added where they are missing; the
    /// entry `a -> b` is recorded and then the entry `b -> a`, with the same weight.
    fn add_edge(&mut self, edge: (&str, &str, i32))
        ensures
            final(self).table() == with_undirected_edge(
                old(self).table(),
                edge.0@,
                edge.1@,
                edge.2,
            ),
            edge_list(final(self).table()).contains((edge.1@, edge.0@, edge.2)),
    {
        let (node1, node2, weight) = edge;
        self.add_node(node1);
        self.add_node(node2);
        let table = self.adjacency_table_mutable();
        table.append(node1.to_owned(), node2.to_owned(), weight);
        table.append(node2.to_owned(), node1.to_owned(), weight);
        proof {
            lemma_undirected_edge_recorded(old(self).table(), node1@, node2@, weight);
        }
    }
}

} // verus!
