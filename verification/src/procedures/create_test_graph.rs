//! A procedure that adds a small graph of people who know each other.

use vstd::prelude::*;

#[allow(unused_imports)]
use crate::catalog::{
    has_graph, ContainerView, EdgeTypeView, GraphTypeView, PropertyView, VertexTypeView,
};
use crate::catalog::{EdgeType, GraphContainer, GraphType, Property, SchemaCatalog, VertexType};
#[allow(unused_imports)]
use crate::common::data_type::TypeView;
use crate::common::data_type::{DataSchemaRef, LogicalType};
use crate::common::types::{EdgeId, LabelId, VertexId};
use crate::common::value::ScalarValue;
#[allow(unused_imports)]
use crate::storage::error::ErrorView;
use crate::storage::properties::PropertyRecord;
use crate::storage::tp::checkpoint::manager::CheckpointManagerConfig;
#[allow(unused_imports)]
use crate::storage::tp::checkpoint::recovery::auto_checks;
#[allow(unused_imports)]
use crate::storage::tp::gc::{collects_periodically, gc_due};
#[allow(unused_imports)]
use crate::storage::tp::laws::{is_about_edge, is_about_vertex, lemma_stamps};
#[allow(unused_imports)]
use crate::storage::tp::manager::{is_least, least_key, ManagerView};
use crate::storage::tp::memory_graph::MemoryGraph;
#[allow(unused_imports)]
use crate::storage::tp::memory_graph::{
    linked_incoming, linked_outgoing, neighbors_of, with_change, with_edge, with_vertex, GraphView,
};
#[allow(unused_imports)]
use crate::storage::tp::model::{
    Adjacency, DeltaView, EdgeView, OperationView, RedoView, StoreView, UndoView, VertexView,
};
use crate::storage::tp::model::{Edge, IsolationLevel, Timestamp, Vertex};
use crate::storage::tp::outside::Outside;
#[allow(unused_imports)]
use crate::storage::tp::outside::{asked, goes_on, lemma_nothing, log_is_safe};
use crate::storage::tp::transaction::MemTransaction;
#[allow(unused_imports)]
use crate::storage::tp::transaction::{
    all_stampable, all_stamped, all_undoable, commit_log, commit_outcome, commits, graph_finishes,
    logs, reads_valid, settles, stampable, stamped, txn_ok, undone, TxnView,
};

verus! {

/// The label of people.
pub const PERSON: u32 = 1;

/// The label of acquaintances.
pub const KNOWS: u32 = 2;

/// Whether a vertex is a person with a number and a name.
pub open spec fn is_person(vertex: VertexView, vid: VertexId, name: Seq<char>) -> bool {
    &&& vertex.vid == vid
    &&& vertex.label_id == PERSON
    &&& !vertex.is_tombstone
    &&& vertex.properties.len() == 2
    &&& vertex.properties[0] == ScalarValue::Int32(Some(vid as i32))
    &&& vertex.properties[1] matches ScalarValue::String(Some(text)) && text@ == name
}

/// Whether an edge is an acquaintance between two people since some time.
pub open spec fn is_acquaintance(
    edge: EdgeView,
    eid: EdgeId,
    src: VertexId,
    dst: VertexId,
    since: i32,
) -> bool {
    &&& edge.eid == eid
    &&& edge.src_id == src
    &&& edge.dst_id == dst
    &&& edge.label_id == KNOWS
    &&& !edge.is_tombstone
    &&& edge.properties.len() == 1
    &&& edge.properties[0] == ScalarValue::Int32(Some(since))
}

/// Adds a person.
fn add_person(graph: &mut MemoryGraph, txn: &mut MemTransaction, vid: VertexId, name: &str)
    requires
        old(graph).wf(),
        old(graph)@.store.next_undo < u64::MAX,
        !old(graph)@.store.vertices.contains_key(vid),
        vid <= i32::MAX,
    ensures
        final(graph).wf(),
        ({
            let vertex = final(graph)@.store.vertices[vid].data;
            &&& is_person(vertex, vid, name@)
            &&& final(graph)@ == (GraphView {
                store: with_vertex(old(graph)@.store, vertex, old(txn)@.txn_id),
                ..old(graph)@
            })
            &&& final(txn)@ == with_change(
                old(txn)@,
                old(graph)@.store.next_undo,
                DeltaView::CreateVertex(vertex),
            )
        }),
{
    let mut values: Vec<ScalarValue> = Vec::new();
    values.push(ScalarValue::from(vid as i32));
    values.push(ScalarValue::from(name));
    let vertex = Vertex::new(vid, PERSON, PropertyRecord::new(values));
    let _ = graph.create_vertex(txn, vertex);
}

/// Adds an acquaintance between two people.
fn add_acquaintance(
    graph: &mut MemoryGraph,
    txn: &mut MemTransaction,
    eid: EdgeId,
    src: VertexId,
    dst: VertexId,
    since: i32,
)
    requires
        old(graph).wf(),
        old(graph)@.store.next_undo < u64::MAX,
        !old(graph)@.store.edges.contains_key(eid),
        old(graph)@.store.vertices.contains_key(src),
        old(graph)@.store.vertices.contains_key(dst),
    ensures
        final(graph).wf(),
        ({
            let edge = final(graph)@.store.edges[eid].data;
            &&& is_acquaintance(edge, eid, src, dst, since)
            &&& final(graph)@ == (GraphView {
                store: with_edge(old(graph)@.store, edge, old(txn)@.txn_id),
                ..old(graph)@
            })
            &&& final(txn)@ == with_change(
                old(txn)@,
                old(graph)@.store.next_undo,
                DeltaView::CreateEdge(edge),
            )
        }),
{
    let mut values: Vec<ScalarValue> = Vec::new();
    values.push(ScalarValue::from(since));
    let edge = Edge::new(eid, src, dst, KNOWS, PropertyRecord::new(values));
    let _ = graph.create_edge(txn, edge);
}

/// Whether the undo entries of a transaction are those of what it created, and nothing else was
/// created.
pub open spec fn only_created(store: StoreView, txn: TxnView) -> bool {
    &&& store.next_undo == txn.undo.len()
    &&& forall|i: int| 0 <= i < txn.undo.len() ==> #[trigger] txn.undo[i] == i
    &&& forall|key: u64| #[trigger]
        store.undo.contains_key(key) <==> key < txn.undo.len()
    &&& forall|key: u64| #[trigger]
        store.undo.contains_key(key) ==> match store.undo[key].delta {
            DeltaView::DelVertex(vid) => store.vertices.contains_key(vid),
            DeltaView::DelEdge(eid) => store.edges.contains_key(eid),
            _ => false,
        }
}

proof fn lemma_deletions_undoable(store: StoreView, keys: Seq<u64>, txn_id: Timestamp, n: int)
    requires
        0 <= n <= keys.len(),
        forall|j: int|
            0 <= j < keys.len() ==> store.undo.contains_key(#[trigger] keys[j]) && (
            store.undo[keys[j]].delta is DelVertex || store.undo[keys[j]].delta is DelEdge),
    ensures
        all_undoable(store, keys, txn_id, n),
    decreases n,
{
    if n > 0 {
        assert(store.undo.contains_key(keys[n - 1]));
        lemma_deletions_undoable(
            undone(store, store.undo[keys[n - 1]], txn_id),
            keys,
            txn_id,
            n - 1,
        );
    }
}

proof fn lemma_created_ok(graph: GraphView, txn: TxnView)
    requires
        only_created(graph.store, txn),
    ensures
        txn_ok(graph, txn),
{
    let store = graph.store;
    let keys = txn.undo;
    assert forall|i: int| 0 <= i < keys.len() implies store.undo.contains_key(#[trigger] keys[i])
        && stampable(store, store.undo[keys[i]].delta) && (store.undo[keys[i]].delta is DelVertex
        || store.undo[keys[i]].delta is DelEdge) by {
        assert(store.undo.contains_key(i as u64));
    }
    lemma_deletions_undoable(store, keys, txn.txn_id, keys.len() as int);
}

/// The timestamp at which the graph is committed.
pub const COMMITTED: u64 = 2;

/// The neighbours of three people, each of whom knows the two others.
pub open spec fn acquainted() -> Map<VertexId, Adjacency> {
    map![
        0u64 => Adjacency {
            outgoing: set![(KNOWS, 1u64, 0u64), (KNOWS, 2u64, 1u64)],
            incoming: set![(KNOWS, 1u64, 2u64), (KNOWS, 2u64, 4u64)],
        },
        1u64 => Adjacency {
            outgoing: set![(KNOWS, 0u64, 2u64), (KNOWS, 2u64, 3u64)],
            incoming: set![(KNOWS, 0u64, 0u64), (KNOWS, 2u64, 5u64)],
        },
        2u64 => Adjacency {
            outgoing: set![(KNOWS, 0u64, 4u64), (KNOWS, 1u64, 5u64)],
            incoming: set![(KNOWS, 0u64, 1u64), (KNOWS, 1u64, 3u64)],
        },
    ]
}

/// Whether a graph is that of three people, each of whom knows the two others.
pub open spec fn is_test_graph(store: StoreView) -> bool {
    &&& store.vertices.dom() == set![0u64, 1, 2]
    &&& is_person(store.vertices[0].data, 0, "alice"@)
    &&& is_person(store.vertices[1].data, 1, "bob"@)
    &&& is_person(store.vertices[2].data, 2, "charlie"@)
    &&& forall|vid: VertexId| #[trigger]
        store.vertices.contains_key(vid) ==> store.vertices[vid].commit_ts == Timestamp(COMMITTED)
    &&& store.edges.dom() == set![0u64, 1, 2, 3, 4, 5]
    &&& is_acquaintance(store.edges[0].data, 0, 0, 1, 123)
    &&& is_acquaintance(store.edges[1].data, 1, 0, 2, 456)
    &&& is_acquaintance(store.edges[2].data, 2, 1, 0, 123)
    &&& is_acquaintance(store.edges[3].data, 3, 1, 2, 789)
    &&& is_acquaintance(store.edges[4].data, 4, 2, 0, 456)
    &&& is_acquaintance(store.edges[5].data, 5, 2, 1, 789)
    &&& forall|eid: EdgeId| #[trigger]
        store.edges.contains_key(eid) ==> store.edges[eid].commit_ts == Timestamp(COMMITTED)
    &&& store.adjacency == acquainted()
}

proof fn lemma_stamping_frame(store: StoreView, keys: Seq<u64>, ts: Timestamp, i: int)
    requires
        0 <= i <= keys.len(),
        all_stampable(store, keys),
    ensures
        ({
            let after = all_stamped(store, keys, ts, i);
            &&& after.vertices.dom() == store.vertices.dom()
            &&& after.edges.dom() == store.edges.dom()
            &&& after.adjacency == store.adjacency
        }),
    decreases keys.len() - i,
{
    if i < keys.len() {
        let delta = store.undo[keys[i]].delta;
        let next = stamped(store, delta, ts);
        assert(store.undo.contains_key(keys[i]) && stampable(store, delta));
        assert(next.vertices.dom() =~= store.vertices.dom());
        assert(next.edges.dom() =~= store.edges.dom());
        assert(all_stampable(next, keys)) by {
            assert forall|j: int| 0 <= j < keys.len() implies next.undo.contains_key(
                #[trigger] keys[j],
            ) && stampable(next, next.undo[keys[j]].delta) by {
                assert(stampable(store, store.undo[keys[j]].delta));
                match store.undo[keys[j]].delta {
                    DeltaView::DelVertex(vid) => {
                        assert(store.vertices.dom().contains(vid));
                    },
                    DeltaView::CreateVertex(vertex) => {
                        assert(store.vertices.dom().contains(vertex.vid));
                    },
                    DeltaView::SetVertexProps(vid, _) => {
                        assert(store.vertices.dom().contains(vid));
                    },
                    DeltaView::DelEdge(eid) => {
                        assert(store.edges.dom().contains(eid));
                    },
                    DeltaView::CreateEdge(edge) => {
                        assert(store.edges.dom().contains(edge.eid));
                    },
                    DeltaView::SetEdgeProps(eid, _) => {
                        assert(store.edges.dom().contains(eid));
                    },
                    _ => {},
                }
            }
        }
        lemma_stamping_frame(next, keys, ts, i + 1);
    }
}

/// A commit in a graph without a manager of checkpoints fails for no reason of the log's, where the
/// log never fails.
proof fn lemma_commits_safely<O: Outside>(
    graph: GraphView,
    txn: TxnView,
    first: O,
    last: O,
    graph_after: GraphView,
    txn_after: TxnView,
    result: Result<Timestamp, ErrorView>,
)
    requires
        log_is_safe(first),
        goes_on(first, last),
        commits(graph, txn, None, false, asked(first, last), graph_after, txn_after, result),
        reads_valid(graph.store, txn),
        txn.commit_ts is None,
        graph.checkpoints is None,
    ensures
        ({
            let ts = graph.manager.next_commit_ts(None);
            let lsn = graph.next_lsn.wrapping_add(txn.redo.len() as u64);
            let latest = GraphView {
                manager: ManagerView {
                    latest_commit_ts: ts.0,
                    ..graph.manager.after_commit_ts(None)
                },
                store: all_stamped(graph.store, txn.undo, ts, 0),
                next_lsn: lsn.wrapping_add(1),
                ..graph
            };
            &&& txn_after == (TxnView { commit_ts: Some(ts), redo: Seq::empty(), ..txn })
            &&& exists|ended: Result<(), ErrorView>| #[trigger]
                graph_finishes(latest, txn_after, graph_after, ended)
        }),
{
    let events = asked(first, last);
    let (between, settled, n) = choose|
        between: GraphView,
        settled: Result<Timestamp, ErrorView>,
        n: int,
    | #[trigger]
        settles(graph, txn, None, false, events.take(n), between, txn_after, settled) && 0 <= n
            <= events.len() && match settled {
            Err(_) => n == events.len() && graph_after == between && result == settled,
            Ok(_) => exists|made: Result<Option<Seq<char>>, ErrorView>| #[trigger]
                auto_checks(between, events.skip(n), graph_after, made) && result == match made {
                    Ok(_) => settled,
                    Err(error) => Err(error),
                },
        };
    let taken = events.take(n);
    assert forall|i: int| 0 <= i < taken.len() implies first.gives(#[trigger] taken[i]) by {
        assert(taken[i] == last.past()[first.past().len() + i]);
    }
    let ended = match settled {
        Ok(_) => Ok::<(), ErrorView>(()),
        Err(error) => Err(error),
    };
    let ts = graph.manager.next_commit_ts(None);
    let entries = commit_log(txn, ts, graph.next_lsn);
    if ended is Err && logs(entries, taken, ended) {
        assert(first.gives(taken.last()));
        assert(false);
    }
}

/// Builds the graph of three people, each of whom knows the two others, in one transaction.
pub fn build_graph<O: Outside>(out: &mut O) -> (graph: MemoryGraph)
    requires
        log_is_safe(*old(out)),
    ensures
        goes_on(*old(out), *final(out)),
        graph.wf(),
        is_test_graph(graph@.store),
        graph@.manager.active == Map::<u64, u64>::empty(),
        graph@.manager.latest_commit_ts == COMMITTED,
        graph@.next_lsn == 10,
{
    let mut graph = MemoryGraph::with_config_fresh(CheckpointManagerConfig::default());
    let mut txn = graph.begin_transaction(IsolationLevel::Serializable);
    let ghost id = txn@.txn_id;
    let ghost begun = graph@;
    assert(only_created(graph@.store, txn@));
    proof {
        assert(is_least(begun.manager.active, id.0));
        assert(is_least(begun.manager.active, least_key(begun.manager.active)));
        assert(begun.manager.watermark == 1);
    }

    add_person(&mut graph, &mut txn, 0, "alice");
    add_person(&mut graph, &mut txn, 1, "bob");
    add_person(&mut graph, &mut txn, 2, "charlie");
    assert(graph@.store.vertices.dom() =~= set![0u64, 1, 2]);
    assert(only_created(graph@.store, txn@));
    let ghost people = graph@.store.vertices;

    add_acquaintance(&mut graph, &mut txn, 0, 0, 1, 123);
    add_acquaintance(&mut graph, &mut txn, 1, 0, 2, 456);
    add_acquaintance(&mut graph, &mut txn, 2, 1, 0, 123);
    add_acquaintance(&mut graph, &mut txn, 3, 1, 2, 789);
    add_acquaintance(&mut graph, &mut txn, 4, 2, 0, 456);
    add_acquaintance(&mut graph, &mut txn, 5, 2, 1, 789);
    assert(graph@.store.vertices == people);
    assert(graph@.store.edges.dom() =~= set![0u64, 1, 2, 3, 4, 5]);
    assert(only_created(graph@.store, txn@));
    let ghost before = graph@;
    let ghost writer = txn@;
    proof {
        let adjacency = graph@.store.adjacency;
        assert(adjacency[0].outgoing =~= acquainted()[0].outgoing);
        assert(adjacency[0].incoming =~= acquainted()[0].incoming);
        assert(adjacency[1].outgoing =~= acquainted()[1].outgoing);
        assert(adjacency[1].incoming =~= acquainted()[1].incoming);
        assert(adjacency[2].outgoing =~= acquainted()[2].outgoing);
        assert(adjacency[2].incoming =~= acquainted()[2].incoming);
        assert(adjacency =~= acquainted());
        assert(begun.manager.active.contains_key(id.0));
        lemma_created_ok(graph@, txn@);
    }
    let ghost first = *out;
    let result = txn.commit(&mut graph, out);
    proof {
        lemma_commits_safely(
            before,
            writer,
            first,
            *out,
            graph@,
            txn@,
            commit_outcome(result),
        );
        let ts = Timestamp(COMMITTED);
        assert(before.manager.next_commit_ts(None) == ts);
        assert(reads_valid(before.store, writer));
        let after = all_stamped(before.store, writer.undo, ts, 0);
        let latest = ManagerView {
            latest_commit_ts: ts.0,
            ..before.manager.after_commit_ts(None)
        };
        assert(latest.active.remove(id.0) =~= Map::<u64, u64>::empty());
        assert(latest.finished(txn@).watermark <= COMMITTED);
        assert(!gc_due(latest.finished(txn@)));
        assert(graph@.store == after);
        lemma_stamps(before.store, writer.undo, ts, 0);
        lemma_stamping_frame(before.store, writer.undo, ts, 0);
        let undo = before.store.undo;
        assert forall|vid: VertexId| #[trigger] after.vertices.contains_key(vid) implies (
        after.vertices[vid].commit_ts == ts && after.vertices[vid].data
            == before.store.vertices[vid].data) by {
            assert(set![0u64, 1, 2].contains(vid));
            assert(is_about_vertex(undo, writer.undo, vid as int, vid));
        }
        assert forall|eid: EdgeId| #[trigger] after.edges.contains_key(eid) implies (
        after.edges[eid].commit_ts == ts && after.edges[eid].data
            == before.store.edges[eid].data) by {
            assert(set![0u64, 1, 2, 3, 4, 5].contains(eid));
            assert(is_about_edge(undo, writer.undo, eid + 3, eid));
        }
        assert(after.vertices.contains_key(0) && after.vertices.contains_key(1)
            && after.vertices.contains_key(2));
        assert(after.edges.contains_key(0) && after.edges.contains_key(1)
            && after.edges.contains_key(2) && after.edges.contains_key(3)
            && after.edges.contains_key(4) && after.edges.contains_key(5));
    }
    graph
}

/// A list of one label.
fn labels(label: LabelId) -> (list: Vec<LabelId>)
    ensures
        list@ == seq![label],
{
    let mut list: Vec<LabelId> = Vec::new();
    list.push(label);
    assert(list@ =~= seq![label]);
    list
}

/// The type of a graph of people who know each other: people have a number and a name,
/// acquaintances may say since when.
pub open spec fn test_graph_type() -> GraphTypeView {
    GraphTypeView {
        labels: seq!["person"@, "knows"@],
        vertex_types: seq![
            VertexTypeView {
                label_set: seq![PERSON],
                properties: seq![
                    PropertyView { name: "id"@, ty: TypeView::Int64, nullable: false },
                    PropertyView { name: "name"@, ty: TypeView::String, nullable: false },
                ],
            },
        ],
        edge_types: seq![
            EdgeTypeView {
                label_set: seq![KNOWS],
                src: seq![PERSON],
                dst: seq![PERSON],
                properties: seq![
                    PropertyView { name: "since"@, ty: TypeView::Int64, nullable: true },
                ],
            },
        ],
    }
}

/// Builds the type of a graph of people who know each other.
pub fn build_graph_type() -> (graph_type: GraphType)
    ensures
        graph_type@ == test_graph_type(),
{
    let mut graph_type = GraphType::new();
    let person = graph_type.add_label("person");
    proof {
        reveal_strlit("person");
        reveal_strlit("knows");
        assert("person"@.len() != "knows"@.len());
        assert(person == Some(PERSON));
        assert(graph_type@.labels =~= seq!["person"@]);
    }
    let knows = graph_type.add_label("knows");
    proof {
        assert forall|i: int| 0 <= i < 1 implies seq!["person"@][i] != "knows"@ by {}
        assert(knows == Some(KNOWS));
    }
    let mut person_properties: Vec<Property> = Vec::new();
    person_properties.push(Property::new("id", LogicalType::Int64, false));
    person_properties.push(Property::new("name", LogicalType::String, false));
    let mut knows_properties: Vec<Property> = Vec::new();
    knows_properties.push(Property::new("since", LogicalType::Int64, true));
    let person_type = VertexType { label_set: labels(PERSON), properties: person_properties };
    let knows_type = EdgeType {
        label_set: labels(KNOWS),
        src: labels(PERSON),
        dst: labels(PERSON),
        properties: knows_properties,
    };
    proof {
        let goal = test_graph_type();
        assert(person_type@.properties =~= goal.vertex_types[0].properties);
        assert(knows_type@.properties =~= goal.edge_types[0].properties);
    }
    graph_type.add_vertex_type(person_type);
    graph_type.add_edge_type(knows_type);
    assert(graph_type@ =~= test_graph_type());
    graph_type
}

/// A procedure that can be called by name.
#[derive(Debug)]
pub struct Procedure {
    /// The types of the arguments.
    pub parameters: Vec<LogicalType>,
    /// The columns of the rows that it yields, if it yields any.
    pub schema: Option<DataSchemaRef>,
}

/// The procedure that adds the graph: its argument is the name of the graph, and it yields nothing.
pub fn build_procedure() -> (procedure: Procedure)
    ensures
        procedure.parameters@.len() == 1,
        procedure.parameters@[0].model() == TypeView::String,
        procedure.schema is None,
{
    let mut parameters: Vec<LogicalType> = Vec::new();
    parameters.push(LogicalType::String);
    Procedure { parameters, schema: None }
}

/// What the procedure can reach.
pub struct ProcedureContext {
    /// The current schema, if one is set.
    pub current_schema: Option<SchemaCatalog>,
}

impl View for ProcedureContext {
    type V = Option<Seq<(Seq<char>, ContainerView)>>;

    open spec fn view(&self) -> Option<Seq<(Seq<char>, ContainerView)>> {
        match self.current_schema {
            Some(schema) => Some(schema@),
            None => None,
        }
    }
}

/// What an unnamed graph is answered.
pub const NULL_NAME: &'static str = "graph name cannot be null";

/// What a call without a current schema is answered.
pub const NO_SCHEMA: &'static str = "current schema not set";

/// Adds the graph to the current schema, under the name that the argument gives.
pub fn create_test_graph<O: Outside>(
    context: &mut ProcedureContext,
    args: &Vec<ScalarValue>,
    out: &mut O,
) -> (result: Result<(), String>)
    requires
        args@.len() > 0,
        args@[0] is String,
        log_is_safe(*old(out)),
    ensures
        goes_on(*old(out), *final(out)),
        match args@[0] {
            ScalarValue::String(Some(name)) => match old(context)@ {
                Some(graphs) => if has_graph(graphs, name@) {
                    &&& final(context)@ == old(context)@
                    &&& result matches Err(text) && text@ == "graph "@ + name@
                        + " already exists"@
                } else {
                    &&& result is Ok
                    &&& final(context)@ matches Some(after) && after.len() == graphs.len() + 1
                        && after.drop_last() == graphs && after.last().0 == name@
                        && after.last().1.graph_type == test_graph_type() && is_test_graph(
                        after.last().1.graph.store,
                    )
                },
                None => {
                    &&& final(context)@ == old(context)@
                    &&& result matches Err(text) && text@ == NO_SCHEMA@
                },
            },
            _ => {
                &&& final(context)@ == old(context)@
                &&& result matches Err(text) && text@ == NULL_NAME@
            },
        },
{
    proof {
        lemma_nothing(*out);
    }
    let name = match args[0].try_as_string() {
        Some(Some(name)) => name,
        _ => {
            return Err(NULL_NAME.to_string());
        },
    };
    match &mut context.current_schema {
        None => {
            return Err(NO_SCHEMA.to_string());
        },
        Some(schema) => {
            let graph = build_graph(out);
            let graph_type = build_graph_type();
            let container = GraphContainer { graph_type, graph };
            let ghost graphs = schema@;
            let ghost added = container@;
            if !schema.add_graph(name.as_str(), container) {
                let mut text = "graph ".to_string();
                text.append(name.as_str());
                text.append(" already exists");
                return Err(text);
            }
            proof {
                assert(graphs.push((name@, added)).drop_last() =~= graphs);
            }
        },
    }
    Ok(())
}

/// In the graph of people everybody knows everybody else, by one edge that starts at the one and
/// leads to the other, and the other has known them for as long. Who is known by whom agrees with
/// the edges, and nobody knows themselves.
pub proof fn law_everybody_acquainted(store: StoreView, a: VertexId, b: VertexId)
    requires
        is_test_graph(store),
        store.vertices.contains_key(a),
        store.vertices.contains_key(b),
    ensures
        a != b ==> exists|to: EdgeId, from: EdgeId|
            {
                &&& #[trigger] store.edges.contains_key(to) && #[trigger] store.edges.contains_key(
                    from,
                )
                &&& store.edges[to].data.src_id == a && store.edges[to].data.dst_id == b
                &&& store.edges[from].data.src_id == b && store.edges[from].data.dst_id == a
                &&& store.edges[to].data.properties == store.edges[from].data.properties
            },
        forall|eid: EdgeId, other: EdgeId| #[trigger]
            store.edges.contains_key(eid) && #[trigger] store.edges.contains_key(other) ==> {
                &&& store.edges[eid].data.src_id != store.edges[eid].data.dst_id
                &&& store.edges[eid].data.src_id == store.edges[other].data.src_id
                    && store.edges[eid].data.dst_id == store.edges[other].data.dst_id ==> eid
                    == other
            },
        forall|eid: EdgeId| #[trigger]
            store.edges.contains_key(eid) ==> {
                let edge = store.edges[eid].data;
                &&& store.vertices.contains_key(edge.src_id) && store.vertices.contains_key(
                    edge.dst_id,
                )
                &&& store.adjacency[edge.src_id].outgoing.contains(
                    (edge.label_id, edge.dst_id, eid),
                )
                &&& store.adjacency[edge.dst_id].incoming.contains(
                    (edge.label_id, edge.src_id, eid),
                )
            },
{
    let edges = store.edges;
    assert forall|eid: EdgeId| #[trigger] edges.contains_key(eid) implies set![
        0u64,
        1,
        2,
        3,
        4,
        5,
    ].contains(eid) by {}
    assert(set![0u64, 1, 2].contains(a) && set![0u64, 1, 2].contains(b));
    assert(edges.contains_key(0) && edges.contains_key(1) && edges.contains_key(2)
        && edges.contains_key(3) && edges.contains_key(4) && edges.contains_key(5));
    assert(edges[0].data.properties =~= edges[2].data.properties);
    assert(edges[1].data.properties =~= edges[4].data.properties);
    assert(edges[3].data.properties =~= edges[5].data.properties);
    assert(store.vertices.contains_key(0) && store.vertices.contains_key(1)
        && store.vertices.contains_key(2));
}

/// The people and the acquaintances of the graph have as many properties as its type says, and the
/// labels of the type.
pub proof fn law_graph_of_its_type(store: StoreView, vid: VertexId, eid: EdgeId)
    requires
        is_test_graph(store),
        store.vertices.contains_key(vid),
        store.edges.contains_key(eid),
    ensures
        ({
            let ty = test_graph_type();
            let vertex = store.vertices[vid].data;
            let edge = store.edges[eid].data;
            &&& ty.vertex_types.len() == 1 && ty.edge_types.len() == 1
            &&& ty.vertex_types[0].label_set == seq![vertex.label_id]
            &&& ty.vertex_types[0].properties.len() == vertex.properties.len()
            &&& ty.edge_types[0].label_set == seq![edge.label_id]
            &&& ty.edge_types[0].properties.len() == edge.properties.len()
            &&& ty.edge_types[0].src == ty.vertex_types[0].label_set
            &&& ty.edge_types[0].dst == ty.vertex_types[0].label_set
            &&& vertex.vid == vid && edge.eid == eid
            &&& vertex.properties[0] == ScalarValue::Int32(Some(vid as i32))
            &&& !vertex.is_tombstone && !edge.is_tombstone
            &&& 1 <= vertex.label_id <= ty.labels.len() && 1 <= edge.label_id <= ty.labels.len()
            &&& vertex.label_id != edge.label_id
        }),
{
    assert(set![0u64, 1, 2].contains(vid));
    assert(set![0u64, 1, 2, 3, 4, 5].contains(eid));
}

} // verus!
