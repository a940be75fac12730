//! Graph types, and the graphs of a schema.

use vstd::prelude::*;

use crate::common::data_type::LogicalType;
#[allow(unused_imports)]
use crate::common::data_type::TypeView;
use crate::common::text::text_eq;
use crate::common::types::LabelId;
use crate::storage::tp::memory_graph::MemoryGraph;
#[allow(unused_imports)]
use crate::storage::tp::memory_graph::GraphView;

verus! {

/// A property of the vertices or edges of a type.
#[derive(Debug)]
pub struct Property {
    /// The name.
    pub name: String,
    /// The type of its values.
    pub ty: LogicalType,
    /// Whether the value may be missing.
    pub nullable: bool,
}

/// What a property is.
pub struct PropertyView {
    /// The name.
    pub name: Seq<char>,
    /// The type of its values.
    pub ty: TypeView,
    /// Whether the value may be missing.
    pub nullable: bool,
}

impl View for Property {
    type V = PropertyView;

    open spec fn view(&self) -> PropertyView {
        PropertyView { name: self.name@, ty: self.ty.model(), nullable: self.nullable }
    }
}

impl Property {
    /// A property.
    pub fn new(name: &str, ty: LogicalType, nullable: bool) -> (property: Self)
        ensures
            property@ == (PropertyView { name: name@, ty: ty.model(), nullable }),
    {
        Property { name: name.to_string(), ty, nullable }
    }
}

/// What properties are.
pub open spec fn property_views(properties: Seq<Property>) -> Seq<PropertyView> {
    properties.map_values(|property: Property| property@)
}

/// A type of vertices.
#[derive(Debug)]
pub struct VertexType {
    /// The labels.
    pub label_set: Vec<LabelId>,
    /// The properties.
    pub properties: Vec<Property>,
}

/// What a type of vertices is.
pub struct VertexTypeView {
    /// The labels.
    pub label_set: Seq<LabelId>,
    /// The properties.
    pub properties: Seq<PropertyView>,
}

impl View for VertexType {
    type V = VertexTypeView;

    open spec fn view(&self) -> VertexTypeView {
        VertexTypeView {
            label_set: self.label_set@,
            properties: property_views(self.properties@),
        }
    }
}

/// A type of edges.
#[derive(Debug)]
pub struct EdgeType {
    /// The labels.
    pub label_set: Vec<LabelId>,
    /// The labels of the vertices at which the edges start.
    pub src: Vec<LabelId>,
    /// The labels of the vertices to which the edges lead.
    pub dst: Vec<LabelId>,
    /// The properties.
    pub properties: Vec<Property>,
}

/// What a type of edges is.
pub struct EdgeTypeView {
    /// The labels.
    pub label_set: Seq<LabelId>,
    /// The labels of the vertices at which the edges start.
    pub src: Seq<LabelId>,
    /// The labels of the vertices to which the edges lead.
    pub dst: Seq<LabelId>,
    /// The properties.
    pub properties: Seq<PropertyView>,
}

impl View for EdgeType {
    type V = EdgeTypeView;

    open spec fn view(&self) -> EdgeTypeView {
        EdgeTypeView {
            label_set: self.label_set@,
            src: self.src@,
            dst: self.dst@,
            properties: property_views(self.properties@),
        }
    }
}

/// The types of a graph's vertices and edges.
#[derive(Debug)]
pub struct GraphType {
    labels: Vec<String>,
    vertex_types: Vec<VertexType>,
    edge_types: Vec<EdgeType>,
}

/// What the types of a graph's vertices and edges are.
#[verifier::ext_equal]
pub struct GraphTypeView {
    /// The names of the labels. The first has the number one.
    pub labels: Seq<Seq<char>>,
    /// The types of vertices.
    pub vertex_types: Seq<VertexTypeView>,
    /// The types of edges.
    pub edge_types: Seq<EdgeTypeView>,
}

impl View for GraphType {
    type V = GraphTypeView;

    closed spec fn view(&self) -> GraphTypeView {
        GraphTypeView {
            labels: self.labels@.map_values(|label: String| label@),
            vertex_types: self.vertex_types@.map_values(|ty: VertexType| ty@),
            edge_types: self.edge_types@.map_values(|ty: EdgeType| ty@),
        }
    }
}

impl GraphType {
    /// A graph type without anything.
    pub fn new() -> (graph_type: Self)
        ensures
            graph_type@ == (GraphTypeView {
                labels: Seq::empty(),
                vertex_types: Seq::empty(),
                edge_types: Seq::empty(),
            }),
    {
        let graph_type = GraphType {
            labels: Vec::new(),
            vertex_types: Vec::new(),
            edge_types: Vec::new(),
        };
        assert(graph_type@ =~= (GraphTypeView {
            labels: Seq::empty(),
            vertex_types: Seq::empty(),
            edge_types: Seq::empty(),
        }));
        graph_type
    }

    /// Adds a label and returns its number. A name that is taken, and one label too many, are
    /// refused.
    pub fn add_label(&mut self, name: &str) -> (label: Option<LabelId>)
        ensures
            match label {
                Some(id) => {
                    &&& !old(self)@.labels.contains(name@)
                    &&& id == old(self)@.labels.len() + 1
                    &&& final(self)@ == (GraphTypeView {
                        labels: old(self)@.labels.push(name@),
                        ..old(self)@
                    })
                },
                None => {
                    &&& old(self)@.labels.contains(name@) || old(self)@.labels.len()
                        >= u32::MAX
                    &&& final(self)@ == old(self)@
                },
            },
    {
        let ghost before = self@;
        for i in 0..self.labels.len()
            invariant
                *self == *old(self),
                before == self@,
                forall|j: int| 0 <= j < i ==> (#[trigger] before.labels[j]) != name@,
        {
            if text_eq(self.labels[i].as_str(), name) {
                assert(before.labels[i as int] == name@);
                return None;
            }
        }
        if self.labels.len() >= u32::MAX as usize {
            return None;
        }
        self.labels.push(name.to_string());
        assert(self@.labels =~= before.labels.push(name@));
        Some(self.labels.len() as u32)
    }

    /// Adds a type of vertices.
    pub fn add_vertex_type(&mut self, ty: VertexType)
        ensures
            final(self)@ == (GraphTypeView {
                vertex_types: old(self)@.vertex_types.push(ty@),
                ..old(self)@
            }),
    {
        self.vertex_types.push(ty);
        assert(self@.vertex_types =~= old(self)@.vertex_types.push(ty@));
    }

    /// Adds a type of edges.
    pub fn add_edge_type(&mut self, ty: EdgeType)
        ensures
            final(self)@ == (GraphTypeView {
                edge_types: old(self)@.edge_types.push(ty@),
                ..old(self)@
            }),
    {
        self.edge_types.push(ty);
        assert(self@.edge_types =~= old(self)@.edge_types.push(ty@));
    }
}

/// A graph together with its type.
pub struct GraphContainer {
    /// The type.
    pub graph_type: GraphType,
    /// The graph.
    pub graph: MemoryGraph,
}

/// What a graph together with its type is.
pub struct ContainerView {
    /// The type.
    pub graph_type: GraphTypeView,
    /// The graph.
    pub graph: GraphView,
}

impl View for GraphContainer {
    type V = ContainerView;

    open spec fn view(&self) -> ContainerView {
        ContainerView { graph_type: self.graph_type@, graph: self.graph@ }
    }
}

/// The graphs of a schema, by name.
pub struct SchemaCatalog {
    graphs: Vec<(String, GraphContainer)>,
}

impl View for SchemaCatalog {
    type V = Seq<(Seq<char>, ContainerView)>;

    closed spec fn view(&self) -> Seq<(Seq<char>, ContainerView)> {
        self.graphs@.map_values(|entry: (String, GraphContainer)| (entry.0@, entry.1@))
    }
}

/// Whether the `i`th of a schema's graphs has a name.
pub open spec fn is_named(
    graphs: Seq<(Seq<char>, ContainerView)>,
    i: int,
    name: Seq<char>,
) -> bool {
    0 <= i < graphs.len() && graphs[i].0 == name
}

/// Whether a schema has a graph of a name.
pub open spec fn has_graph(graphs: Seq<(Seq<char>, ContainerView)>, name: Seq<char>) -> bool {
    exists|i: int| is_named(graphs, i, name)
}

impl SchemaCatalog {
    /// A schema without graphs.
    pub fn new() -> (schema: Self)
        ensures
            schema@.len() == 0,
    {
        SchemaCatalog { graphs: Vec::new() }
    }

    /// The number of the graph of a name, if there is one.
    pub fn get_graph(&self, name: &str) -> (graph: Option<u64>)
        ensures
            match graph {
                Some(i) => is_named(self@, i as int, name@),
                None => !has_graph(self@, name@),
            },
    {
        for i in 0..self.graphs.len()
            invariant
                self@.len() == self.graphs@.len(),
                forall|j: int| 0 <= j < i ==> !#[trigger] is_named(self@, j, name@),
        {
            if text_eq(self.graphs[i].0.as_str(), name) {
                assert(is_named(self@, i as int, name@));
                return Some(i as u64);
            }
        }
        None
    }

    /// Adds a graph, unless the name is taken. Says whether it was added.
    pub fn add_graph(&mut self, name: &str, container: GraphContainer) -> (added: bool)
        ensures
            added == !has_graph(old(self)@, name@),
            final(self)@ == if added {
                old(self)@.push((name@, container@))
            } else {
                old(self)@
            },
    {
        if self.get_graph(name).is_some() {
            return false;
        }
        self.graphs.push((name.to_string(), container));
        assert(self@ =~= old(self)@.push((name@, container@)));
        true
    }
}

} // verus!
