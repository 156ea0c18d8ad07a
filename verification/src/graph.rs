//! Pointer derivation graphs: one graph per object, one node per pointer operation.

use vstd::prelude::*;

use crate::mir_loc::{DefPathHash, MirPlace, PlaceModel, place_model};

verus! {

/// The index of a graph in `Graphs::graphs`.
pub type GraphId = usize;

/// The index of a node in `Graph::nodes`.
pub type NodeId = usize;

/// The node that creates the object of its graph.
pub const ROOT_NODE: NodeId = 0;

/// A reference to a node: its graph and its index there.
pub type NodeRef = (GraphId, NodeId);

/// A MIR local of a function: the function's hash and the local's index.
pub type Place = (DefPathHash, usize);

/// A pointer derivation graph, which tracks the handling of one object throughout its lifetime.
#[derive(Debug)]
pub struct Graph {
    /// The nodes in the graph.  Nodes are stored in increasing order by timestamp.  The first
    /// node, called the "root node", creates the object described by this graph, and all other
    /// nodes are derived from it.  The builder roots a graph only at an operation that creates
    /// an object (see `NodeKind::creates_object`).
    pub nodes: Vec<Node>,
}

impl Graph {
    /// A graph without nodes.
    pub fn new() -> (g: Graph)
        ensures
            g@ == Seq::<NodeModel>::empty(),
    {
        Graph { nodes: Vec::new() }
    }
}

/// A node in the graph represents an operation on pointers.  It may produce a pointer from
/// nothing, derive a pointer from another pointer, or consume a pointer without producing any
/// output.
///
/// Each operation occurs at a point in time, but the timestamp is not stored explicitly.  Instead,
/// nodes in each graph are stored in sequential order, and timing relationships can be identified
/// by comparing `NodeId`s.
#[derive(Debug)]
pub struct Node {
    /// The function that contains this operation.
    ///
    /// For function calls, copies from the caller's values into the callee's argument locals are
    /// attributed to the first statement of the callee, and the copy from the callee's return
    /// place to the caller's destination local is attributed to the `Call` terminator in the
    /// caller.  This way, the combination of `function` and `dest` accurately identifies the local
    /// modified by the operation.
    pub function: DefPathHash,
    /// The basic block that contains this operation.
    pub block: usize,
    /// The index within the basic block of the MIR statement or terminator that performed this
    /// operation.  An index less than the number of statements in the block refers to that
    /// statement, and an index equal to the number of statements refers to the terminator.
    pub index: usize,
    /// The MIR local where this operation stores its result.  This is `None` for operations that
    /// don't store anything and for operations whose result is a temporary not visible as a MIR
    /// local.
    pub dest: Option<MirPlace>,
    /// The kind of operation that was performed.
    pub kind: NodeKind,
    /// The `Node` that produced the input to this operation.
    pub source: Option<NodeRef>,
}

/// A node as a value.
pub struct NodeModel {
    pub function: DefPathHash,
    pub block: usize,
    pub index: usize,
    pub dest: Option<PlaceModel>,
    pub kind: NodeKind,
    pub source: Option<NodeRef>,
}

impl View for Node {
    type V = NodeModel;

    open spec fn view(&self) -> NodeModel {
        NodeModel {
            function: self.function,
            block: self.block,
            index: self.index,
            dest: place_model(self.dest),
            kind: self.kind,
            source: self.source,
        }
    }
}

impl View for Graph {
    type V = Seq<NodeModel>;

    open spec fn view(&self) -> Seq<NodeModel> {
        self.nodes@.map_values(|n: Node| n@)
    }
}

/// The operation that a node performs.
#[derive(Clone, Copy, Debug, PartialEq, Eq, Structural)]
pub enum NodeKind {
    /// A copy from one local to another.  This also covers casts such as `&mut T` to `&T` or `&T`
    /// to `*const T` that don't change the type or value of the pointer.
    Copy,
    /// Field projection.  Used for operations like `_2 = &(*_1).0`.  Nested field accesses like
    /// `_4 = &(*_1).x.y.z` are broken into multiple `Node`s, each covering one level.
    Field(u32),
    /// Pointer arithmetic.  The `isize` is the concrete offset distance.  We use this to detect
    /// when two pointers always refer to different indices.
    Offset(isize),
    /// Get the address of a local.  For address-taken locals, the root node is an `AddrOfLocal`
    /// attributed to the first statement of the function.  Taking the address of the local, as in
    /// `_2 = &_1`, appears as a copy of that root pointer, and reading or writing from the local
    /// shows up as a `LoadAddr` or `StoreAddr`.  This allows us to track uses of the local that
    /// interfere with an existing reference, even when those uses don't go through a pointer.
    AddrOfLocal(u32),
    /// Get the address of a static.  These are treated the same as locals, with an
    /// `AddressOfStatic` attributed to the first statement.
    AddrOfStatic(DefPathHash),
    /// Heap allocation.  The `usize` is the number of array elements allocated; for allocations of
    /// a single object, this value is 1.  The builder does not know the element count and
    /// always records 1.
    Malloc(usize),
    /// Int to pointer conversion.
    IntToPtr,
    /// The result of loading a value through some other pointer.
    LoadValue,
    /// Heap deallocation.  The object described by the current graph is no longer valid after this
    /// point.  Correct programs will only `Free` pointers produced by `Malloc`, and will no longer
    /// `LoadAddr` or `StoreAddr` any pointers derived from that `Malloc` afterward.
    Free,
    /// Pointer to int conversion.
    PtrToInt,
    /// The pointer appears as the address of a load operation.
    LoadAddr,
    /// The pointer appears as the address of a store operation.
    StoreAddr,
    /// The pointer is stored through some other pointer.
    StoreValue,
}

impl NodeKind {
    /// Whether an operation of this kind creates the object it acts on (the
    /// operations that can't have a `source`): an allocation, taking the
    /// address of a local or a static, converting an integer to a pointer, or
    /// loading a pointer through another pointer.
    pub open spec fn spec_creates_object(&self) -> bool {
        match self {
            NodeKind::Malloc(_) | NodeKind::AddrOfLocal(_) | NodeKind::AddrOfStatic(_) | NodeKind::IntToPtr
            | NodeKind::LoadValue => true,
            _ => false,
        }
    }

    /// Whether an operation of this kind consumes its pointer (the operations
    /// that can't be the `source` of any other operation): freeing it,
    /// converting it to an integer, loading or storing through it, or storing it.
    pub open spec fn spec_is_sink(&self) -> bool {
        match self {
            NodeKind::Free | NodeKind::PtrToInt | NodeKind::LoadAddr | NodeKind::StoreAddr | NodeKind::StoreValue => true,
            _ => false,
        }
    }

    /// Whether an operation of this kind creates the object it acts on.
    #[verifier::when_used_as_spec(spec_creates_object)]
    pub fn creates_object(&self) -> (r: bool)
        ensures
            r == self.spec_creates_object(),
    {
        match self {
            NodeKind::Malloc(_) | NodeKind::AddrOfLocal(_) | NodeKind::AddrOfStatic(_) | NodeKind::IntToPtr
            | NodeKind::LoadValue => true,
            _ => false,
        }
    }

    /// Whether an operation of this kind consumes its pointer.
    #[verifier::when_used_as_spec(spec_is_sink)]
    pub fn is_sink(&self) -> (r: bool)
        ensures
            r == self.spec_is_sink(),
    {
        match self {
            NodeKind::Free | NodeKind::PtrToInt | NodeKind::LoadAddr | NodeKind::StoreAddr | NodeKind::StoreValue => true,
            _ => false,
        }
    }
}

/// For each MIR local, the node that last assigned it.  Each place occurs at most once.
///
/// A list of pairs rather than a `HashMap`: vstd's specification of `HashMap`
/// holds only for keys with a key model (integers, `bool`), and a place is a
/// tuple of a function hash and a local.
pub struct AssignmentTable {
    entries: Vec<(Place, NodeRef)>,
}

impl AssignmentTable {
    #[verifier::type_invariant]
    spec fn places_unique(self) -> bool {
        forall|i: int, j: int|
            0 <= i < j < self.entries@.len() ==> #[trigger] self.entries@[i].0 != #[trigger] self.entries@[j].0
    }

    spec fn has_at(self, i: int, key: Place) -> bool {
        0 <= i < self.entries@.len() && self.entries@[i].0 == key
    }
}

impl View for AssignmentTable {
    type V = Map<Place, NodeRef>;

    closed spec fn view(&self) -> Map<Place, NodeRef> {
        Map::new(
            |k: Place| exists|i: int| self.has_at(i, k),
            |k: Place| self.entries@[choose|i: int| self.has_at(i, k)].1,
        )
    }
}

fn same_place(a: Place, b: Place) -> (r: bool)
    ensures
        r == (a == b),
{
    a.0 == b.0 && a.1 == b.1
}

impl AssignmentTable {
    /// An empty table.
    pub fn new() -> (t: AssignmentTable)
        ensures
            t@ == Map::<Place, NodeRef>::empty(),
    {
        let t = AssignmentTable { entries: Vec::new() };
        assert(t@ =~= Map::<Place, NodeRef>::empty());
        t
    }

    fn find(&self, key: Place) -> (r: Option<usize>)
        ensures
            match r {
                Some(i) => self.has_at(i as int, key),
                None => forall|i: int| !self.has_at(i, key),
            },
    {
        let n = self.entries.len();
        for i in 0..n
            invariant
                n == self.entries@.len(),
                forall|j: int| 0 <= j < i ==> !self.has_at(j, key),
        {
            if same_place(self.entries[i].0, key) {
                return Some(i);
            }
        }
        None
    }

    proof fn lemma_lookup(&self, i: int, key: Place)
        requires
            self.places_unique(),
            self.has_at(i, key),
        ensures
            self@.contains_key(key),
            self@[key] == self.entries@[i].1,
    {
        let c = choose|j: int| self.has_at(j, key);
        assert(self.has_at(c, key));
        if c < i {
            assert(self.entries@[c].0 != self.entries@[i].0);
        } else if i < c {
            assert(self.entries@[i].0 != self.entries@[c].0);
        }
    }

    /// The node that last assigned `key`, if any.
    pub fn get(&self, key: Place) -> (r: Option<NodeRef>)
        ensures
            r == (if self@.contains_key(key) { Some(self@[key]) } else { None::<NodeRef> }),
    {
        proof {
            use_type_invariant(self);
        }
        match self.find(key) {
            Some(i) => {
                proof {
                    self.lemma_lookup(i as int, key);
                }
                Some(self.entries[i].1)
            },
            None => {
                assert(!self@.contains_key(key));
                None
            },
        }
    }

    /// Records `value` as the node that last assigned `key`; returns the node recorded before.
    pub fn insert(&mut self, key: Place, value: NodeRef) -> (r: Option<NodeRef>)
        ensures
            final(self)@ == old(self)@.insert(key, value),
            r == (if old(self)@.contains_key(key) { Some(old(self)@[key]) } else { None::<NodeRef> }),
    {
        proof {
            use_type_invariant(&*self);
        }
        let ghost before = *self;
        let found = self.find(key);
        let mut entries = Vec::new();
        std::mem::swap(&mut entries, &mut self.entries);
        match found {
            Some(i) => {
                proof {
                    before.lemma_lookup(i as int, key);
                }
                let prev = entries[i].1;
                entries.set(i, (key, value));
                self.entries = entries;
                proof {
                    use_type_invariant(&*self);
                    assert forall|k: Place| #[trigger] self@.contains_key(k) == before@.insert(key, value).contains_key(k)
                        && (self@.contains_key(k) ==> self@[k] == before@.insert(key, value)[k]) by {
                        if k == key {
                            self.lemma_lookup(i as int, key);
                        } else if before@.contains_key(k) {
                            let j = choose|j: int| before.has_at(j, k);
                            before.lemma_lookup(j, k);
                            self.lemma_lookup(j, k);
                        } else {
                            if self@.contains_key(k) {
                                let j = choose|j: int| self.has_at(j, k);
                                assert(before.has_at(j, k));
                            }
                        }
                    }
                    assert(self@ =~= before@.insert(key, value));
                }
                Some(prev)
            },
            None => {
                entries.push((key, value));
                assert forall|a: int, b: int| 0 <= a < b < entries@.len() implies
                    #[trigger] entries@[a].0 != #[trigger] entries@[b].0 by {
                    if b == entries@.len() - 1 {
                        assert(!before.has_at(a, key));
                    } else {
                        assert(before.entries@[a].0 != before.entries@[b].0);
                    }
                }
                self.entries = entries;
                proof {
                    use_type_invariant(&*self);
                    let last = self.entries@.len() - 1;
                    assert forall|k: Place| #[trigger] self@.contains_key(k) == before@.insert(key, value).contains_key(k)
                        && (self@.contains_key(k) ==> self@[k] == before@.insert(key, value)[k]) by {
                        if k == key {
                            self.lemma_lookup(last, key);
                        } else if before@.contains_key(k) {
                            let j = choose|j: int| before.has_at(j, k);
                            before.lemma_lookup(j, k);
                            self.lemma_lookup(j, k);
                        } else {
                            if self@.contains_key(k) {
                                let j = choose|j: int| self.has_at(j, k);
                                assert(before.has_at(j, k));
                            }
                        }
                    }
                    assert(self@ =~= before@.insert(key, value));
                }
                None
            },
        }
    }
}

/// A collection of graphs describing the handling of one or more objects within the program.
pub struct Graphs {
    /// The graphs.  Each graph describes one object, or one group of objects that were all handled
    /// identically.
    pub graphs: Vec<Graph>,
    /// Lookup table for finding the node that last stored to a particular MIR local.
    pub latest_assignment: AssignmentTable,
}

impl Graphs {
    /// The graphs as sequences of node values.
    pub open spec fn model(&self) -> Seq<Seq<NodeModel>> {
        self.graphs@.map_values(|g: Graph| g@)
    }

    /// No graphs and no assignments.
    pub fn new() -> (g: Graphs)
        ensures
            g.model() == Seq::<Seq<NodeModel>>::empty(),
            g.latest_assignment@ == Map::<Place, NodeRef>::empty(),
    {
        let g = Graphs { graphs: Vec::new(), latest_assignment: AssignmentTable::new() };
        assert(g.model() =~= Seq::<Seq<NodeModel>>::empty());
        g
    }
}

} // verus!
