//! Building pointer derivation graphs from an event log.

use std::collections::HashMap;

use vstd::prelude::*;

use crate::events::{Event, EventKind, Pointer};
use crate::graph::{Graph, GraphId, Graphs, Node, NodeId, NodeKind, NodeModel, NodeRef, Place};
use crate::laws::{
    allocations_are_roots, lemma_nodes_given_bound, lemma_step_allocations_are_roots, lemma_step_node_count,
    lemma_step_preserves_wf, lemma_step_roots_create_objects, nodes_given, roots_create_objects,
};
use crate::mir_loc::{self, EventMetadata, Metadata, MirLoc, MirPlace, PlaceModel, copy_place, place_model};

verus! {

broadcast use vstd::std_specs::hash::group_hash_axioms;

/// The node kind that an event of kind `k` gives, if it gives one.  An `Arg`
/// event, the copy of a caller's value into a callee's argument local, gives a
/// `Copy` node; `Ret` and `Done` give none.
pub open spec fn node_kind_of(k: EventKind) -> Option<NodeKind> {
    match k {
        EventKind::Alloc { .. } => Some(NodeKind::Malloc(1)),
        EventKind::Realloc { .. } => Some(NodeKind::Malloc(1)),
        EventKind::Free { .. } => Some(NodeKind::Free),
        EventKind::Copy(..) => Some(NodeKind::Copy),
        EventKind::CopyRef => Some(NodeKind::Copy),
        EventKind::Field(_, field) => Some(NodeKind::Field(field)),
        EventKind::LoadAddr(..) => Some(NodeKind::LoadAddr),
        EventKind::StoreAddr(..) => Some(NodeKind::StoreAddr),
        EventKind::LoadValue(..) => Some(NodeKind::LoadValue),
        EventKind::StoreValue(..) => Some(NodeKind::StoreValue),
        EventKind::AddrOfLocal(_, l) => Some(NodeKind::AddrOfLocal(l)),
        EventKind::ToInt(_) => Some(NodeKind::PtrToInt),
        EventKind::FromInt(_) => Some(NodeKind::IntToPtr),
        EventKind::Arg(_) => Some(NodeKind::Copy),
        EventKind::Ret(_) => None,
        EventKind::Offset(_, offset, _) => Some(NodeKind::Offset(offset)),
        EventKind::Done => None,
    }
}

/// The pointer of interest of an event of kind `k`: the one whose object it acts on.
/// A `CopyRef` event carries no pointer, so none is tracked for it (and, as it
/// does not create an object, it gives no node); `Done` has none either.
pub open spec fn ptr_of(k: EventKind) -> Option<Pointer> {
    match k {
        EventKind::Copy(lhs) => Some(lhs),
        EventKind::Field(ptr, _) => Some(ptr),
        EventKind::Free { ptr } => Some(ptr),
        EventKind::Arg(ptr) => Some(ptr),
        EventKind::Ret(ptr) => Some(ptr),
        EventKind::LoadAddr(ptr) => Some(ptr),
        EventKind::StoreAddr(ptr) => Some(ptr),
        EventKind::LoadValue(ptr) => Some(ptr),
        EventKind::StoreValue(ptr) => Some(ptr),
        EventKind::CopyRef => None,
        EventKind::ToInt(ptr) => Some(ptr),
        EventKind::Realloc { old_ptr, .. } => Some(old_ptr),
        EventKind::FromInt(lhs) => Some(lhs),
        EventKind::Alloc { ptr, .. } => Some(ptr),
        EventKind::AddrOfLocal(lhs, _) => Some(lhs),
        EventKind::Offset(ptr, _, _) => Some(ptr),
        EventKind::Done => None,
    }
}

/// Whether an event of kind `k` acts on an object that exists already: all
/// but allocations, reallocations, taking a local's address, and the end of the log.
pub open spec fn has_parent(k: EventKind) -> bool {
    match k {
        EventKind::Realloc { .. } => false,
        EventKind::Alloc { .. } => false,
        EventKind::AddrOfLocal(..) => false,
        EventKind::Done => false,
        _ => true,
    }
}

/// The pointer of interest of an event (see `ptr_of`).  It depends on the
/// event's kind alone, not on the metadata.
pub fn get_ptr(kind: &EventKind, _metadata: &EventMetadata) -> (r: Option<usize>)
    ensures
        r == ptr_of(*kind),
{
    Some(
        match kind {
            EventKind::Copy(lhs) => *lhs,
            EventKind::Field(ptr, ..) => *ptr,
            EventKind::Free { ptr } => *ptr,
            EventKind::Arg(ptr) => *ptr,
            EventKind::Ret(ptr) => *ptr,
            EventKind::LoadAddr(ptr) => *ptr,
            EventKind::StoreAddr(ptr) => *ptr,
            EventKind::LoadValue(ptr) => *ptr,
            EventKind::StoreValue(ptr) => *ptr,
            EventKind::CopyRef => return None,
            EventKind::ToInt(ptr) => *ptr,
            EventKind::Realloc { old_ptr, .. } => *old_ptr,
            EventKind::FromInt(lhs) => *lhs,
            EventKind::Alloc { ptr, .. } => *ptr,
            EventKind::AddrOfLocal(lhs, _) => *lhs,
            EventKind::Offset(ptr, _, _) => *ptr,
            EventKind::Done => return None,
        },
    )
}

/// `obj` when an event of kind `kind` acts on an existing object, else `None`.
fn get_parent_object(kind: &EventKind, obj: NodeRef) -> (r: Option<NodeRef>)
    ensures
        r == (if has_parent(*kind) { Some(obj) } else { None::<NodeRef> }),
{
    Some(
        match kind {
            EventKind::Realloc { .. } => return None,
            EventKind::Alloc { .. } => return None,
            EventKind::AddrOfLocal(..) => return None,
            EventKind::Done => return None,
            _ => obj,
        },
    )
}

/// The kind of node that `event` gives, if it gives one.
pub fn event_to_node_kind(event: &Event) -> (r: Option<NodeKind>)
    ensures
        r == node_kind_of(event.kind),
{
    Some(
        match event.kind {
            EventKind::Alloc { .. } => NodeKind::Malloc(1),
            EventKind::Realloc { .. } => NodeKind::Malloc(1),
            EventKind::Free { .. } => NodeKind::Free,
            EventKind::Copy(..) | EventKind::CopyRef | EventKind::Arg(..) => NodeKind::Copy,
            EventKind::Field(_, field) => NodeKind::Field(field),
            EventKind::LoadAddr(..) => NodeKind::LoadAddr,
            EventKind::StoreAddr(..) => NodeKind::StoreAddr,
            EventKind::LoadValue(..) => NodeKind::LoadValue,
            EventKind::StoreValue(..) => NodeKind::StoreValue,
            EventKind::AddrOfLocal(_, l) => NodeKind::AddrOfLocal(l),
            EventKind::ToInt(_) => NodeKind::PtrToInt,
            EventKind::FromInt(_) => NodeKind::IntToPtr,
            EventKind::Ret(_) => return None,
            EventKind::Offset(_, offset, _) => NodeKind::Offset(offset),
            EventKind::Done => return None,
        },
    )
}

/// The provenance table after an event of kind `k`, whose statement writes to
/// `dest`, was recorded as node `mapping`.
pub open spec fn provenance_after(
    prov: Map<usize, NodeRef>,
    k: EventKind,
    dest: Option<PlaceModel>,
    mapping: NodeRef,
) -> Map<usize, NodeRef> {
    match k {
        EventKind::Alloc { ptr, .. } => prov.insert(ptr, mapping),
        EventKind::Copy(ptr) => if prov.contains_key(ptr) {
            prov
        } else {
            prov.insert(ptr, mapping)
        },
        EventKind::Realloc { new_ptr, .. } => prov.insert(new_ptr, mapping),
        EventKind::Offset(_, _, new_ptr) => prov.insert(new_ptr, mapping),
        EventKind::CopyRef => prov.insert(dest.unwrap().0, mapping),
        EventKind::AddrOfLocal(ptr, _) => prov.insert(ptr, mapping),
        _ => prov,
    }
}

/// Records in `provenances` the node `mapping` as the origin of the pointers that
/// an event of kind `event_kind` produces.  A second identical call changes
/// nothing more (see `lemma_provenance_update_idempotent`).
pub fn update_provenance(
    provenances: &mut HashMap<usize, NodeRef>,
    event_kind: &EventKind,
    metadata: &EventMetadata,
    mapping: NodeRef,
)
    requires
        *event_kind == EventKind::CopyRef ==> metadata.destination is Some,
    ensures
        final(provenances)@ == provenance_after(
            old(provenances)@,
            *event_kind,
            place_model(metadata.destination),
            mapping,
        ),
{
    match event_kind {
        EventKind::Alloc { ptr, .. } => {
            provenances.insert(*ptr, mapping);
        },
        EventKind::Copy(ptr) => {
            // only insert if not already there
            if !provenances.contains_key(ptr) {
                provenances.insert(*ptr, mapping);
            }
        },
        EventKind::Realloc { new_ptr, .. } => {
            provenances.insert(*new_ptr, mapping);
        },
        EventKind::Offset(_, _, new_ptr) => {
            provenances.insert(*new_ptr, mapping);
        },
        EventKind::CopyRef => {
            provenances.insert(metadata.destination.as_ref().unwrap().local, mapping);
        },
        EventKind::AddrOfLocal(ptr, _) => {
            provenances.insert(*ptr, mapping);
        },
        _ => (),
    }
}

/// What the builder knows: the graphs, the last assignment of each local, and
/// for each pointer the node that produced it.
pub struct PdgState {
    pub graphs: Seq<Seq<NodeModel>>,
    pub latest: Map<Place, NodeRef>,
    pub provenances: Map<usize, NodeRef>,
}

/// The state that `graphs` and `provenances` hold.
pub open spec fn state_of(graphs: Graphs, provenances: Map<usize, NodeRef>) -> PdgState {
    PdgState { graphs: graphs.model(), latest: graphs.latest_assignment@, provenances }
}

/// The state before any event.
pub open spec fn initial_state() -> PdgState {
    PdgState {
        graphs: Seq::empty(),
        latest: Map::empty(),
        provenances: Map::empty(),
    }
}

/// Whether `r` names a node of `graphs`.
pub open spec fn valid_ref(graphs: Seq<Seq<NodeModel>>, r: NodeRef) -> bool {
    r.0 < graphs.len() && r.1 < graphs[r.0 as int].len()
}

/// The node that `r` names.
pub open spec fn node_at(graphs: Seq<Seq<NodeModel>>, r: NodeRef) -> NodeModel {
    graphs[r.0 as int][r.1 as int]
}

/// Whether the source of `n`, if any, is a node of `graphs` that writes to a
/// local and does not consume its pointer.
pub open spec fn source_ok(graphs: Seq<Seq<NodeModel>>, n: NodeModel) -> bool {
    n.source matches Some(r) ==> valid_ref(graphs, r) && node_at(graphs, r).dest is Some && !node_at(
        graphs,
        r,
    ).kind.is_sink()
}

/// Whether `r` is a node of `graphs` that writes to the local `k` and does not
/// consume its pointer.
pub open spec fn assignment_ok(graphs: Seq<Seq<NodeModel>>, k: Place, r: NodeRef) -> bool {
    &&& valid_ref(graphs, r)
    &&& !node_at(graphs, r).kind.is_sink()
    &&& node_at(graphs, r).function == k.0
    &&& node_at(graphs, r).dest matches Some(d) && d.0 == k.1
}

/// The state is consistent: every graph has a root node; every source, every
/// last assignment and every provenance names an existing node; sources name
/// nodes that write to a local and do not consume their pointer, and the last
/// assignment of a local names such a node of that local's function that writes
/// to it.
pub open spec fn state_wf(s: PdgState) -> bool {
    &&& forall|g: int| 0 <= g < s.graphs.len() ==> #[trigger] s.graphs[g].len() > 0
    &&& forall|g: int, n: int|
        0 <= g < s.graphs.len() && 0 <= n < s.graphs[g].len() ==> source_ok(s.graphs, #[trigger] s.graphs[g][n])
    &&& forall|k: Place| #[trigger] s.latest.contains_key(k) ==> assignment_ok(s.graphs, k, s.latest[k])
    &&& forall|p: usize| #[trigger] s.provenances.contains_key(p) ==> valid_ref(s.graphs, s.provenances[p])
}

/// The number of nodes in all graphs.
pub open spec fn total_nodes(graphs: Seq<Seq<NodeModel>>) -> nat
    decreases graphs.len(),
{
    if graphs.len() == 0 {
        0
    } else {
        total_nodes(graphs.drop_last()) + graphs.last().len()
    }
}

/// Whether one more node can be counted, and indexed, in a `usize`.
pub open spec fn has_room(s: PdgState) -> bool {
    total_nodes(s.graphs) < usize::MAX
}

/// Whether `locs` has what handling `e` needs: the location of an event of a
/// kind that gives a node.
pub open spec fn event_ok(locs: Seq<MirLoc>, e: Event) -> bool {
    node_kind_of(e.kind) is Some ==> (e.mir_loc as int) < locs.len()
}

/// The node that last assigned the place that `loc` reads from, for a node of
/// a kind that does not create its object.
pub open spec fn source_of(latest: Map<Place, NodeRef>, loc: MirLoc, kind: NodeKind) -> Option<NodeRef> {
    match loc.metadata.source {
        Some(s) => if !kind.creates_object() && latest.contains_key((loc.body_def, s.local)) {
            Some(latest[(loc.body_def, s.local)])
        } else {
            None
        },
        None => None,
    }
}

/// The node that an event of kind `k` at `loc` gives.
pub open spec fn new_node(latest: Map<Place, NodeRef>, loc: MirLoc, k: EventKind, kind: NodeKind) -> NodeModel {
    NodeModel {
        function: loc.metadata.dest_func,
        block: loc.basic_block_idx,
        index: loc.statement_idx,
        dest: place_model(loc.metadata.destination),
        kind,
        source: source_of(latest, loc, kind),
    }
}

/// The graph that the event's node joins, when the event acts on an object
/// whose pointer has a known provenance.
pub open spec fn parent_graph(s: PdgState, k: EventKind) -> Option<GraphId> {
    if has_parent(k) && ptr_of(k) is Some && s.provenances.contains_key(ptr_of(k).unwrap()) {
        Some(s.provenances[ptr_of(k).unwrap()].0)
    } else {
        None
    }
}

/// Whether the event gives a node: its kind gives one, and it either acts on an
/// object whose graph is known or creates an object.  An event on a pointer of
/// unknown provenance that does not create an object gives none, so that every
/// graph is rooted at an operation that creates its object.
pub open spec fn gives_node(s: PdgState, k: EventKind) -> bool {
    node_kind_of(k) matches Some(kind) && (parent_graph(s, k) is Some || kind.creates_object())
}

/// Where the event's node goes: at the end of its parent graph, or as the root
/// of a new graph after all others.
pub open spec fn placement(s: PdgState, k: EventKind) -> NodeRef {
    match parent_graph(s, k) {
        Some(g) => (g, s.graphs[g as int].len() as usize),
        None => (s.graphs.len() as usize, 0),
    }
}

/// Whether the node that `r` names writes to a whole local, without projection.
pub open spec fn writes_whole_local(graphs: Seq<Seq<NodeModel>>, r: NodeRef) -> bool {
    node_at(graphs, r).dest matches Some(p) && p.1.len() == 0
}

/// The last-assignment table after the node `at` of kind `kind`, for an event
/// at `loc`: the node becomes the last assignment of its destination, unless it
/// consumes its pointer, or it writes only part of that local and the last
/// assignment wrote the whole of it.
pub open spec fn latest_after(
    latest: Map<Place, NodeRef>,
    graphs: Seq<Seq<NodeModel>>,
    loc: MirLoc,
    at: NodeRef,
    kind: NodeKind,
) -> Map<Place, NodeRef> {
    match loc.metadata.destination {
        None => latest,
        Some(_) if kind.is_sink() => latest,
        Some(d) => {
            let key = (loc.metadata.dest_func, d.local);
            if latest.contains_key(key) && d.projection@.len() > 0 && writes_whole_local(graphs, latest[key]) {
                latest
            } else {
                latest.insert(key, at)
            }
        },
    }
}

/// `graphs` with `node` placed at `at`.
pub open spec fn place_node(graphs: Seq<Seq<NodeModel>>, at: NodeRef, node: NodeModel) -> Seq<Seq<NodeModel>> {
    if at.0 < graphs.len() {
        graphs.update(at.0 as int, graphs[at.0 as int].push(node))
    } else {
        graphs.push(seq![node])
    }
}

/// The state after event `e`, whose location `locs` describes.
pub open spec fn step(s: PdgState, locs: Seq<MirLoc>, e: Event) -> PdgState {
    if !gives_node(s, e.kind) {
        s
    } else {
        let kind = node_kind_of(e.kind).unwrap();
        let loc = locs[e.mir_loc as int];
        let at = placement(s, e.kind);
        PdgState {
            graphs: place_node(s.graphs, at, new_node(s.latest, loc, e.kind, kind)),
            latest: latest_after(s.latest, s.graphs, loc, at, kind),
            provenances: provenance_after(s.provenances, e.kind, place_model(loc.metadata.destination), at),
        }
    }
}

/// Whether node `n` writes to the local that `source` names.
pub open spec fn assigns_local(n: NodeModel, source: Option<PlaceModel>) -> bool {
    &&& n.dest is Some
    &&& source is Some
    &&& n.dest.unwrap().0 == source.unwrap().0
}

/// The last node of `graph` that writes to the local that `source` names.
fn last_assignment_in(graph: &Graph, source: &Option<MirPlace>) -> (r: Option<NodeId>)
    ensures
        match r {
            Some(i) => {
                &&& i < graph@.len()
                &&& assigns_local(graph@[i as int], place_model(*source))
                &&& forall|j: int| i < j < graph@.len() ==> !assigns_local(#[trigger] graph@[j], place_model(*source))
            },
            None => forall|j: int| 0 <= j < graph@.len() ==> !assigns_local(#[trigger] graph@[j], place_model(*source)),
        },
{
    let mut i = graph.nodes.len();
    while i > 0
        invariant
            i <= graph@.len(),
            graph@.len() == graph.nodes@.len(),
            forall|j: int| i <= j < graph@.len() ==> !assigns_local(#[trigger] graph@[j], place_model(*source)),
        decreases i,
    {
        i = i - 1;
        let hit = match (&graph.nodes[i].dest, source) {
            (Some(d), Some(s)) => d.local == s.local,
            _ => false,
        };
        assert(graph@[i as int] == graph.nodes@[i as int]@);
        if hit {
            return Some(i);
        }
    }
    None
}

/// Adds the node that `event` gives, if any, to the graph of the object it acts
/// on, or to a new graph; updates the provenance of pointers and the last
/// assignment of its destination.  Returns the new node's index in its graph.
///
/// The node joins the graph that the provenance of its pointer of interest
/// names.  An event that creates an object (an allocation, a reallocation,
/// taking a local's address, converting an integer to a pointer, loading a
/// pointer) roots a new graph when it has no such graph; any other event on a
/// pointer of unknown provenance, and every `CopyRef`, gives no node, so that
/// each graph is rooted at the operation that creates its object.  Nodes that
/// create their object get no source, and nodes that consume their pointer do
/// not become the last assignment of their destination.
///
/// For an event of a kind that gives a node, the graphs and the provenance
/// table must be consistent (`state_wf`), as every state that `Graphs::new`
/// and `add_node` build is.
pub fn add_node(
    graphs: &mut Graphs,
    provenances: &mut HashMap<usize, NodeRef>,
    metadata: &Metadata,
    event: &Event,
) -> (r: Option<NodeId>)
    requires
        node_kind_of(event.kind) is Some ==> state_wf(state_of(*old(graphs), old(provenances)@)),
        node_kind_of(event.kind) is Some ==> has_room(state_of(*old(graphs), old(provenances)@)),
        event_ok(metadata.locs@, *event),
    ensures
        state_wf(state_of(*old(graphs), old(provenances)@)) ==> state_wf(state_of(*final(graphs), final(provenances)@)),
        state_of(*final(graphs), final(provenances)@) == step(
            state_of(*old(graphs), old(provenances)@),
            metadata.locs@,
            *event,
        ),
        r == (if gives_node(state_of(*old(graphs), old(provenances)@), event.kind) {
            Some(placement(state_of(*old(graphs), old(provenances)@), event.kind).1)
        } else {
            None::<NodeId>
        }),
{
    let ghost s = state_of(*graphs, provenances@);
    let node_kind = match event_to_node_kind(event) {
        Some(kind) => kind,
        None => return None,
    };
    proof {
        lemma_step_preserves_wf(s, metadata.locs@, *event);
    }
    let loc = mir_loc::get(metadata, event.mir_loc).unwrap();
    let ghost at = placement(s, event.kind);
    let function = loc.body_def;
    let dest_fn = loc.metadata.dest_func;
    let md = &loc.metadata;

    let source = match &md.source {
        Some(read) => graphs.latest_assignment.get((function, read.local)),
        None => None,
    };

    let ptr = match get_ptr(&event.kind, md) {
        Some(p) => match provenances.get(&p) {
            Some(found) => {
                let (gid, last_nid_ref) = *found;
                assert(provenances@.contains_key(p));
                let nid = match last_assignment_in(&graphs.graphs[gid], &md.source) {
                    Some(nid) => nid,
                    None => last_nid_ref,
                };
                assert(parent_graph(s, event.kind) == (if has_parent(event.kind) { Some(gid) } else { None::<GraphId> }));
                Some((gid, nid))
            },
            None => {
                assert(!provenances@.contains_key(p));
                assert(parent_graph(s, event.kind) is None);
                None
            },
        },
        None => {
            assert(parent_graph(s, event.kind) is None);
            None
        },
    };
    let parent = match ptr {
        Some(p) => get_parent_object(&event.kind, p),
        None => None,
    };
    if parent.is_none() && !node_kind.creates_object() {
        return None;
    }

    let node = Node {
        function: dest_fn,
        block: loc.basic_block_idx,
        index: loc.statement_idx,
        kind: node_kind,
        source: match source {
            Some(p) => if node_kind.creates_object() {
                None
            } else {
                Some(p)
            },
            None => None,
        },
        dest: copy_place(&md.destination),
    };

    let graph_id = match parent {
        Some((gid, _)) => gid,
        None => {
            graphs.graphs.push(Graph::new());
            graphs.graphs.len() - 1
        },
    };
    let ghost mid = graphs.graphs@;
    let ghost node_model = node@;
    proof {
        if graph_id < s.graphs.len() {
            assert(mid.map_values(|g: Graph| g@) == s.graphs);
        } else {
            assert(mid.map_values(|g: Graph| g@) =~= s.graphs.push(Seq::empty()));
        }
    }
    let mut g = Graph::new();
    graphs.graphs.set_and_swap(graph_id, &mut g);
    let node_id = g.nodes.len();
    g.nodes.push(node);
    let ghost filled = g;
    graphs.graphs.set_and_swap(graph_id, &mut g);
    assert(graphs.graphs@ =~= mid.update(graph_id as int, filled));
    assert(filled@ =~= mid[graph_id as int]@.push(node_model));
    assert(graphs.model() =~= mid.map_values(|g: Graph| g@).update(graph_id as int, mid[graph_id as int]@.push(node_model)));
    assert(graphs.model() =~= place_node(s.graphs, at, new_node(s.latest, *loc, event.kind, node_kind)));
    update_provenance(provenances, &event.kind, md, (graph_id, node_id));
    let ghost post = step(s, metadata.locs@, *event);

    if let Some(dest) = &md.destination {
        if !node_kind.is_sink() {
            let unique_place = (dest_fn, dest.local);
            let last_setting = (graph_id, node_id);
            if let Some(last) = graphs.latest_assignment.insert(unique_place, last_setting) {
                if !dest.projection.is_empty() && graphs.graphs[last.0].nodes[last.1].dest.as_ref().unwrap().projection.is_empty() {
                    graphs.latest_assignment.insert(unique_place, last);
                }
            }
        }
    }
    assert(graphs.latest_assignment@ == post.latest);
    Some(node_id)
}

/// Whether `metadata` has what handling `event` needs (see `event_ok`).
pub fn event_resolves(metadata: &Metadata, event: &Event) -> (r: bool)
    ensures
        r == event_ok(metadata.locs@, *event),
{
    if event_to_node_kind(event).is_none() {
        return true;
    }
    mir_loc::get(metadata, event.mir_loc).is_some()
}

/// The index of the first event that `metadata` cannot resolve, if any.
pub fn first_unresolved_event(events: &Vec<Event>, metadata: &Metadata) -> (r: Option<usize>)
    ensures
        match r {
            Some(i) => i < events@.len() && !event_ok(metadata.locs@, events@[i as int]) && forall|j: int|
                0 <= j < i ==> event_ok(metadata.locs@, #[trigger] events@[j]),
            None => forall|j: int| 0 <= j < events@.len() ==> event_ok(metadata.locs@, #[trigger] events@[j]),
        },
{
    let n: usize = events.len();
    for i in 0..n
        invariant
            n == events@.len(),
            forall|j: int| 0 <= j < i ==> event_ok(metadata.locs@, #[trigger] events@[j]),
    {
        if !event_resolves(metadata, &events[i]) {
            return Some(i);
        }
    }
    None
}

/// The state after all of `events`, in order, from the initial state.
pub open spec fn run(locs: Seq<MirLoc>, events: Seq<Event>) -> PdgState
    decreases events.len(),
{
    if events.len() == 0 {
        initial_state()
    } else {
        step(run(locs, events.drop_last()), locs, events.last())
    }
}

/// Builds the graphs of all `events`, in order.
pub fn construct_pdg(events: &Vec<Event>, metadata: &Metadata) -> (g: Graphs)
    requires
        forall|i: int| 0 <= i < events@.len() ==> event_ok(metadata.locs@, #[trigger] events@[i]),
    ensures
        g.model() == run(metadata.locs@, events@).graphs,
        g.latest_assignment@ == run(metadata.locs@, events@).latest,
        state_wf(run(metadata.locs@, events@)),
        total_nodes(g.model()) == nodes_given(metadata.locs@, events@),
        allocations_are_roots(g.model()),
        roots_create_objects(g.model()),
{
    let mut graphs = Graphs::new();
    let mut provenances = HashMap::<usize, NodeRef>::new();
    let n = events.len();
    for i in 0..n
        invariant
            n == events@.len(),
            forall|j: int| 0 <= j < events@.len() ==> event_ok(metadata.locs@, #[trigger] events@[j]),
            state_of(graphs, provenances@) == run(metadata.locs@, events@.take(i as int)),
            state_wf(state_of(graphs, provenances@)),
            total_nodes(graphs.model()) == nodes_given(metadata.locs@, events@.take(i as int)),
            allocations_are_roots(graphs.model()),
            roots_create_objects(graphs.model()),
    {
        let ghost s = state_of(graphs, provenances@);
        let ghost prefix = events@.take(i as int);
        proof {
            lemma_nodes_given_bound(metadata.locs@, prefix);
            assert(events@.take(i + 1).drop_last() == prefix);
            assert(events@.take(i + 1).last() == events@[i as int]);
            lemma_step_node_count(s, metadata.locs@, events@[i as int]);
            lemma_step_allocations_are_roots(s, metadata.locs@, events@[i as int]);
            lemma_step_roots_create_objects(s, metadata.locs@, events@[i as int]);
        }
        add_node(&mut graphs, &mut provenances, metadata, &events[i]);
    }
    assert(events@.take(n as int) == events@);
    graphs
}

} // verus!
