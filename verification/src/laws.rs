//! What every step of the builder keeps: consistency, the nodes already built,
//! and where allocations stand.

use vstd::prelude::*;

use crate::builder::{
    PdgState, assignment_ok, event_ok, gives_node, has_parent, has_room, new_node, node_at, node_kind_of, place_node,
    placement, provenance_after, ptr_of, run, source_ok, state_wf, step, total_nodes, valid_ref,
};
use crate::events::{Event, EventKind};
use crate::graph::{NodeKind, NodeModel, NodeRef, Place};
use crate::mir_loc::{MirLoc, PlaceModel, place_model};

verus! {

/// Placing a node keeps every existing node where it was and adds the node at `at`.
proof fn lemma_place_node(graphs: Seq<Seq<NodeModel>>, at: NodeRef, node: NodeModel)
    requires
        (at.0 < graphs.len() && at.1 == graphs[at.0 as int].len()) || (at.0 == graphs.len() && at.1 == 0),
    ensures
        valid_ref(place_node(graphs, at, node), at),
        node_at(place_node(graphs, at, node), at) == node,
        place_node(graphs, at, node).len() >= graphs.len(),
        forall|r: NodeRef| #[trigger] valid_ref(graphs, r) ==> valid_ref(place_node(graphs, at, node), r)
            && node_at(place_node(graphs, at, node), r) == node_at(graphs, r),
        forall|g: int| 0 <= g < graphs.len() ==> #[trigger] place_node(graphs, at, node)[g].len() >= graphs[g].len(),
        forall|g: int, n: int|
            0 <= g < graphs.len() && 0 <= n < graphs[g].len() ==> #[trigger] place_node(graphs, at, node)[g][n]
                == graphs[g][n],
        forall|g: int, n: int|
            0 <= g < place_node(graphs, at, node).len() && 0 <= n < place_node(graphs, at, node)[g].len() && !(0
                <= g < graphs.len() && 0 <= n < graphs[g].len()) ==> g == at.0 && n == at.1 && #[trigger] place_node(
                graphs,
                at,
                node,
            )[g][n] == node,
{
    let t = place_node(graphs, at, node);
    assert forall|r: NodeRef| #[trigger] valid_ref(graphs, r) implies valid_ref(t, r) && node_at(t, r) == node_at(graphs, r) by {
        if at.0 < graphs.len() && r.0 == at.0 {
            assert(t[r.0 as int] == graphs[r.0 as int].push(node));
        }
    }
    assert forall|g: int, n: int| 0 <= g < graphs.len() && 0 <= n < graphs[g].len() implies #[trigger] t[g][n] == graphs[g][n] by {
        if at.0 < graphs.len() && g == at.0 {
            assert(t[g] == graphs[g].push(node));
        }
    }
}

/// Each graph has at most as many nodes as all graphs together; with no empty
/// graph, there are at most as many graphs as nodes.
proof fn lemma_total_bounds(graphs: Seq<Seq<NodeModel>>)
    ensures
        forall|g: int| 0 <= g < graphs.len() ==> #[trigger] graphs[g].len() <= total_nodes(graphs),
        (forall|g: int| 0 <= g < graphs.len() ==> #[trigger] graphs[g].len() > 0) ==> graphs.len() <= total_nodes(graphs),
    decreases graphs.len(),
{
    if graphs.len() > 0 {
        let init = graphs.drop_last();
        lemma_total_bounds(init);
        assert forall|g: int| 0 <= g < graphs.len() implies #[trigger] graphs[g].len() <= total_nodes(graphs) by {
            if g < init.len() {
                assert(init[g] == graphs[g]);
            }
        }
        if forall|g: int| 0 <= g < graphs.len() ==> #[trigger] graphs[g].len() > 0 {
            assert forall|g: int| 0 <= g < init.len() implies #[trigger] init[g].len() > 0 by {
                assert(init[g] == graphs[g]);
            }
        }
    }
}

/// A step keeps the state consistent.
pub proof fn lemma_step_preserves_wf(s: PdgState, locs: Seq<MirLoc>, e: Event)
    requires
        state_wf(s),
        has_room(s),
        event_ok(locs, e),
    ensures
        state_wf(step(s, locs, e)),
{
    if let Some(kind) = node_kind_of(e.kind) {
        let loc = locs[e.mir_loc as int];
        let at = placement(s, e.kind);
        let node = new_node(s.latest, loc, e.kind, kind);
        let t = step(s, locs, e);
        lemma_total_bounds(s.graphs);
        lemma_place_node(s.graphs, at, node);
        assert forall|g: int| 0 <= g < t.graphs.len() implies #[trigger] t.graphs[g].len() > 0 by {
            if g < s.graphs.len() {
                assert(s.graphs[g].len() > 0);
            }
        }
        assert forall|g: int, n: int| 0 <= g < t.graphs.len() && 0 <= n < t.graphs[g].len() implies source_ok(
            t.graphs,
            #[trigger] t.graphs[g][n],
        ) by {
            if g < s.graphs.len() && n < s.graphs[g].len() {
                assert(source_ok(s.graphs, s.graphs[g][n]));
            } else {
                assert(t.graphs[g][n] == node);
                if let Some(src) = node.source {
                    let s_loc = loc.metadata.source.unwrap();
                    assert(s.latest.contains_key((loc.body_def, s_loc.local)));
                }
            }
        }
        assert forall|k| #[trigger] t.latest.contains_key(k) implies assignment_ok(t.graphs, k, t.latest[k]) by {
            if s.latest.contains_key(k) && t.latest[k] == s.latest[k] {
                assert(assignment_ok(s.graphs, k, s.latest[k]));
                assert(valid_ref(s.graphs, s.latest[k]));
            }
        }
        assert forall|p: usize| #[trigger] t.provenances.contains_key(p) implies valid_ref(t.graphs, t.provenances[p]) by {
            if s.provenances.contains_key(p) && t.provenances[p] == s.provenances[p] {
                assert(valid_ref(s.graphs, s.provenances[p]));
            }
        }
    }
}

proof fn lemma_total_push(graphs: Seq<Seq<NodeModel>>, x: Seq<NodeModel>)
    ensures
        total_nodes(graphs.push(x)) == total_nodes(graphs) + x.len(),
{
    assert(graphs.push(x).drop_last() == graphs);
}

proof fn lemma_total_update(graphs: Seq<Seq<NodeModel>>, i: int, x: Seq<NodeModel>)
    requires
        0 <= i < graphs.len(),
    ensures
        total_nodes(graphs.update(i, x)) == total_nodes(graphs) - graphs[i].len() + x.len(),
    decreases graphs.len(),
{
    let u = graphs.update(i, x);
    if i == graphs.len() - 1 {
        assert(u.drop_last() == graphs.drop_last());
    } else {
        lemma_total_update(graphs.drop_last(), i, x);
        assert(u.drop_last() == graphs.drop_last().update(i, x));
    }
}

/// The number of events of `events` that give a node, each in the state that
/// the events before it build.
pub open spec fn nodes_given(locs: Seq<MirLoc>, events: Seq<Event>) -> nat
    decreases events.len(),
{
    if events.len() == 0 {
        0
    } else {
        nodes_given(locs, events.drop_last()) + if gives_node(run(locs, events.drop_last()), events.last().kind) {
            1nat
        } else {
            0nat
        }
    }
}

/// At most one node per event.
pub proof fn lemma_nodes_given_bound(locs: Seq<MirLoc>, events: Seq<Event>)
    ensures
        nodes_given(locs, events) <= events.len(),
    decreases events.len(),
{
    if events.len() > 0 {
        lemma_nodes_given_bound(locs, events.drop_last());
    }
}

/// A step adds exactly one node when the event gives one, and none otherwise.
pub proof fn lemma_step_node_count(s: PdgState, locs: Seq<MirLoc>, e: Event)
    requires
        state_wf(s),
        has_room(s),
        event_ok(locs, e),
    ensures
        total_nodes(step(s, locs, e).graphs) == total_nodes(s.graphs) + if gives_node(s, e.kind) {
            1nat
        } else {
            0nat
        },
{
    if gives_node(s, e.kind) {
        let kind = node_kind_of(e.kind).unwrap();
        let loc = locs[e.mir_loc as int];
        let at = placement(s, e.kind);
        let node = new_node(s.latest, loc, e.kind, kind);
        lemma_total_bounds(s.graphs);
        if at.0 < s.graphs.len() {
            lemma_total_update(s.graphs, at.0 as int, s.graphs[at.0 as int].push(node));
        } else {
            lemma_total_push(s.graphs, seq![node]);
        }
    }
}

/// A step changes no node that exists and removes no graph: each graph of the
/// state before is a prefix of the same graph after.  Nodes are thus stored in
/// the order in which their events happened.
pub proof fn lemma_step_keeps_nodes(s: PdgState, locs: Seq<MirLoc>, e: Event)
    requires
        state_wf(s),
        has_room(s),
        event_ok(locs, e),
    ensures
        step(s, locs, e).graphs.len() >= s.graphs.len(),
        forall|g: int|
            0 <= g < s.graphs.len() ==> #[trigger] step(s, locs, e).graphs[g].len() >= s.graphs[g].len()
                && step(s, locs, e).graphs[g].subrange(0, s.graphs[g].len() as int) == s.graphs[g],
{
    if let Some(kind) = node_kind_of(e.kind) {
        let loc = locs[e.mir_loc as int];
        let at = placement(s, e.kind);
        let node = new_node(s.latest, loc, e.kind, kind);
        let t = step(s, locs, e);
        lemma_total_bounds(s.graphs);
        lemma_place_node(s.graphs, at, node);
        assert forall|g: int| 0 <= g < s.graphs.len() implies #[trigger] t.graphs[g].len() >= s.graphs[g].len()
            && t.graphs[g].subrange(0, s.graphs[g].len() as int) == s.graphs[g] by {
            assert(t.graphs[g].subrange(0, s.graphs[g].len() as int) =~= s.graphs[g]);
        }
    }
}

/// Whether every allocation node and every node that takes a local's address is
/// the root node of its graph, with no source: such nodes create the object
/// that their graph describes.
pub open spec fn allocations_are_roots(graphs: Seq<Seq<NodeModel>>) -> bool {
    forall|g: int, n: int|
        0 <= g < graphs.len() && 0 <= n < graphs[g].len() && (#[trigger] graphs[g][n].kind is Malloc
            || graphs[g][n].kind is AddrOfLocal) ==> n == 0 && graphs[g][n].source is None
}

/// A step keeps allocation and address-of-local nodes at the root of their graphs.
pub proof fn lemma_step_allocations_are_roots(s: PdgState, locs: Seq<MirLoc>, e: Event)
    requires
        state_wf(s),
        has_room(s),
        event_ok(locs, e),
        allocations_are_roots(s.graphs),
    ensures
        allocations_are_roots(step(s, locs, e).graphs),
{
    if let Some(kind) = node_kind_of(e.kind) {
        let loc = locs[e.mir_loc as int];
        let at = placement(s, e.kind);
        let node = new_node(s.latest, loc, e.kind, kind);
        let t = step(s, locs, e);
        lemma_total_bounds(s.graphs);
        lemma_place_node(s.graphs, at, node);
        assert forall|g: int, n: int|
            0 <= g < t.graphs.len() && 0 <= n < t.graphs[g].len() && (#[trigger] t.graphs[g][n].kind is Malloc
                || t.graphs[g][n].kind is AddrOfLocal) implies n == 0 && t.graphs[g][n].source is None by {
            if g < s.graphs.len() && n < s.graphs[g].len() {
                assert(t.graphs[g][n] == s.graphs[g][n]);
            } else {
                assert(t.graphs[g][n] == node);
            }
        }
    }
}

/// An allocation starts a new graph whose root node is the allocation, with
/// the allocated pointer's provenance at that root.
pub proof fn lemma_alloc_starts_graph(s: PdgState, locs: Seq<MirLoc>, e: Event)
    requires
        state_wf(s),
        has_room(s),
        event_ok(locs, e),
        e.kind is Alloc,
    ensures
        step(s, locs, e).graphs.len() == s.graphs.len() + 1,
        step(s, locs, e).graphs.last().len() == 1,
        step(s, locs, e).graphs.last()[0].kind == NodeKind::Malloc(1),
        step(s, locs, e).graphs.last()[0].source is None,
        step(s, locs, e).provenances[e.kind->Alloc_ptr] == (s.graphs.len() as usize, 0usize),
        forall|g: int| 0 <= g < s.graphs.len() ==> #[trigger] step(s, locs, e).graphs[g] == s.graphs[g],
{
    lemma_total_bounds(s.graphs);
}

/// After an event that writes a whole local, that local's last assignment is
/// the event's node.
pub proof fn lemma_whole_local_write_is_latest(s: PdgState, locs: Seq<MirLoc>, e: Event)
    requires
        state_wf(s),
        has_room(s),
        event_ok(locs, e),
        gives_node(s, e.kind),
        !node_kind_of(e.kind).unwrap().is_sink(),
        locs[e.mir_loc as int].metadata.destination matches Some(d) && d.projection@.len() == 0,
    ensures
        ({
            let loc = locs[e.mir_loc as int];
            let d = loc.metadata.destination.unwrap();
            step(s, locs, e).latest[(loc.metadata.dest_func, d.local)] == placement(s, e.kind)
        }),
{
}

/// The source of a new node is the last node that wrote the local its
/// statement reads, in the statement's own function: the node that produced its
/// input, and a node that does not consume its pointer.  A node that creates its
/// object has no source.
pub proof fn lemma_source_is_last_write(s: PdgState, locs: Seq<MirLoc>, e: Event)
    requires
        state_wf(s),
        has_room(s),
        event_ok(locs, e),
        gives_node(s, e.kind),
    ensures
        ({
            let loc = locs[e.mir_loc as int];
            let t = step(s, locs, e);
            let n = node_at(t.graphs, placement(s, e.kind));
            &&& n.source matches Some(r) ==> {
                &&& loc.metadata.source matches Some(src)
                &&& s.latest.contains_key((loc.body_def, src.local))
                &&& r == s.latest[(loc.body_def, src.local)]
                &&& node_at(t.graphs, r).function == loc.body_def
                &&& node_at(t.graphs, r).dest matches Some(d) && d.0 == src.local
                &&& !node_at(t.graphs, r).kind.is_sink()
            }
            &&& n.kind.creates_object() ==> n.source is None
        }),
{
    let kind = node_kind_of(e.kind).unwrap();
    let loc = locs[e.mir_loc as int];
    let at = placement(s, e.kind);
    let node = new_node(s.latest, loc, e.kind, kind);
    lemma_total_bounds(s.graphs);
    lemma_place_node(s.graphs, at, node);
    if let Some(r) = node.source {
        let src = loc.metadata.source.unwrap();
        assert(assignment_ok(s.graphs, (loc.body_def, src.local), r));
    }
}

/// Recording the same provenance twice is the same as recording it once.
pub proof fn lemma_provenance_update_idempotent(
    prov: Map<usize, NodeRef>,
    k: EventKind,
    dest: Option<PlaceModel>,
    mapping: NodeRef,
)
    requires
        k == EventKind::CopyRef ==> dest is Some,
    ensures
        provenance_after(provenance_after(prov, k, dest, mapping), k, dest, mapping) == provenance_after(
            prov,
            k,
            dest,
            mapping,
        ),
{
    let once = provenance_after(prov, k, dest, mapping);
    assert(provenance_after(once, k, dest, mapping) =~= once);
}

/// Whether every graph is rooted at an operation that creates its object, and
/// no operation that creates its object has a source.
pub open spec fn roots_create_objects(graphs: Seq<Seq<NodeModel>>) -> bool {
    &&& forall|g: int| 0 <= g < graphs.len() && graphs[g].len() > 0 ==> (#[trigger] graphs[g][0]).kind.creates_object()
    &&& forall|g: int, n: int|
        0 <= g < graphs.len() && 0 <= n < graphs[g].len() && (#[trigger] graphs[g][n]).kind.creates_object()
            ==> graphs[g][n].source is None
}

/// A step keeps every graph rooted at an operation that creates its object,
/// and keeps such operations without a source.
pub proof fn lemma_step_roots_create_objects(s: PdgState, locs: Seq<MirLoc>, e: Event)
    requires
        state_wf(s),
        has_room(s),
        event_ok(locs, e),
        roots_create_objects(s.graphs),
    ensures
        roots_create_objects(step(s, locs, e).graphs),
{
    if gives_node(s, e.kind) {
        let kind = node_kind_of(e.kind).unwrap();
        let loc = locs[e.mir_loc as int];
        let at = placement(s, e.kind);
        let node = new_node(s.latest, loc, e.kind, kind);
        let t = step(s, locs, e);
        lemma_total_bounds(s.graphs);
        lemma_place_node(s.graphs, at, node);
        assert forall|g: int| 0 <= g < t.graphs.len() && t.graphs[g].len() > 0 implies (
        #[trigger] t.graphs[g][0]).kind.creates_object() by {
            if g < s.graphs.len() && 0 < s.graphs[g].len() {
                assert(t.graphs[g][0] == s.graphs[g][0]);
            } else {
                assert(t.graphs[g][0] == node);
            }
        }
        assert forall|g: int, n: int|
            0 <= g < t.graphs.len() && 0 <= n < t.graphs[g].len() && (#[trigger] t.graphs[g][n]).kind.creates_object()
                implies t.graphs[g][n].source is None by {
            if g < s.graphs.len() && n < s.graphs[g].len() {
                assert(t.graphs[g][n] == s.graphs[g][n]);
            } else {
                assert(t.graphs[g][n] == node);
            }
        }
    }
}

/// The node kind that each event kind gives, field for field.
pub proof fn lemma_node_kinds()
    ensures
        forall|size: usize, ptr: usize| #[trigger] node_kind_of(EventKind::Alloc { size, ptr }) == Some(NodeKind::Malloc(1)),
        forall|old_ptr: usize, size: usize, new_ptr: usize|
            #[trigger] node_kind_of(EventKind::Realloc { old_ptr, size, new_ptr }) == Some(NodeKind::Malloc(1)),
        forall|ptr: usize| #[trigger] node_kind_of(EventKind::Free { ptr }) == Some(NodeKind::Free),
        forall|p: usize| #[trigger] node_kind_of(EventKind::Copy(p)) == Some(NodeKind::Copy),
        forall|p: usize| #[trigger] node_kind_of(EventKind::Arg(p)) == Some(NodeKind::Copy),
        node_kind_of(EventKind::CopyRef) == Some(NodeKind::Copy),
        forall|p: usize, f: u32| #[trigger] node_kind_of(EventKind::Field(p, f)) == Some(NodeKind::Field(f)),
        forall|p: usize| #[trigger] node_kind_of(EventKind::LoadAddr(p)) == Some(NodeKind::LoadAddr),
        forall|p: usize| #[trigger] node_kind_of(EventKind::StoreAddr(p)) == Some(NodeKind::StoreAddr),
        forall|p: usize| #[trigger] node_kind_of(EventKind::LoadValue(p)) == Some(NodeKind::LoadValue),
        forall|p: usize| #[trigger] node_kind_of(EventKind::StoreValue(p)) == Some(NodeKind::StoreValue),
        forall|p: usize, l: u32| #[trigger] node_kind_of(EventKind::AddrOfLocal(p, l)) == Some(NodeKind::AddrOfLocal(l)),
        forall|p: usize| #[trigger] node_kind_of(EventKind::ToInt(p)) == Some(NodeKind::PtrToInt),
        forall|p: usize| #[trigger] node_kind_of(EventKind::FromInt(p)) == Some(NodeKind::IntToPtr),
        forall|p: usize, off: isize, q: usize|
            #[trigger] node_kind_of(EventKind::Offset(p, off, q)) == Some(NodeKind::Offset(off)),
        forall|p: usize| #[trigger] node_kind_of(EventKind::Ret(p)) == None::<NodeKind>,
        node_kind_of(EventKind::Done) == None::<NodeKind>,
{
}

/// The pointer that each event kind acts on, and whether it acts on an existing object.
pub proof fn lemma_pointers_of_interest()
    ensures
        forall|size: usize, ptr: usize|
            #[trigger] ptr_of(EventKind::Alloc { size, ptr }) == Some(ptr) && !has_parent(EventKind::Alloc { size, ptr }),
        forall|old_ptr: usize, size: usize, new_ptr: usize|
            #[trigger] ptr_of(EventKind::Realloc { old_ptr, size, new_ptr }) == Some(old_ptr) && !has_parent(
                EventKind::Realloc { old_ptr, size, new_ptr },
            ),
        forall|p: usize, l: u32|
            #[trigger] ptr_of(EventKind::AddrOfLocal(p, l)) == Some(p) && !has_parent(EventKind::AddrOfLocal(p, l)),
        forall|ptr: usize| #[trigger] ptr_of(EventKind::Free { ptr }) == Some(ptr) && has_parent(EventKind::Free { ptr }),
        forall|p: usize| #[trigger] ptr_of(EventKind::Copy(p)) == Some(p) && has_parent(EventKind::Copy(p)),
        forall|p: usize| #[trigger] ptr_of(EventKind::Arg(p)) == Some(p) && has_parent(EventKind::Arg(p)),
        forall|p: usize| #[trigger] ptr_of(EventKind::Ret(p)) == Some(p) && has_parent(EventKind::Ret(p)),
        forall|p: usize, f: u32| #[trigger] ptr_of(EventKind::Field(p, f)) == Some(p) && has_parent(EventKind::Field(p, f)),
        forall|p: usize| #[trigger] ptr_of(EventKind::LoadAddr(p)) == Some(p) && has_parent(EventKind::LoadAddr(p)),
        forall|p: usize| #[trigger] ptr_of(EventKind::StoreAddr(p)) == Some(p) && has_parent(EventKind::StoreAddr(p)),
        forall|p: usize| #[trigger] ptr_of(EventKind::LoadValue(p)) == Some(p) && has_parent(EventKind::LoadValue(p)),
        forall|p: usize| #[trigger] ptr_of(EventKind::StoreValue(p)) == Some(p) && has_parent(EventKind::StoreValue(p)),
        forall|p: usize| #[trigger] ptr_of(EventKind::ToInt(p)) == Some(p) && has_parent(EventKind::ToInt(p)),
        forall|p: usize| #[trigger] ptr_of(EventKind::FromInt(p)) == Some(p) && has_parent(EventKind::FromInt(p)),
        forall|p: usize, off: isize, q: usize|
            #[trigger] ptr_of(EventKind::Offset(p, off, q)) == Some(p) && has_parent(EventKind::Offset(p, off, q)),
        ptr_of(EventKind::CopyRef) == None::<usize> && has_parent(EventKind::CopyRef),
        ptr_of(EventKind::Done) == None::<usize> && !has_parent(EventKind::Done),
{
}

/// The pointer whose provenance an event records, if any: the allocated,
/// reallocated, offset or address-taken pointer, the destination local of a
/// `CopyRef`, and a copied pointer that had no provenance yet.
pub open spec fn recorded_pointer(prov: Map<usize, NodeRef>, k: EventKind, dest: Option<PlaceModel>) -> Option<usize> {
    match k {
        EventKind::Alloc { ptr, .. } => Some(ptr),
        EventKind::Realloc { new_ptr, .. } => Some(new_ptr),
        EventKind::Offset(_, _, new_ptr) => Some(new_ptr),
        EventKind::AddrOfLocal(ptr, _) => Some(ptr),
        EventKind::CopyRef => Some(dest.unwrap().0),
        EventKind::Copy(ptr) => if prov.contains_key(ptr) {
            None
        } else {
            Some(ptr)
        },
        _ => None,
    }
}

/// An event records its node as the provenance of the pointer it produces,
/// whether or not that pointer was tracked before (a copy only when it was
/// not), and leaves the provenance of every other pointer as it was.
pub proof fn lemma_provenance_records(prov: Map<usize, NodeRef>, k: EventKind, dest: Option<PlaceModel>, mapping: NodeRef)
    requires
        k == EventKind::CopyRef ==> dest is Some,
    ensures
        recorded_pointer(prov, k, dest) matches Some(p) ==> provenance_after(prov, k, dest, mapping).contains_key(p)
            && provenance_after(prov, k, dest, mapping)[p] == mapping,
        forall|q: usize|
            recorded_pointer(prov, k, dest) != Some(q) ==> (#[trigger] provenance_after(prov, k, dest, mapping).contains_key(q)
                == prov.contains_key(q) && (prov.contains_key(q) ==> provenance_after(prov, k, dest, mapping)[q] == prov[q])),
        k matches EventKind::Realloc { new_ptr, .. } ==> provenance_after(prov, k, dest, mapping).contains_key(new_ptr)
            && provenance_after(prov, k, dest, mapping)[new_ptr] == mapping,
{
}

/// The node that an event gives records its location: the location's function
/// for the destination, its basic block, its statement, its destination; its
/// kind is the event's node kind; it is the last node of its graph.
pub proof fn lemma_node_records_location(s: PdgState, locs: Seq<MirLoc>, e: Event)
    requires
        state_wf(s),
        has_room(s),
        event_ok(locs, e),
        gives_node(s, e.kind),
    ensures
        ({
            let loc = locs[e.mir_loc as int];
            let t = step(s, locs, e);
            let at = placement(s, e.kind);
            let n = node_at(t.graphs, at);
            &&& valid_ref(t.graphs, at)
            &&& at.1 + 1 == t.graphs[at.0 as int].len()
            &&& n.block == loc.basic_block_idx
            &&& n.index == loc.statement_idx
            &&& n.function == loc.metadata.dest_func
            &&& n.dest == place_model(loc.metadata.destination)
            &&& node_kind_of(e.kind) == Some(n.kind)
        }),
{
    let kind = node_kind_of(e.kind).unwrap();
    let loc = locs[e.mir_loc as int];
    let at = placement(s, e.kind);
    let node = new_node(s.latest, loc, e.kind, kind);
    lemma_total_bounds(s.graphs);
    lemma_place_node(s.graphs, at, node);
}

/// Where the node that an event gives goes: at the end of the graph that the
/// provenance of its pointer names, when the event acts on an existing object
/// whose pointer is tracked; else at the root of a new graph after all others.
pub proof fn lemma_node_placement(s: PdgState, locs: Seq<MirLoc>, e: Event)
    requires
        state_wf(s),
        has_room(s),
        event_ok(locs, e),
        gives_node(s, e.kind),
    ensures
        ({
            let t = step(s, locs, e);
            let at = placement(s, e.kind);
            if has_parent(e.kind) && ptr_of(e.kind) is Some && s.provenances.contains_key(ptr_of(e.kind).unwrap()) {
                &&& at.0 == s.provenances[ptr_of(e.kind).unwrap()].0
                &&& at.1 == s.graphs[at.0 as int].len()
                &&& t.graphs.len() == s.graphs.len()
            } else {
                &&& at.0 == s.graphs.len()
                &&& at.1 == 0
                &&& t.graphs.len() == s.graphs.len() + 1
                &&& node_kind_of(e.kind).unwrap().creates_object()
            }
        }),
{
    lemma_total_bounds(s.graphs);
}

/// The last assignment of an event's destination: its node, unless the node
/// consumes its pointer or writes only part of a local whose last assignment
/// wrote all of it; every other local keeps its last assignment.
pub proof fn lemma_last_assignment_after(s: PdgState, locs: Seq<MirLoc>, e: Event)
    requires
        state_wf(s),
        has_room(s),
        event_ok(locs, e),
        gives_node(s, e.kind),
    ensures
        ({
            let loc = locs[e.mir_loc as int];
            let t = step(s, locs, e);
            let at = placement(s, e.kind);
            let kind = node_kind_of(e.kind).unwrap();
            match loc.metadata.destination {
                None => t.latest == s.latest,
                Some(d) => {
                    let key = (loc.metadata.dest_func, d.local);
                    let keeps_whole = s.latest.contains_key(key) && d.projection@.len() > 0 && (node_at(
                        s.graphs,
                        s.latest[key],
                    ).dest matches Some(p) && p.1.len() == 0);
                    &&& (kind.is_sink() || keeps_whole) ==> t.latest == s.latest
                    &&& !(kind.is_sink() || keeps_whole) ==> t.latest.contains_key(key) && t.latest[key] == at
                    &&& forall|k: Place| k != key ==> #[trigger] t.latest.contains_key(k) == s.latest.contains_key(k)
                        && (s.latest.contains_key(k) ==> t.latest[k] == s.latest[k])
                },
            }
        }),
{
}

} // verus!
