use std::collections::HashMap;

use pdg::builder::{
    add_node, construct_pdg, event_resolves, event_to_node_kind, first_unresolved_event, get_ptr, update_provenance,
};
use pdg::events::{Event, EventKind};
use pdg::graph::{Graphs, NodeKind, NodeRef, ROOT_NODE};
use pdg::mir_loc::{DefPathHash, EventMetadata, Metadata, MirLoc, MirPlace, MirProjection};

const F: DefPathHash = DefPathHash(1, 2);

fn place(local: usize, projection: Vec<MirProjection>) -> MirPlace {
    MirPlace { local, projection }
}

fn loc(bb: usize, stmt: usize, source: Option<MirPlace>, destination: Option<MirPlace>) -> MirLoc {
    MirLoc {
        body_def: F,
        basic_block_idx: bb,
        statement_idx: stmt,
        metadata: EventMetadata { source, destination, dest_func: F },
    }
}

fn ev(mir_loc: u32, kind: EventKind) -> Event {
    Event { mir_loc, kind }
}

fn total_nodes(g: &Graphs) -> usize {
    g.graphs.iter().map(|g| g.nodes.len()).sum()
}

/// locations: 0 = `_1 = malloc`, 1 = `_2 = copy _1`, 2 = `_3 = &(*_2).0`, 3 = free(_2)
/// (reads _2, no destination), 4 = `_4 = malloc`, 5 = `_2.0 = ...` (partial write of _2),
/// 6 = no source, no destination.
fn metadata() -> Metadata {
    Metadata {
        locs: vec![
            loc(0, 0, None, Some(place(1, vec![]))),
            loc(0, 1, Some(place(1, vec![])), Some(place(2, vec![]))),
            loc(0, 2, Some(place(2, vec![])), Some(place(3, vec![]))),
            loc(1, 0, Some(place(2, vec![])), None),
            loc(1, 1, None, Some(place(4, vec![]))),
            loc(1, 2, Some(place(4, vec![])), Some(place(2, vec![MirProjection::Field(0)]))),
            loc(2, 0, None, None),
        ],
    }
}

#[test]
fn node_kinds_of_events() {
    let k = |kind| event_to_node_kind(&ev(0, kind));
    assert_eq!(k(EventKind::Alloc { size: 4, ptr: 1 }), Some(NodeKind::Malloc(1)));
    assert_eq!(k(EventKind::Realloc { old_ptr: 1, size: 4, new_ptr: 2 }), Some(NodeKind::Malloc(1)));
    assert_eq!(k(EventKind::Free { ptr: 1 }), Some(NodeKind::Free));
    assert_eq!(k(EventKind::Copy(1)), Some(NodeKind::Copy));
    assert_eq!(k(EventKind::CopyRef), Some(NodeKind::Copy));
    assert_eq!(k(EventKind::Field(1, 7)), Some(NodeKind::Field(7)));
    assert_eq!(k(EventKind::LoadAddr(1)), Some(NodeKind::LoadAddr));
    assert_eq!(k(EventKind::StoreAddr(1)), Some(NodeKind::StoreAddr));
    assert_eq!(k(EventKind::LoadValue(1)), Some(NodeKind::LoadValue));
    assert_eq!(k(EventKind::StoreValue(1)), Some(NodeKind::StoreValue));
    assert_eq!(k(EventKind::AddrOfLocal(1, 3)), Some(NodeKind::AddrOfLocal(3)));
    assert_eq!(k(EventKind::ToInt(1)), Some(NodeKind::PtrToInt));
    assert_eq!(k(EventKind::FromInt(1)), Some(NodeKind::IntToPtr));
    assert_eq!(k(EventKind::Offset(1, -8, 2)), Some(NodeKind::Offset(-8)));
    assert_eq!(k(EventKind::Arg(1)), Some(NodeKind::Copy));
    assert_eq!(k(EventKind::Ret(1)), None);
    assert_eq!(k(EventKind::Done), None);
}

#[test]
fn alloc_starts_a_graph_rooted_at_malloc() {
    let md = metadata();
    let mut graphs = Graphs::new();
    let mut prov: HashMap<usize, NodeRef> = HashMap::new();
    let r = add_node(&mut graphs, &mut prov, &md, &ev(0, EventKind::Alloc { size: 16, ptr: 0x100 }));
    assert_eq!(r, Some(ROOT_NODE));
    assert_eq!(graphs.graphs.len(), 1);
    let root = &graphs.graphs[0].nodes[0];
    assert_eq!(root.kind, NodeKind::Malloc(1));
    assert_eq!(root.source, None);
    assert_eq!(root.function, F);
    assert_eq!((root.block, root.index), (0, 0));
    assert_eq!(root.dest.as_ref().unwrap().local, 1);
    assert_eq!(prov.get(&0x100), Some(&(0, 0)));
    assert_eq!(graphs.latest_assignment.get((F, 1)), Some((0, 0)));
}

#[test]
fn derived_pointers_join_the_object_graph() {
    let md = metadata();
    let mut graphs = Graphs::new();
    let mut prov: HashMap<usize, NodeRef> = HashMap::new();
    add_node(&mut graphs, &mut prov, &md, &ev(0, EventKind::Alloc { size: 16, ptr: 0x100 }));
    let r = add_node(&mut graphs, &mut prov, &md, &ev(1, EventKind::Copy(0x100)));
    assert_eq!(r, Some(1));
    let r = add_node(&mut graphs, &mut prov, &md, &ev(2, EventKind::Field(0x100, 0)));
    assert_eq!(r, Some(2));
    let r = add_node(&mut graphs, &mut prov, &md, &ev(3, EventKind::Free { ptr: 0x100 }));
    assert_eq!(r, Some(3));
    assert_eq!(graphs.graphs.len(), 1);
    let nodes = &graphs.graphs[0].nodes;
    assert_eq!(nodes[1].kind, NodeKind::Copy);
    assert_eq!(nodes[1].source, Some((0, 0)));
    assert_eq!(nodes[2].kind, NodeKind::Field(0));
    assert_eq!(nodes[2].source, Some((0, 1)));
    assert_eq!(nodes[3].kind, NodeKind::Free);
    assert_eq!(nodes[3].source, Some((0, 1)));
    assert!(nodes[3].dest.is_none());
    // The copy found a provenance already, so it recorded none.
    assert_eq!(prov.get(&0x100), Some(&(0, 0)));
    assert_eq!(graphs.latest_assignment.get((F, 2)), Some((0, 1)));
    assert_eq!(graphs.latest_assignment.get((F, 3)), Some((0, 2)));
}

#[test]
fn events_without_nodes_change_nothing() {
    let md = metadata();
    let mut graphs = Graphs::new();
    let mut prov: HashMap<usize, NodeRef> = HashMap::new();
    add_node(&mut graphs, &mut prov, &md, &ev(0, EventKind::Alloc { size: 16, ptr: 0x100 }));
    for kind in [EventKind::Done, EventKind::Ret(0x100)] {
        assert_eq!(add_node(&mut graphs, &mut prov, &md, &ev(99, kind)), None);
    }
    assert_eq!(total_nodes(&graphs), 1);
    assert_eq!(prov.len(), 1);
}

#[test]
fn unknown_pointer_gives_no_node_unless_it_creates_an_object() {
    let md = metadata();
    let mut graphs = Graphs::new();
    let mut prov: HashMap<usize, NodeRef> = HashMap::new();
    for kind in [
        EventKind::Copy(0x500),
        EventKind::Field(0x500, 1),
        EventKind::LoadAddr(0x500),
        EventKind::StoreAddr(0x500),
        EventKind::Free { ptr: 0x500 },
        EventKind::ToInt(0x500),
        EventKind::StoreValue(0x500),
        EventKind::Offset(0x500, 4, 0x504),
        EventKind::CopyRef,
    ] {
        assert_eq!(add_node(&mut graphs, &mut prov, &md, &ev(1, kind)), None);
    }
    assert!(graphs.graphs.is_empty());
    assert!(prov.is_empty());
    assert_eq!(graphs.latest_assignment.get((F, 2)), None);
    // Converting an integer to a pointer, or loading a pointer, creates an object.
    let r = add_node(&mut graphs, &mut prov, &md, &ev(1, EventKind::FromInt(0x600)));
    assert_eq!(r, Some(ROOT_NODE));
    assert_eq!(graphs.graphs[0].nodes[0].kind, NodeKind::IntToPtr);
    let r = add_node(&mut graphs, &mut prov, &md, &ev(1, EventKind::LoadValue(0x700)));
    assert_eq!(r, Some(ROOT_NODE));
    assert_eq!(graphs.graphs.len(), 2);
    assert_eq!(graphs.graphs[1].nodes[0].kind, NodeKind::LoadValue);
}

#[test]
fn object_creating_nodes_have_no_source() {
    let md = metadata();
    let mut graphs = Graphs::new();
    let mut prov: HashMap<usize, NodeRef> = HashMap::new();
    // `_1 = malloc`, then an int-to-pointer and a loaded value that read `_1`.
    add_node(&mut graphs, &mut prov, &md, &ev(0, EventKind::Alloc { size: 16, ptr: 0x100 }));
    add_node(&mut graphs, &mut prov, &md, &ev(1, EventKind::FromInt(0x900)));
    add_node(&mut graphs, &mut prov, &md, &ev(1, EventKind::LoadValue(0x100)));
    assert_eq!(graphs.graphs[1].nodes[0].kind, NodeKind::IntToPtr);
    assert_eq!(graphs.graphs[1].nodes[0].source, None);
    assert_eq!(graphs.graphs[0].nodes[1].kind, NodeKind::LoadValue);
    assert_eq!(graphs.graphs[0].nodes[1].source, None);
}

#[test]
fn consuming_nodes_never_become_sources() {
    let md = metadata();
    let mut graphs = Graphs::new();
    let mut prov: HashMap<usize, NodeRef> = HashMap::new();
    add_node(&mut graphs, &mut prov, &md, &ev(0, EventKind::Alloc { size: 16, ptr: 0x100 }));
    add_node(&mut graphs, &mut prov, &md, &ev(1, EventKind::Copy(0x100)));
    // A load at a statement that writes `_2`: it does not replace the copy as `_2`'s last assignment.
    let r = add_node(&mut graphs, &mut prov, &md, &ev(1, EventKind::LoadAddr(0x100)));
    assert_eq!(r, Some(2));
    assert_eq!(graphs.latest_assignment.get((F, 2)), Some((0, 1)));
    // A later field projection reading `_2` takes the copy as its source.
    add_node(&mut graphs, &mut prov, &md, &ev(2, EventKind::Field(0x100, 0)));
    assert_eq!(graphs.graphs[0].nodes[3].source, Some((0, 1)));
}

#[test]
fn realloc_starts_a_new_graph_for_the_new_pointer() {
    let md = metadata();
    let mut graphs = Graphs::new();
    let mut prov: HashMap<usize, NodeRef> = HashMap::new();
    add_node(&mut graphs, &mut prov, &md, &ev(0, EventKind::Alloc { size: 16, ptr: 0x100 }));
    let r = add_node(
        &mut graphs,
        &mut prov,
        &md,
        &ev(1, EventKind::Realloc { old_ptr: 0x100, size: 32, new_ptr: 0x200 }),
    );
    assert_eq!(r, Some(0));
    assert_eq!(graphs.graphs.len(), 2);
    assert_eq!(graphs.graphs[1].nodes[0].kind, NodeKind::Malloc(1));
    assert_eq!(graphs.graphs[1].nodes[0].source, None);
    assert_eq!(prov.get(&0x200), Some(&(1, 0)));
    assert_eq!(prov.get(&0x100), Some(&(0, 0)));
}

#[test]
fn offset_and_addr_of_local_record_provenance() {
    let md = metadata();
    let mut graphs = Graphs::new();
    let mut prov: HashMap<usize, NodeRef> = HashMap::new();
    let r = add_node(&mut graphs, &mut prov, &md, &ev(0, EventKind::AddrOfLocal(0x700, 1)));
    assert_eq!(r, Some(0));
    assert_eq!(graphs.graphs[0].nodes[0].kind, NodeKind::AddrOfLocal(1));
    assert_eq!(prov.get(&0x700), Some(&(0, 0)));
    let r = add_node(&mut graphs, &mut prov, &md, &ev(1, EventKind::Offset(0x700, 8, 0x708)));
    assert_eq!(r, Some(1));
    assert_eq!(graphs.graphs[0].nodes[1].kind, NodeKind::Offset(8));
    assert_eq!(prov.get(&0x708), Some(&(0, 1)));
}

#[test]
fn copy_ref_gives_no_node() {
    let md = metadata();
    let mut graphs = Graphs::new();
    let mut prov: HashMap<usize, NodeRef> = HashMap::new();
    add_node(&mut graphs, &mut prov, &md, &ev(0, EventKind::Alloc { size: 16, ptr: 0x100 }));
    assert_eq!(add_node(&mut graphs, &mut prov, &md, &ev(1, EventKind::CopyRef)), None);
    assert_eq!(graphs.graphs.len(), 1);
    assert_eq!(graphs.graphs[0].nodes.len(), 1);
    assert_eq!(prov.len(), 1);
}

#[test]
fn partial_write_keeps_whole_local_assignment() {
    let md = metadata();
    let mut graphs = Graphs::new();
    let mut prov: HashMap<usize, NodeRef> = HashMap::new();
    add_node(&mut graphs, &mut prov, &md, &ev(0, EventKind::Alloc { size: 16, ptr: 0x100 }));
    add_node(&mut graphs, &mut prov, &md, &ev(1, EventKind::Copy(0x100)));
    assert_eq!(graphs.latest_assignment.get((F, 2)), Some((0, 1)));
    add_node(&mut graphs, &mut prov, &md, &ev(4, EventKind::Alloc { size: 8, ptr: 0x300 }));
    // `_2.0 = ...` writes only part of `_2`, whose last assignment wrote all of it.
    let r = add_node(&mut graphs, &mut prov, &md, &ev(5, EventKind::Copy(0x300)));
    assert_eq!(r, Some(1));
    assert_eq!(graphs.graphs[1].nodes[1].source, Some((1, 0)));
    assert_eq!(graphs.latest_assignment.get((F, 2)), Some((0, 1)));
}

#[test]
fn partial_write_becomes_latest_when_none_before() {
    let md = metadata();
    let mut graphs = Graphs::new();
    let mut prov: HashMap<usize, NodeRef> = HashMap::new();
    add_node(&mut graphs, &mut prov, &md, &ev(4, EventKind::Alloc { size: 8, ptr: 0x300 }));
    add_node(&mut graphs, &mut prov, &md, &ev(5, EventKind::Copy(0x300)));
    assert_eq!(graphs.latest_assignment.get((F, 2)), Some((0, 1)));
    // A second partial write replaces the first.
    add_node(&mut graphs, &mut prov, &md, &ev(5, EventKind::Copy(0x300)));
    assert_eq!(graphs.latest_assignment.get((F, 2)), Some((0, 2)));
}

#[test]
fn construct_pdg_counts_one_node_per_node_event() {
    let md = metadata();
    let events = vec![
        ev(0, EventKind::Alloc { size: 16, ptr: 0x100 }),
        ev(1, EventKind::Copy(0x100)),
        ev(2, EventKind::Field(0x100, 0)),
        ev(6, EventKind::Ret(0x100)),
        ev(4, EventKind::Alloc { size: 8, ptr: 0x300 }),
        ev(3, EventKind::Free { ptr: 0x100 }),
        ev(6, EventKind::Free { ptr: 0x300 }),
        Event::done(),
    ];
    let graphs = construct_pdg(&events, &md);
    assert_eq!(total_nodes(&graphs), 6);
    assert_eq!(graphs.graphs.len(), 2);
    assert_eq!(graphs.graphs[0].nodes.len(), 4);
    assert_eq!(graphs.graphs[1].nodes.len(), 2);
    for g in &graphs.graphs {
        assert!(!g.nodes.is_empty());
        assert_eq!(g.nodes[0].kind, NodeKind::Malloc(1));
        assert_eq!(g.nodes[0].source, None);
    }
    assert_eq!(graphs.graphs[0].nodes[3].kind, NodeKind::Free);
}

#[test]
fn construct_pdg_of_no_events_is_empty() {
    let md = metadata();
    let graphs = construct_pdg(&Vec::new(), &md);
    assert!(graphs.graphs.is_empty());
    assert_eq!(graphs.latest_assignment.get((F, 1)), None);
}

#[test]
fn construct_pdg_nodes_follow_event_order() {
    let md = metadata();
    let events = vec![
        ev(0, EventKind::Alloc { size: 16, ptr: 0x100 }),
        ev(6, EventKind::LoadAddr(0x100)),
        ev(6, EventKind::StoreAddr(0x100)),
        ev(6, EventKind::LoadAddr(0x100)),
    ];
    let graphs = construct_pdg(&events, &md);
    let kinds: Vec<NodeKind> = graphs.graphs[0].nodes.iter().map(|n| n.kind).collect();
    assert_eq!(kinds, vec![NodeKind::Malloc(1), NodeKind::LoadAddr, NodeKind::StoreAddr, NodeKind::LoadAddr]);
}

#[test]
fn resolving_events_against_metadata() {
    let md = metadata();
    assert!(event_resolves(&md, &ev(0, EventKind::Copy(1))));
    assert!(!event_resolves(&md, &ev(42, EventKind::Copy(1))));
    // Events that give no node need no location.
    assert!(event_resolves(&md, &ev(42, EventKind::Done)));
    assert!(event_resolves(&md, &ev(3, EventKind::CopyRef)));
    assert!(!event_resolves(&md, &ev(42, EventKind::CopyRef)));
    let events = vec![ev(0, EventKind::Copy(1)), ev(42, EventKind::Done), ev(42, EventKind::Free { ptr: 1 })];
    assert_eq!(first_unresolved_event(&events, &md), Some(2));
    assert_eq!(first_unresolved_event(&events[..2].to_vec(), &md), None);
}

#[test]
fn argument_copy_joins_the_object_graph() {
    let md = metadata();
    let mut graphs = Graphs::new();
    let mut prov: HashMap<usize, NodeRef> = HashMap::new();
    add_node(&mut graphs, &mut prov, &md, &ev(0, EventKind::Alloc { size: 16, ptr: 0x100 }));
    let r = add_node(&mut graphs, &mut prov, &md, &ev(1, EventKind::Arg(0x100)));
    assert_eq!(r, Some(1));
    assert_eq!(graphs.graphs.len(), 1);
    assert_eq!(graphs.graphs[0].nodes[1].kind, NodeKind::Copy);
    assert_eq!(graphs.graphs[0].nodes[1].source, Some((0, 0)));
    assert_eq!(prov.len(), 1);
}

#[test]
fn pointer_of_interest_ignores_metadata() {
    let md = metadata();
    let kinds = [
        EventKind::Copy(1),
        EventKind::Field(2, 0),
        EventKind::Realloc { old_ptr: 3, size: 4, new_ptr: 5 },
        EventKind::Offset(6, -1, 5),
        EventKind::AddrOfLocal(7, 1),
        EventKind::Arg(8),
        EventKind::CopyRef,
        EventKind::Done,
    ];
    let expected = [Some(1), Some(2), Some(3), Some(6), Some(7), Some(8), None, None];
    for (kind, want) in kinds.iter().zip(expected.iter()) {
        for loc in &md.locs {
            assert_eq!(get_ptr(kind, &loc.metadata), *want);
        }
    }
}

#[test]
fn provenance_update_twice_is_once() {
    let md = metadata();
    let kinds = [
        EventKind::Alloc { size: 1, ptr: 0x10 },
        EventKind::Copy(0x10),
        EventKind::Copy(0x20),
        EventKind::Realloc { old_ptr: 0x10, size: 2, new_ptr: 0x30 },
        EventKind::Offset(0x30, 4, 0x34),
        EventKind::CopyRef,
        EventKind::AddrOfLocal(0x40, 2),
        EventKind::Free { ptr: 0x10 },
    ];
    for kind in kinds.iter() {
        let mut once: HashMap<usize, NodeRef> = HashMap::new();
        once.insert(0x10, (0, 0));
        let mut twice = once.clone();
        update_provenance(&mut once, kind, &md.locs[1].metadata, (3, 1));
        update_provenance(&mut twice, kind, &md.locs[1].metadata, (3, 1));
        update_provenance(&mut twice, kind, &md.locs[1].metadata, (3, 1));
        assert_eq!(once, twice);
    }
    let mut p: HashMap<usize, NodeRef> = HashMap::new();
    update_provenance(&mut p, &EventKind::CopyRef, &md.locs[1].metadata, (3, 1));
    assert_eq!(p.get(&2), Some(&(3, 1)));
}
