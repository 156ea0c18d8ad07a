use pdg::graph::{AssignmentTable, Graph, Graphs, ROOT_NODE};
use pdg::mir_loc::{get, DefPathHash, EventMetadata, Metadata, MirLoc, MirPlace, MirProjection};

#[test]
fn new_graphs_are_empty() {
    assert!(Graph::new().nodes.is_empty());
    let g = Graphs::new();
    assert!(g.graphs.is_empty());
    assert_eq!(g.latest_assignment.get((DefPathHash(0, 0), 0)), None);
    assert_eq!(ROOT_NODE, 0);
}

#[test]
fn assignment_table_keeps_last_value_per_place() {
    let mut t = AssignmentTable::new();
    let a = (DefPathHash(1, 2), 3);
    let b = (DefPathHash(1, 2), 4);
    let c = (DefPathHash(2, 1), 3);
    assert_eq!(t.insert(a, (0, 0)), None);
    assert_eq!(t.insert(b, (0, 1)), None);
    assert_eq!(t.insert(c, (1, 0)), None);
    assert_eq!(t.insert(a, (2, 5)), Some((0, 0)));
    assert_eq!(t.get(a), Some((2, 5)));
    assert_eq!(t.get(b), Some((0, 1)));
    assert_eq!(t.get(c), Some((1, 0)));
    assert_eq!(t.get((DefPathHash(9, 9), 3)), None);
}

#[test]
fn metadata_lookup_by_index() {
    let md = Metadata {
        locs: vec![MirLoc {
            body_def: DefPathHash(5, 6),
            basic_block_idx: 2,
            statement_idx: 3,
            metadata: EventMetadata {
                source: None,
                destination: Some(MirPlace { local: 1, projection: vec![MirProjection::Deref] }),
                dest_func: DefPathHash(5, 6),
            },
        }],
    };
    let l = get(&md, 0).unwrap();
    assert_eq!(l.basic_block_idx, 2);
    assert_eq!(l.statement_idx, 3);
    assert!(get(&md, 1).is_none());
}

#[test]
fn place_copies_are_equal() {
    let p = MirPlace { local: 4, projection: vec![MirProjection::Field(2), MirProjection::Deref] };
    let q = p.copy();
    assert_eq!(q.local, 4);
    assert_eq!(q.projection, vec![MirProjection::Field(2), MirProjection::Deref]);
}
