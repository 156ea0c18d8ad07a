//! The metadata that the instrumentation records for each MIR location.

use vstd::prelude::*;

use crate::events::MirLocId;

verus! {

/// The stable hash of a function's definition path, as a pair of 64-bit halves.
#[derive(Clone, Copy, Debug, PartialEq, Eq, Hash, Structural)]
pub struct DefPathHash(pub u64, pub u64);

/// One step of a place projection.
#[derive(Clone, Copy, Debug, PartialEq, Eq, Structural)]
pub enum MirProjection {
    Deref,
    Field(usize),
    Unsupported,
}

/// A MIR place: a local and the projections applied to it.
#[derive(Debug)]
pub struct MirPlace {
    pub local: usize,
    pub projection: Vec<MirProjection>,
}

/// A place as a value: its local and its sequence of projections.
pub type PlaceModel = (usize, Seq<MirProjection>);

impl View for MirPlace {
    type V = PlaceModel;

    open spec fn view(&self) -> PlaceModel {
        (self.local, self.projection@)
    }
}

/// The model of an optional place.
pub open spec fn place_model(p: Option<MirPlace>) -> Option<PlaceModel> {
    match p {
        Some(p) => Some(p@),
        None => None,
    }
}

impl MirPlace {
    /// A copy of the place.
    pub fn copy(&self) -> (r: MirPlace)
        ensures
            r@ == self@,
    {
        let mut projection: Vec<MirProjection> = Vec::new();
        let n = self.projection.len();
        for i in 0..n
            invariant
                n == self.projection@.len(),
                projection@ == self.projection@.take(i as int),
        {
            projection.push(self.projection[i]);
            assert(self.projection@.take(i + 1) == self.projection@.take(i as int).push(self.projection@[i as int]));
        }
        assert(self.projection@.take(n as int) == self.projection@);
        MirPlace { local: self.local, projection }
    }
}

/// A copy of an optional place.
pub fn copy_place(p: &Option<MirPlace>) -> (r: Option<MirPlace>)
    ensures
        place_model(r) == place_model(*p),
{
    match p {
        Some(p) => Some(p.copy()),
        None => None,
    }
}

/// What the instrumentation knows of the statement at a MIR location.
#[derive(Debug)]
pub struct EventMetadata {
    /// The place that the statement reads its pointer from, if any.
    pub source: Option<MirPlace>,
    /// The place that the statement writes its result to, if any.
    pub destination: Option<MirPlace>,
    /// The function to which the destination belongs.
    pub dest_func: DefPathHash,
}

/// A MIR location: the function, the basic block and the statement, with its metadata.
#[derive(Debug)]
pub struct MirLoc {
    pub body_def: DefPathHash,
    pub basic_block_idx: usize,
    pub statement_idx: usize,
    pub metadata: EventMetadata,
}

/// The table of all MIR locations; an event names its location by index.
#[derive(Debug)]
pub struct Metadata {
    pub locs: Vec<MirLoc>,
}

/// The location that `id` names, if the table has it.
pub fn get(metadata: &Metadata, id: MirLocId) -> (r: Option<&MirLoc>)
    ensures
        r is Some <==> (id as int) < metadata.locs@.len(),
        r matches Some(l) ==> *l == metadata.locs@[id as int],
{
    let i = id as usize;
    if i < metadata.locs.len() {
        Some(&metadata.locs[i])
    } else {
        None
    }
}

} // verus!
