//! Persistence: a path as a flat list of records and back.
use vstd::prelude::*;
use crate::bezier::{BezPoint, SavePoint, lemma_record_reloads, loadable, settled_record};
use crate::path::{Path, ids_distinct};

verus! {

/// Why a list of records could not be loaded; each names the first record at fault.
#[derive(Clone, Copy, Debug, PartialEq, Eq, Structural)]
pub enum LoadError {
    /// A handle of the record, or the mirrored `cp2` of an unbroken one, lies
    /// outside the coordinate range.
    OutOfRange(usize),
    /// An earlier record has the same id.
    DuplicateId(usize),
}

/// The records of a sequence of anchors.
pub open spec fn records_of(s: Seq<BezPoint>) -> Seq<SavePoint> {
    s.map_values(|a: BezPoint| a.record())
}

/// Whether record `i` has an earlier record with the same id.
pub open spec fn id_seen(recs: Seq<SavePoint>, i: int) -> bool {
    exists|j: int| 0 <= j < i && recs[j].id == recs[i].id
}

/// What is wrong with record `i`, if anything.
pub open spec fn fault_at(recs: Seq<SavePoint>, i: int) -> Option<LoadError> {
    if !loadable(recs[i]) {
        Some(LoadError::OutOfRange(i as usize))
    } else if id_seen(recs, i) {
        Some(LoadError::DuplicateId(i as usize))
    } else {
        None
    }
}

/// The first fault among the records from index `i` on.
pub open spec fn first_fault(recs: Seq<SavePoint>, i: int) -> Option<LoadError>
    decreases recs.len() - i,
{
    if i < 0 || i >= recs.len() {
        None
    } else if fault_at(recs, i) is Some {
        fault_at(recs, i)
    } else {
        first_fault(recs, i + 1)
    }
}

/// What loading `recs` gives: the first fault, or the records as kept, with
/// the `cp2` of each unbroken anchor mirrored from its `cp1`.
pub open spec fn load_outcome(recs: Seq<SavePoint>) -> Result<Seq<SavePoint>, LoadError> {
    match first_fault(recs, 0) {
        Some(e) => Err(e),
        None => Ok(recs.map_values(|r: SavePoint| settled_record(r))),
    }
}

/// With no fault before index `i`, the first fault is the first from `i` on.
proof fn lemma_first_fault_from(recs: Seq<SavePoint>, i: int)
    requires
        0 <= i <= recs.len(),
        forall|j: int| 0 <= j < i ==> fault_at(recs, j) is None,
    ensures
        first_fault(recs, 0) == first_fault(recs, i),
    decreases i,
{
    if i > 0 {
        lemma_first_fault_from(recs, i - 1);
        assert(fault_at(recs, i - 1) is None);
    }
}

impl Path {
    /// The records of the anchors, in path order; hover, drag and animation
    /// state is not kept.
    pub fn to_records(&self) -> (r: Vec<SavePoint>)
        ensures
            r@ == records_of(self.points@),
    {
        let mut out: Vec<SavePoint> = Vec::new();
        let mut i: usize = 0;
        while i < self.points.len()
            invariant
                i <= self.points@.len(),
                out@ == records_of(self.points@.subrange(0, i as int)),
            decreases self.points@.len() - i,
        {
            out.push(self.points[i].save());
            i = i + 1;
            assert(records_of(self.points@.subrange(0, i as int)) =~= records_of(
                self.points@.subrange(0, i - 1),
            ).push(self.points@[i - 1].record()));
        }
        assert(self.points@.subrange(0, i as int) =~= self.points@);
        out
    }

    /// Rebuilds a path from records, with no handle hovered or held, no drag,
    /// and every segment already drawn in. Fails at the first record that is
    /// out of range or repeats an earlier id; the caller's path is untouched
    /// either way.
    pub fn from_records(records: &Vec<SavePoint>) -> (r: Result<Path, LoadError>)
        ensures
            match r {
                Ok(p) => {
                    &&& p.wf()
                    &&& p.selected is None
                    &&& load_outcome(records@) == Ok::<Seq<SavePoint>, LoadError>(records_of(p.points@))
                    &&& forall|i: int|
                        0 <= i < p.points@.len() ==> {
                            let a = #[trigger] p.points@[i];
                            &&& a.animated
                            &&& !a.pos.selected && !a.cp1.selected && !a.cp2.selected
                            &&& !a.pos.locked && !a.cp1.locked && !a.cp2.locked
                        }
                },
                Err(e) => load_outcome(records@) == Err::<Seq<SavePoint>, LoadError>(e),
            },
    {
        let mut points: Vec<BezPoint> = Vec::new();
        let mut i: usize = 0;
        while i < records.len()
            invariant
                i <= records@.len(),
                points@.len() == i,
                forall|j: int| 0 <= j < i ==> fault_at(records@, j) is None,
                forall|j: int|
                    0 <= j < i ==> {
                        let a = #[trigger] points@[j];
                        &&& a.wf()
                        &&& a.record() == settled_record(records@[j])
                        &&& a.animated
                        &&& !a.pos.selected && !a.cp1.selected && !a.cp2.selected
                        &&& !a.pos.locked && !a.cp1.locked && !a.cp2.locked
                    },
            decreases records@.len() - i,
        {
            let rec = records[i];
            let loaded = BezPoint::load(rec);
            if loaded.is_none() {
                proof {
                    lemma_first_fault_from(records@, i as int);
                }
                return Err(LoadError::OutOfRange(i));
            }
            let mut j: usize = 0;
            while j < i
                invariant
                    i < records@.len(),
                    j <= i,
                    rec == records@[i as int],
                    loadable(rec),
                    forall|m: int| 0 <= m < i ==> fault_at(records@, m) is None,
                    forall|m: int| 0 <= m < j ==> records@[m].id != rec.id,
                decreases i - j,
            {
                if records[j].id == rec.id {
                    proof {
                        lemma_first_fault_from(records@, i as int);
                        assert(id_seen(records@, i as int));
                    }
                    return Err(LoadError::DuplicateId(i));
                }
                j = j + 1;
            }
            assert(!id_seen(records@, i as int));
            points.push(loaded.unwrap());
            i = i + 1;
        }
        proof {
            lemma_first_fault_from(records@, i as int);
            assert(records@.map_values(|r: SavePoint| settled_record(r)) =~= records_of(points@));
            assert forall|a: int, b: int| 0 <= a < b < points@.len() implies points@[a].id != points@[b].id by {
                assert(points@[a].id == records@[a].id);
                assert(points@[b].id == records@[b].id);
                assert(fault_at(records@, b) is None);
                if records@[a].id == records@[b].id {
                    assert(id_seen(records@, b));
                }
            }
            assert(ids_distinct(points@));
        }
        Ok(Path { points, selected: None })
    }
}

/// Loading the records of a well-formed path succeeds and gives back the
/// same records: position, control handles, id and break of every anchor.
pub proof fn lemma_round_trip(p: Path)
    requires
        p.wf(),
    ensures
        load_outcome(records_of(p.points@)) == Ok::<Seq<SavePoint>, LoadError>(
            records_of(p.points@),
        ),
{
    let recs = records_of(p.points@);
    assert forall|j: int| 0 <= j < recs.len() implies fault_at(recs, j) is None by {
        assert(p.points@[j].wf());
        lemma_record_reloads(p.points@[j]);
        if id_seen(recs, j) {
            let m = choose|m: int| 0 <= m < j && recs[m].id == recs[j].id;
            assert(p.points@[m].id == p.points@[j].id);
        }
    }
    lemma_first_fault_from(recs, recs.len() as int);
    assert forall|j: int| 0 <= j < recs.len() implies settled_record(recs[j]) == recs[j] by {
        assert(p.points@[j].wf());
        lemma_record_reloads(p.points@[j]);
    }
    assert(recs.map_values(|r: SavePoint| settled_record(r)) =~= recs);
}

} // verus!
