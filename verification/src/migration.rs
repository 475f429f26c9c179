//! Partition decomposition and the emigration/immigration queues.

use vstd::prelude::*;
use crate::event::Event;
use crate::habitat::{ConfigError, Habitat};
use crate::landscape::Location;
use crate::lineage::Lineage;

verus! {

/// Assigns every location of the landscape to one of `num_partitions`
/// cooperating execution units.
#[derive(Clone, PartialEq, Eq, Debug)]
pub struct Decomposition {
    num_partitions: u32,
    map: Vec<u32>,
}

impl Decomposition {
    pub closed spec fn num_partitions_spec(self) -> u32 {
        self.num_partitions
    }

    pub closed spec fn map_seq(self) -> Seq<u32> {
        self.map@
    }

    /// The invariant established by the constructors, against the habitat
    /// the decomposition was built for.
    pub open spec fn wf(self, habitat: Habitat) -> bool {
        &&& 1 <= self.num_partitions_spec()
        &&& self.map_seq().len() == (habitat.width_spec() as int) * (habitat.height_spec() as int)
        &&& forall|k: int|
            0 <= k < self.map_seq().len() ==> #[trigger] self.map_seq()[k]
                < self.num_partitions_spec()
    }

    /// The rank owning the location of row-major index `k`.
    pub open spec fn rank_at(self, k: int) -> u32 {
        self.map_seq()[k]
    }

    /// The whole landscape owned by a single partition.
    pub fn monolithic(habitat: &Habitat) -> (r: Decomposition)
        requires
            habitat.wf(),
        ensures
            r.wf(*habitat),
            r.num_partitions_spec() == 1,
            forall|k: int| 0 <= k < r.map_seq().len() ==> #[trigger] r.map_seq()[k] == 0,
    {
        let area = habitat.area();
        let mut map: Vec<u32> = Vec::new();
        let mut i: u64 = 0;
        while i < area
            invariant
                i <= area,
                map@.len() == i,
                forall|k: int| 0 <= k < i ==> #[trigger] map@[k] == 0,
            decreases area - i,
        {
            map.push(0);
            i = i + 1;
        }
        Decomposition { num_partitions: 1, map }
    }

    /// Locations dealt out to `num_partitions` ranks round-robin by their
    /// row-major index.
    pub fn striped(habitat: &Habitat, num_partitions: u32) -> (r: Result<Decomposition, ConfigError>)
        requires
            habitat.wf(),
        ensures
            num_partitions == 0 ==> r == Result::<Decomposition, ConfigError>::Err(
                ConfigError::ZeroPartitions,
            ),
            num_partitions >= 1 ==> {
                &&& r matches Ok(d)
                &&& d.wf(*habitat)
                &&& d.num_partitions_spec() == num_partitions
                &&& forall|k: int|
                    0 <= k < d.map_seq().len() ==> #[trigger] d.map_seq()[k] as int == k % (
                    num_partitions as int)
            },
    {
        if num_partitions == 0 {
            return Err(ConfigError::ZeroPartitions);
        }
        let area = habitat.area();
        let mut map: Vec<u32> = Vec::new();
        let mut i: u64 = 0;
        while i < area
            invariant
                i <= area,
                num_partitions >= 1,
                map@.len() == i,
                forall|k: int|
                    0 <= k < i ==> #[trigger] map@[k] as int == k % (num_partitions as int),
            decreases area - i,
        {
            map.push((i % (num_partitions as u64)) as u32);
            i = i + 1;
        }
        Ok(Decomposition { num_partitions: num_partitions, map })
    }

    pub fn get_num_partitions(&self) -> (r: u32)
        ensures
            r == self.num_partitions_spec(),
    {
        self.num_partitions
    }

    /// The rank owning `location`.
    pub fn rank_for_location(&self, location: &Location, habitat: &Habitat) -> (r: u32)
        requires
            habitat.wf(),
            self.wf(*habitat),
            habitat.contains(*location),
        ensures
            r == self.rank_at(habitat.location_index(*location)),
            r < self.num_partitions_spec(),
    {
        let key = habitat.location_key(location);
        self.map[key as usize]
    }
}

/// One lineage in transfer between partitions: its destination rank, the
/// lineage itself, and the departure event that sent it.
#[derive(Clone, Copy, PartialEq, Eq, Structural, Debug)]
pub struct MigratingLineage {
    pub destination: u32,
    pub lineage: Lineage,
    pub event: Event,
}

/// The emigration exit: decides which dispersal targets are foreign, and
/// queues departing lineages until the next migration barrier drains them.
#[derive(Clone, PartialEq, Eq, Debug)]
pub struct DomainEmigrationExit {
    queue: Vec<MigratingLineage>,
}

impl DomainEmigrationExit {
    pub closed spec fn queue_seq(self) -> Seq<MigratingLineage> {
        self.queue@
    }

    pub fn new() -> (r: DomainEmigrationExit)
        ensures
            r.queue_seq() == Seq::<MigratingLineage>::empty(),
    {
        DomainEmigrationExit { queue: Vec::new() }
    }

    pub fn len(&self) -> (r: usize)
        ensures
            r == self.queue_seq().len(),
    {
        self.queue.len()
    }

    pub fn enqueue(&mut self, migrating: MigratingLineage)
        ensures
            final(self).queue_seq() == old(self).queue_seq().push(migrating),
    {
        self.queue.push(migrating);
    }

    /// Remove and return every queued emigration, in departure order.
    pub fn drain(&mut self) -> (r: Vec<MigratingLineage>)
        ensures
            r@ == old(self).queue_seq(),
            final(self).queue_seq() == Seq::<MigratingLineage>::empty(),
    {
        let mut drained: Vec<MigratingLineage> = Vec::new();
        core::mem::swap(&mut drained, &mut self.queue);
        drained
    }

    /// Borrow the backing queue, for snapshotting.
    pub fn raw_queue(&self) -> (r: &Vec<MigratingLineage>)
        ensures
            r@ == self.queue_seq(),
    {
        &self.queue
    }

    /// Replace the backing queue wholesale, for restoring a snapshot.
    pub fn replace_queue(&mut self, queue: Vec<MigratingLineage>)
        ensures
            final(self).queue_seq() == queue@,
    {
        self.queue = queue;
    }

    /// The earliest departure-event timestamp in the queue.
    pub fn min_event_time(&self) -> (r: Option<u64>)
        ensures
            r == min_emigration_time(self.queue_seq()),
    {
        let mut best: Option<u64> = None;
        let mut i: usize = 0;
        while i < self.queue.len()
            invariant
                i <= self.queue@.len(),
                best == min_emigration_time(self.queue@.take(i as int)),
            decreases self.queue@.len() - i,
        {
            proof {
                assert(self.queue@.take(i + 1).drop_last() =~= self.queue@.take(i as int));
                assert(self.queue@.take(i + 1).last() == self.queue@[i as int]);
            }
            let t = self.queue[i].event.time;
            best = match best {
                Some(b) => if t < b {
                    Some(t)
                } else {
                    Some(b)
                },
                None => Some(t),
            };
            i = i + 1;
        }
        proof {
            assert(self.queue@.take(self.queue@.len() as int) =~= self.queue@);
        }
        best
    }
}

/// The least departure timestamp of `q`, if any.
pub open spec fn min_emigration_time(q: Seq<MigratingLineage>) -> Option<u64>
    decreases q.len(),
{
    if q.len() == 0 {
        None
    } else {
        match min_emigration_time(q.drop_last()) {
            Some(b) => if q.last().event.time < b {
                Some(q.last().event.time)
            } else {
                Some(b)
            },
            None => Some(q.last().event.time),
        }
    }
}

/// The immigration entry: lineages that have just arrived from other
/// partitions and must be scheduled locally.
#[derive(Clone, PartialEq, Eq, Debug)]
pub struct BufferedImmigrationEntry {
    queue: Vec<Lineage>,
}

impl BufferedImmigrationEntry {
    pub closed spec fn queue_seq(self) -> Seq<Lineage> {
        self.queue@
    }

    pub fn new() -> (r: BufferedImmigrationEntry)
        ensures
            r.queue_seq() == Seq::<Lineage>::empty(),
    {
        BufferedImmigrationEntry { queue: Vec::new() }
    }

    pub fn len(&self) -> (r: usize)
        ensures
            r == self.queue_seq().len(),
    {
        self.queue.len()
    }

    /// Queue a freshly arrived lineage for local scheduling.
    pub fn push(&mut self, lineage: Lineage)
        ensures
            final(self).queue_seq() == old(self).queue_seq().push(lineage),
    {
        self.queue.push(lineage);
    }

    /// Borrow the backing queue, for snapshotting.
    pub fn raw_queue(&self) -> (r: &Vec<Lineage>)
        ensures
            r@ == self.queue_seq(),
    {
        &self.queue
    }

    /// Replace the backing queue wholesale, for restoring a snapshot.
    pub fn replace_queue(&mut self, queue: Vec<Lineage>)
        ensures
            final(self).queue_seq() == queue@,
    {
        self.queue = queue;
    }

    /// Take the most recently queued arrival.
    pub fn pop(&mut self) -> (r: Option<Lineage>)
        ensures
            old(self).queue_seq().len() == 0 ==> r is None && final(self).queue_seq() == old(
                self,
            ).queue_seq(),
            old(self).queue_seq().len() > 0 ==> {
                &&& r == Some(old(self).queue_seq().last())
                &&& final(self).queue_seq() == old(self).queue_seq().drop_last()
            },
    {
        let r = self.queue.pop();
        proof {
            if old(self).queue_seq().len() > 0 {
                assert(self.queue@ =~= old(self).queue_seq().drop_last());
            }
        }
        r
    }
}

} // verus!
