//! A small parking lot with typed spots: motorcycles park in motorcycle
//! spots, cars in compact spots, vans in large spots. A ticketed entry
//! records the vehicle, its plate and its entry time; exiting frees the spot
//! and reports how long the vehicle was parked.

use vstd::prelude::*;

verus! {

/// The entry-time magnitude below which every chrono timestamp stays.
pub const TIME_BOUND: i64 = 0x1000_0000_0000;

/// The kinds of vehicle the lot accepts.
#[derive(Debug, Clone, Copy, PartialEq, Eq, Structural)]
pub enum Vehicle {
    Motorcycle,
    Car,
    Van,
}

/// The kinds of spot the lot offers.
#[derive(Debug, Clone, Copy, PartialEq, Eq, Structural)]
enum SpotType {
    Motorcycle,
    Compact,
    Large,
}

/// One parked vehicle: what it is, its plate, and when it entered.
#[derive(Debug)]
pub struct VehicleEntry {
    vehicle: Vehicle,
    number_plate: String,
    /// whole seconds since the Unix epoch
    entry_time: i64,
}

/// One spot: its kind and its occupant, if any.
#[derive(Debug)]
pub struct Spot {
    spot_type: SpotType,
    occupied_by: Option<VehicleEntry>,
}

/// Relies on chrono's `Utc::now().timestamp()`: the current wall-clock time
/// as whole seconds since the Unix epoch. chrono datetimes span the years
/// -262144 to +262143, so the count's magnitude stays far below 2^44; beyond
/// that bound nothing is promised, the value is the clock's.
#[verifier::external_body]
fn now_timestamp() -> (r: i64)
    ensures
        -TIME_BOUND < r < TIME_BOUND,
{
    chrono::Utc::now().timestamp()
}

impl Spot {
    /// Whether the spot is free.
    pub closed spec fn spec_available(self) -> bool {
        self.occupied_by is None
    }

    /// Any recorded entry time is a chrono timestamp, within bounds.
    pub closed spec fn ok(self) -> bool {
        self.occupied_by matches Some(e) ==> -TIME_BOUND < e.entry_time < TIME_BOUND
    }

    pub fn is_available(&self) -> (r: bool)
        ensures
            r == self.spec_available(),
    {
        self.occupied_by.is_none()
    }
}

/// Every spot of the sequence is free.
pub open spec fn all_available(spots: Seq<Spot>) -> bool {
    forall|k: int| 0 <= k < spots.len() ==> (#[trigger] spots[k]).spec_available()
}

/// No spot of the sequence is free.
pub open spec fn none_available(spots: Seq<Spot>) -> bool {
    forall|k: int| 0 <= k < spots.len() ==> !(#[trigger] spots[k]).spec_available()
}

/// Every entry time in the sequence is within bounds.
pub open spec fn spots_ok(spots: Seq<Spot>) -> bool {
    forall|k: int| 0 <= k < spots.len() ==> (#[trigger] spots[k]).ok()
}

/// How many spots of the sequence are free.
pub open spec fn avail_count(spots: Seq<Spot>) -> nat
    decreases spots.len(),
{
    if spots.len() == 0 {
        0
    } else {
        avail_count(spots.drop_last()) + if spots.last().spec_available() {
            1nat
        } else {
            0nat
        }
    }
}

/// How many spots of the sequence hold a van.
pub closed spec fn van_count(spots: Seq<Spot>) -> nat
    decreases spots.len(),
{
    if spots.len() == 0 {
        0
    } else {
        van_count(spots.drop_last()) + if spots.last().occupied_by matches Some(e) && e.vehicle
            == Vehicle::Van {
            1nat
        } else {
            0nat
        }
    }
}

/// No sequence has more free spots than spots.
pub proof fn lemma_avail_count_le(spots: Seq<Spot>)
    ensures
        avail_count(spots) <= spots.len(),
    decreases spots.len(),
{
    if spots.len() > 0 {
        lemma_avail_count_le(spots.drop_last());
    }
}

/// The spot at `k` was the first free one and now holds this vehicle and
/// plate; every other spot, and the spot's own kind, are untouched.
pub closed spec fn parked_at(
    pre: Seq<Spot>,
    post: Seq<Spot>,
    v: Vehicle,
    plate: Seq<char>,
    k: int,
) -> bool {
    &&& 0 <= k < pre.len()
    &&& pre[k].spec_available()
    &&& forall|j: int| 0 <= j < k ==> !(#[trigger] pre[j]).spec_available()
    &&& post.len() == pre.len()
    &&& forall|j: int| 0 <= j < pre.len() && j != k ==> #[trigger] post[j] == pre[j]
    &&& post[k].spot_type == pre[k].spot_type
    &&& (post[k].occupied_by matches Some(e) && e.vehicle == v && e.number_plate@ == plate)
}

/// The spot at `k` holds a vehicle with this plate.
pub closed spec fn plate_at(spots: Seq<Spot>, k: int, plate: Seq<char>) -> bool {
    spots[k].occupied_by matches Some(e) && e.number_plate@ == plate
}

/// The spot at `k` was the first one holding this plate and is now free;
/// every other spot, and the spot's own kind, are untouched.
pub closed spec fn exited_at(pre: Seq<Spot>, post: Seq<Spot>, plate: Seq<char>, k: int) -> bool {
    &&& 0 <= k < pre.len()
    &&& plate_at(pre, k, plate)
    &&& forall|j: int| 0 <= j < k ==> !plate_at(pre, j, plate)
    &&& post.len() == pre.len()
    &&& forall|j: int| 0 <= j < pre.len() && j != k ==> #[trigger] post[j] == pre[j]
    &&& post[k].spot_type == pre[k].spot_type
    &&& post[k].spec_available()
}

/// A fresh sequence of `n` free spots of one kind.
fn empty_spots(spot_type: SpotType, n: usize) -> (r: Vec<Spot>)
    ensures
        r@.len() == n,
        all_available(r@),
        spots_ok(r@),
{
    let mut r: Vec<Spot> = Vec::new();
    let mut i: usize = 0;
    while i < n
        invariant
            i <= n,
            r@.len() == i,
            all_available(r@),
            spots_ok(r@),
        decreases n - i,
    {
        r.push(Spot { spot_type, occupied_by: None });
        i += 1;
    }
    r
}

/// How many spots of the vector are free.
fn count_available(spots: &Vec<Spot>) -> (r: usize)
    ensures
        r as nat == avail_count(spots@),
{
    let mut count: usize = 0;
    let mut i: usize = 0;
    while i < spots.len()
        invariant
            i <= spots@.len(),
            count <= i,
            count as nat == avail_count(spots@.take(i as int)),
        decreases spots@.len() - i,
    {
        proof {
            assert(spots@.take(i + 1).drop_last() =~= spots@.take(i as int));
            assert(spots@.take(i + 1).last() == spots@[i as int]);
        }
        if spots[i].is_available() {
            count += 1;
        }
        i += 1;
    }
    proof {
        assert(spots@.take(spots@.len() as int) =~= spots@);
    }
    count
}

/// Whether every spot of the vector is free.
fn all_spots_available(spots: &Vec<Spot>) -> (r: bool)
    ensures
        r == all_available(spots@),
{
    let mut i: usize = 0;
    while i < spots.len()
        invariant
            i <= spots@.len(),
            forall|k: int| 0 <= k < i ==> (#[trigger] spots@[k]).spec_available(),
        decreases spots@.len() - i,
    {
        if !spots[i].is_available() {
            return false;
        }
        i += 1;
    }
    true
}

/// Whether no spot of the vector is free.
fn no_spot_available(spots: &Vec<Spot>) -> (r: bool)
    ensures
        r == none_available(spots@),
{
    let mut i: usize = 0;
    while i < spots.len()
        invariant
            i <= spots@.len(),
            forall|k: int| 0 <= k < i ==> !(#[trigger] spots@[k]).spec_available(),
        decreases spots@.len() - i,
    {
        if spots[i].is_available() {
            return false;
        }
        i += 1;
    }
    true
}

/// How many spots of the vector hold a van.
fn count_vans(spots: &Vec<Spot>) -> (r: usize)
    ensures
        r as nat == van_count(spots@),
{
    let mut count: usize = 0;
    let mut i: usize = 0;
    while i < spots.len()
        invariant
            i <= spots@.len(),
            count <= i,
            count as nat == van_count(spots@.take(i as int)),
        decreases spots@.len() - i,
    {
        proof {
            assert(spots@.take(i + 1).drop_last() =~= spots@.take(i as int));
            assert(spots@.take(i + 1).last() == spots@[i as int]);
        }
        let is_van = match &spots[i].occupied_by {
            Some(e) => e.vehicle == Vehicle::Van,
            None => false,
        };
        if is_van {
            count += 1;
        }
        i += 1;
    }
    proof {
        assert(spots@.take(spots@.len() as int) =~= spots@);
    }
    count
}

/// Occupies the first free spot with this vehicle and plate, stamping the
/// current time; reports whether a spot was free at all.
fn park_in(spots: &mut Vec<Spot>, vehicle: Vehicle, number_plate: String) -> (r: bool)
    requires
        spots_ok(old(spots)@),
    ensures
        spots_ok(final(spots)@),
        r <==> !none_available(old(spots)@),
        !r ==> final(spots)@ == old(spots)@,
        r ==> exists|k: int| parked_at(old(spots)@, final(spots)@, vehicle, number_plate@, k),
{
    let ghost pre = spots@;
    let mut i: usize = 0;
    while i < spots.len()
        invariant
            i <= spots@.len(),
            pre == old(spots)@,
            spots@ == pre,
            spots_ok(pre),
            forall|k: int| 0 <= k < i ==> !(#[trigger] spots@[k]).spec_available(),
        decreases spots@.len() - i,
    {
        if spots[i].is_available() {
            let mut s = spots.remove(i);
            s.occupied_by = Some(
                VehicleEntry { vehicle, number_plate, entry_time: now_timestamp() },
            );
            let ghost filled = s;
            spots.insert(i, s);
            proof {
                assert(spots@ =~= pre.update(i as int, filled));
                assert(parked_at(pre, spots@, vehicle, number_plate@, i as int));
                assert forall|k: int| 0 <= k < spots@.len() implies (#[trigger] spots@[k]).ok() by {
                    if k != i {
                        assert(spots@[k] == pre[k]);
                    }
                }
            }
            return true;
        }
        i += 1;
    }
    false
}

/// Frees the first spot holding this plate and returns how long the vehicle
/// was parked, in whole seconds by the same clock that stamped the entry;
/// nothing if no spot holds the plate.
fn exit_from(spots: &mut Vec<Spot>, number_plate: &str) -> (r: Option<i64>)
    requires
        spots_ok(old(spots)@),
    ensures
        spots_ok(final(spots)@),
        r is Some <==> exists|k: int|
            0 <= k < old(spots)@.len() && plate_at(old(spots)@, k, number_plate@),
        r is None ==> final(spots)@ == old(spots)@,
        r is Some ==> exists|k: int| exited_at(old(spots)@, final(spots)@, number_plate@, k),
{
    let ghost pre = spots@;
    let plate_key: String = number_plate.to_owned();
    let mut i: usize = 0;
    while i < spots.len()
        invariant
            i <= spots@.len(),
            pre == old(spots)@,
            spots@ == pre,
            spots_ok(pre),
            plate_key@ == number_plate@,
            forall|k: int| 0 <= k < i ==> !plate_at(pre, k, number_plate@),
        decreases spots@.len() - i,
    {
        let here = match &spots[i].occupied_by {
            Some(e) => e.number_plate == plate_key,
            None => false,
        };
        if here {
            let mut s = spots.remove(i);
            let entry_time = match &s.occupied_by {
                Some(e) => e.entry_time,
                None => {
                    proof {
                        assert(false);
                    }
                    vstd::pervasive::unreached()
                },
            };
            s.occupied_by = None;
            let ghost freed = s;
            spots.insert(i, s);
            let duration = now_timestamp() - entry_time;
            proof {
                assert(spots@ =~= pre.update(i as int, freed));
                assert(plate_at(pre, i as int, number_plate@));
                assert(exited_at(pre, spots@, number_plate@, i as int));
                assert forall|k: int| 0 <= k < spots@.len() implies (#[trigger] spots@[k]).ok() by {
                    if k != i {
                        assert(spots@[k] == pre[k]);
                    }
                }
            }
            return Some(duration);
        }
        i += 1;
    }
    None
}

/// The lot: its motorcycle, compact and large spots.
#[derive(Debug)]
pub struct ParkingLot {
    motorcycle_spots: Vec<Spot>,
    compact_spots: Vec<Spot>,
    large_spots: Vec<Spot>,
}

/// The spots of the lot that this vehicle parks in: motorcycles in
/// motorcycle spots, cars in compact spots, vans in large spots.
pub open spec fn lot_spots(lot: ParkingLot, v: Vehicle) -> Seq<Spot> {
    match v {
        Vehicle::Motorcycle => lot.motorcycles(),
        Vehicle::Car => lot.compacts(),
        Vehicle::Van => lot.larges(),
    }
}

impl ParkingLot {
    /// The motorcycle spots.
    pub closed spec fn motorcycles(self) -> Seq<Spot> {
        self.motorcycle_spots@
    }

    /// The compact spots.
    pub closed spec fn compacts(self) -> Seq<Spot> {
        self.compact_spots@
    }

    /// The large spots.
    pub closed spec fn larges(self) -> Seq<Spot> {
        self.large_spots@
    }

    /// The lot's sizes fit one machine word together, and every recorded
    /// entry time is a bounded timestamp.
    pub closed spec fn wf(self) -> bool {
        &&& self.motorcycle_spots@.len() + self.compact_spots@.len() + self.large_spots@.len()
            <= usize::MAX
        &&& spots_ok(self.motorcycle_spots@)
        &&& spots_ok(self.compact_spots@)
        &&& spots_ok(self.large_spots@)
    }

    /// A lot with the given number of free spots of each kind.
    pub fn new(motorcycle: usize, compact: usize, large: usize) -> (r: Self)
        requires
            motorcycle + compact + large <= usize::MAX,
        ensures
            r.wf(),
            r.motorcycles().len() == motorcycle,
            r.compacts().len() == compact,
            r.larges().len() == large,
            all_available(r.motorcycles()),
            all_available(r.compacts()),
            all_available(r.larges()),
    {
        ParkingLot {
            motorcycle_spots: empty_spots(SpotType::Motorcycle, motorcycle),
            compact_spots: empty_spots(SpotType::Compact, compact),
            large_spots: empty_spots(SpotType::Large, large),
        }
    }

    /// How many spots the lot has in all.
    pub fn total_spots(&self) -> (r: usize)
        requires
            self.wf(),
        ensures
            r as nat == self.motorcycles().len() + self.compacts().len() + self.larges().len(),
    {
        self.motorcycle_spots.len() + self.compact_spots.len() + self.large_spots.len()
    }

    /// How many spots are still free, over all kinds.
    pub fn remaining_spots(&self) -> (r: usize)
        requires
            self.wf(),
        ensures
            r as nat == avail_count(self.motorcycles()) + avail_count(self.compacts())
                + avail_count(self.larges()),
    {
        proof {
            lemma_avail_count_le(self.motorcycles());
            lemma_avail_count_le(self.compacts());
            lemma_avail_count_le(self.larges());
        }
        count_available(&self.motorcycle_spots) + count_available(&self.compact_spots)
            + count_available(&self.large_spots)
    }

    /// Whether no spot of any kind is free.
    pub fn is_full(&self) -> (r: bool)
        requires
            self.wf(),
        ensures
            r <==> (avail_count(self.motorcycles()) + avail_count(self.compacts()) + avail_count(
                self.larges(),
            ) == 0),
    {
        self.remaining_spots() == 0
    }

    /// Whether every spot of every kind is free.
    pub fn is_empty(&self) -> (r: bool)
        ensures
            r <==> (all_available(self.motorcycles()) && all_available(self.compacts())
                && all_available(self.larges())),
    {
        all_spots_available(&self.motorcycle_spots) && all_spots_available(&self.compact_spots)
            && all_spots_available(&self.large_spots)
    }

    /// Whether every motorcycle spot is taken.
    pub fn motorcycle_full(&self) -> (r: bool)
        ensures
            r == none_available(self.motorcycles()),
    {
        no_spot_available(&self.motorcycle_spots)
    }

    /// Whether every compact spot is taken.
    pub fn compact_full(&self) -> (r: bool)
        ensures
            r == none_available(self.compacts()),
    {
        no_spot_available(&self.compact_spots)
    }

    /// Whether every large spot is taken.
    pub fn large_full(&self) -> (r: bool)
        ensures
            r == none_available(self.larges()),
    {
        no_spot_available(&self.large_spots)
    }

    /// How many large spots vans are taking up.
    pub fn van_spots_taken(&self) -> (r: usize)
        ensures
            r as nat == van_count(self.larges()),
    {
        count_vans(&self.large_spots)
    }

    /// Parks the vehicle in the first free spot of its kind, recording the
    /// plate and the entry time; reports whether a spot was free.
    pub fn park(&mut self, vehicle_type: Vehicle, number_plate: String) -> (r: bool)
        requires
            old(self).wf(),
        ensures
            final(self).wf(),
            r <==> !none_available(lot_spots(*old(self), vehicle_type)),
            !r ==> final(self).motorcycles() == old(self).motorcycles() && final(self).compacts()
                == old(self).compacts() && final(self).larges() == old(self).larges(),
            r ==> exists|k: int|
                parked_at(
                    lot_spots(*old(self), vehicle_type),
                    lot_spots(*final(self), vehicle_type),
                    vehicle_type,
                    number_plate@,
                    k,
                ),
            vehicle_type != Vehicle::Motorcycle ==> final(self).motorcycles() == old(
                self,
            ).motorcycles(),
            vehicle_type != Vehicle::Car ==> final(self).compacts() == old(self).compacts(),
            vehicle_type != Vehicle::Van ==> final(self).larges() == old(self).larges(),
    {
        let ghost pre = *self;
        let r: bool;
        match vehicle_type {
            Vehicle::Motorcycle => {
                r = park_in(&mut self.motorcycle_spots, Vehicle::Motorcycle, number_plate);
                proof {
                    assert(lot_spots(pre, vehicle_type) == pre.motorcycles());
                    assert(lot_spots(*self, vehicle_type) == self.motorcycles());
                }
            },
            Vehicle::Car => {
                r = park_in(&mut self.compact_spots, Vehicle::Car, number_plate);
                proof {
                    assert(lot_spots(pre, vehicle_type) == pre.compacts());
                    assert(lot_spots(*self, vehicle_type) == self.compacts());
                }
            },
            Vehicle::Van => {
                r = park_in(&mut self.large_spots, Vehicle::Van, number_plate);
                proof {
                    assert(lot_spots(pre, vehicle_type) == pre.larges());
                    assert(lot_spots(*self, vehicle_type) == self.larges());
                }
            },
        }
        r
    }

    /// Frees the first spot of the vehicle's kind that holds this plate and
    /// returns the parked duration in whole seconds; nothing if no such spot
    /// holds the plate. The per-second fee by vehicle kind is the caller's
    /// concern.
    pub fn exit(&mut self, vehicle_type: Vehicle, number_plate: &str) -> (r: Option<i64>)
        requires
            old(self).wf(),
        ensures
            final(self).wf(),
            r is Some <==> exists|k: int|
                0 <= k < lot_spots(*old(self), vehicle_type).len() && plate_at(
                    lot_spots(*old(self), vehicle_type),
                    k,
                    number_plate@,
                ),
            r is None ==> final(self).motorcycles() == old(self).motorcycles()
                && final(self).compacts() == old(self).compacts()
                && final(self).larges() == old(self).larges(),
            r is Some ==> exists|k: int|
                exited_at(
                    lot_spots(*old(self), vehicle_type),
                    lot_spots(*final(self), vehicle_type),
                    number_plate@,
                    k,
                ),
            vehicle_type != Vehicle::Motorcycle ==> final(self).motorcycles() == old(
                self,
            ).motorcycles(),
            vehicle_type != Vehicle::Car ==> final(self).compacts() == old(self).compacts(),
            vehicle_type != Vehicle::Van ==> final(self).larges() == old(self).larges(),
    {
        let ghost pre = *self;
        let r: Option<i64>;
        match vehicle_type {
            Vehicle::Motorcycle => {
                r = exit_from(&mut self.motorcycle_spots, number_plate);
                proof {
                    assert(lot_spots(pre, vehicle_type) == pre.motorcycles());
                    assert(lot_spots(*self, vehicle_type) == self.motorcycles());
                }
            },
            Vehicle::Car => {
                r = exit_from(&mut self.compact_spots, number_plate);
                proof {
                    assert(lot_spots(pre, vehicle_type) == pre.compacts());
                    assert(lot_spots(*self, vehicle_type) == self.compacts());
                }
            },
            Vehicle::Van => {
                r = exit_from(&mut self.large_spots, number_plate);
                proof {
                    assert(lot_spots(pre, vehicle_type) == pre.larges());
                    assert(lot_spots(*self, vehicle_type) == self.larges());
                }
            },
        }
        r
    }
}

} // verus!
