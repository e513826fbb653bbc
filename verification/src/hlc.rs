//! Hybrid logical clocks for last-write-wins ordering across regions.
//!
//! A stamp pairs wall-clock time with a logical counter, so that writes of
//! different regions have one total order that stays close to real time
//! without synchronised clocks. The order is lexicographic on
//! `(wall, logical, region)`; the region is the last tie-break.

use crate::event::{now_millis, Timestamp};
use std::cmp::Ordering;
use vstd::prelude::*;
use vstd::std_specs::cmp::{PartialEqSpec, PartialOrdSpec};
use vstd::utf8::encode_utf8;

verus! {

/// Lexicographic order of byte strings.
pub open spec fn bytes_before(a: Seq<u8>, b: Seq<u8>) -> bool
    decreases a.len(),
{
    if a.len() == 0 {
        b.len() > 0
    } else if b.len() == 0 {
        false
    } else {
        a[0] < b[0] || (a[0] == b[0] && bytes_before(a.skip(1), b.skip(1)))
    }
}

/// A stamp by its contents.
pub ghost struct Stamp {
    pub wall: u64,
    pub logical: u32,
    pub region: Seq<char>,
}

impl Stamp {
    /// The order of stamps: wall time first, the counter next, the region's
    /// UTF-8 bytes last.
    pub open spec fn before(self, other: Stamp) -> bool {
        ||| self.wall < other.wall
        ||| self.wall == other.wall && self.logical < other.logical
        ||| self.wall == other.wall && self.logical == other.logical && bytes_before(
            encode_utf8(self.region),
            encode_utf8(other.region),
        )
    }
}

proof fn lemma_bytes_irreflexive(a: Seq<u8>)
    ensures
        !bytes_before(a, a),
    decreases a.len(),
{
    if a.len() > 0 {
        lemma_bytes_irreflexive(a.skip(1));
    }
}

proof fn lemma_bytes_transitive(a: Seq<u8>, b: Seq<u8>, c: Seq<u8>)
    requires
        bytes_before(a, b),
        bytes_before(b, c),
    ensures
        bytes_before(a, c),
    decreases a.len(),
{
    if a.len() > 0 && a[0] == b[0] && b[0] == c[0] {
        lemma_bytes_transitive(a.skip(1), b.skip(1), c.skip(1));
    }
}

proof fn lemma_bytes_total(a: Seq<u8>, b: Seq<u8>)
    ensures
        bytes_before(a, b) || bytes_before(b, a) || a == b,
    decreases a.len(),
{
    if a.len() > 0 && b.len() > 0 && a[0] == b[0] {
        lemma_bytes_total(a.skip(1), b.skip(1));
        if a.skip(1) == b.skip(1) {
            assert(a =~= seq![a[0]] + a.skip(1));
            assert(b =~= seq![b[0]] + b.skip(1));
        }
    } else if a.len() == 0 && b.len() == 0 {
        assert(a =~= b);
    }
}

/// No stamp is before itself.
pub proof fn law_order_irreflexive(a: Stamp)
    ensures
        !a.before(a),
{
    lemma_bytes_irreflexive(encode_utf8(a.region));
}

/// The order of stamps is transitive.
pub proof fn law_order_transitive(a: Stamp, b: Stamp, c: Stamp)
    requires
        a.before(b),
        b.before(c),
    ensures
        a.before(c),
{
    let (x, y, z) = (encode_utf8(a.region), encode_utf8(b.region), encode_utf8(c.region));
    if bytes_before(x, y) && bytes_before(y, z) {
        lemma_bytes_transitive(x, y, z);
    }
}

/// Of two stamps one is before the other, or they are the same stamp: two
/// regions never make equal, incomparable stamps.
pub proof fn law_order_total(a: Stamp, b: Stamp)
    ensures
        a.before(b) || b.before(a) || a == b,
{
    lemma_bytes_total(encode_utf8(a.region), encode_utf8(b.region));
    crate::text::lemma_bytes_injective(a.region, b.region);
}

/// Compares two byte strings: whether the first is before the second, and
/// whether they are equal.
fn order_bytes(a: &[u8], b: &[u8]) -> (r: (bool, bool))
    ensures
        r.0 == bytes_before(a@, b@),
        r.1 == (a@ == b@),
{
    let mut i: usize = 0;
    assert(a@.skip(0) =~= a@);
    assert(b@.skip(0) =~= b@);
    while i < a.len() && i < b.len()
        invariant
            i <= a.len(),
            i <= b.len(),
            bytes_before(a@, b@) == bytes_before(a@.skip(i as int), b@.skip(i as int)),
            a@.take(i as int) == b@.take(i as int),
        decreases a.len() - i,
    {
        if a[i] != b[i] {
            assert(a@[i as int] == a@.skip(i as int)[0]);
            assert(b@[i as int] == b@.skip(i as int)[0]);
            return (a[i] < b[i], false);
        }
        assert(a@.skip(i as int).skip(1) =~= a@.skip(i + 1));
        assert(b@.skip(i as int).skip(1) =~= b@.skip(i + 1));
        assert(a@.take(i + 1) =~= a@.take(i as int).push(a@[i as int]));
        assert(b@.take(i + 1) =~= b@.take(i as int).push(b@[i as int]));
        i = i + 1;
    }
    if a.len() == b.len() {
        assert(a@ =~= a@.take(i as int));
        assert(b@ =~= b@.take(i as int));
    }
    (a.len() < b.len(), a.len() == b.len())
}

/// A hybrid logical clock stamp.
#[derive(Debug, Ord)]
pub struct Hlc {
    pub wall: u64,
    pub logical: u32,
    pub region: String,
}

impl View for Hlc {
    type V = Stamp;

    open spec fn view(&self) -> Stamp {
        Stamp { wall: self.wall, logical: self.logical, region: self.region@ }
    }
}

impl Hlc {
    /// The stamp of writes that no multi-leader region made.
    pub fn zero() -> (h: Self)
        ensures
            h@ == (Stamp { wall: 0, logical: 0, region: Seq::empty() }),
    {
        let h = Hlc { wall: 0, logical: 0, region: String::new() };
        assert(h.region@ =~= Seq::<char>::empty());
        h
    }

    /// Whether this stamp is before the other, and whether they are the same.
    fn order(&self, other: &Self) -> (r: (bool, bool))
        ensures
            r.0 == self@.before(other@),
            r.1 == (self@ == other@),
    {
        proof {
            crate::text::lemma_bytes_injective(self.region@, other.region@);
        }
        let (less, same) = order_bytes(
            self.region.as_str().as_bytes(),
            other.region.as_str().as_bytes(),
        );
        if self.wall != other.wall {
            (self.wall < other.wall, false)
        } else if self.logical != other.logical {
            (self.logical < other.logical, false)
        } else {
            (less, same)
        }
    }

    /// Whether this stamp is before the other.
    pub fn is_before(&self, other: &Self) -> (r: bool)
        ensures
            r == self@.before(other@),
    {
        self.order(other).0
    }
}

impl Clone for Hlc {
    fn clone(&self) -> (h: Self)
        ensures
            h@ == self@,
    {
        Hlc { wall: self.wall, logical: self.logical, region: self.region.clone() }
    }
}

impl PartialEq for Hlc {
    fn eq(&self, other: &Self) -> (r: bool) {
        self.order(other).1
    }
}

impl vstd::std_specs::cmp::PartialEqSpecImpl for Hlc {
    open spec fn obeys_eq_spec() -> bool {
        true
    }

    open spec fn eq_spec(&self, other: &Self) -> bool {
        self@ == other@
    }
}

impl Eq for Hlc {
}

impl PartialOrd for Hlc {
    fn partial_cmp(&self, other: &Self) -> (r: Option<Ordering>) {
        let (less, same) = self.order(other);
        if less {
            Some(Ordering::Less)
        } else if same {
            Some(Ordering::Equal)
        } else {
            Some(Ordering::Greater)
        }
    }
}

impl vstd::std_specs::cmp::PartialOrdSpecImpl for Hlc {
    open spec fn obeys_partial_cmp_spec() -> bool {
        true
    }

    open spec fn partial_cmp_spec(&self, other: &Self) -> Option<Ordering> {
        if self@.before(other@) {
            Some(Ordering::Less)
        } else if self@ == other@ {
            Some(Ordering::Equal)
        } else {
            Some(Ordering::Greater)
        }
    }
}

/// A region's clock: the time of its last stamp.
pub ghost struct ClockState {
    pub wall: u64,
    pub logical: u32,
    pub region: Seq<char>,
}

impl ClockState {
    /// The last stamp that the clock gave out.
    pub open spec fn stamp(self) -> Stamp {
        Stamp { wall: self.wall, logical: self.logical, region: self.region }
    }

    /// Whether the next stamp at physical time `phys` fits the counter.
    pub open spec fn can_tick(self, phys: u64) -> bool {
        phys > self.wall || self.logical < u32::MAX
    }

    /// The state after a local stamp: physical time where it has advanced,
    /// else the next count at the last wall time.
    pub open spec fn ticked(self, phys: u64) -> ClockState {
        if phys > self.wall {
            ClockState { wall: phys, logical: 0, region: self.region }
        } else {
            ClockState { logical: (self.logical + 1) as u32, ..self }
        }
    }

    /// The state after a local stamp at the time `ms`, of which the low 64
    /// bits count; `None` where there is no time, or the counter is used up
    /// at it.
    pub open spec fn stamped_at(self, ms: Option<Timestamp>) -> Option<ClockState> {
        match ms {
            Some(t) => if self.can_tick(t as u64) {
                Some(self.ticked(t as u64))
            } else {
                None
            },
            None => None,
        }
    }

    /// The state after merging a remote stamp at the time `ms`, of which the
    /// low 64 bits count; `None` where there is no time, or the counter is
    /// used up at it.
    pub open spec fn merged_at(self, remote: Stamp, ms: Option<Timestamp>) -> Option<ClockState> {
        match ms {
            Some(t) => if self.can_merge(remote, t as u64) {
                Some(self.merged(remote, t as u64))
            } else {
                None
            },
            None => None,
        }
    }

    /// The latest of the three times that a merge sees.
    pub open spec fn merged_wall(self, remote: Stamp, phys: u64) -> u64 {
        if phys >= self.wall && phys >= remote.wall {
            phys
        } else if self.wall >= remote.wall {
            self.wall
        } else {
            remote.wall
        }
    }

    /// The largest count already used at the merged wall time, or `None`
    /// where neither side has used that time.
    pub open spec fn used_count(self, remote: Stamp, phys: u64) -> Option<u32> {
        let wall = self.merged_wall(remote, phys);
        if wall == self.wall && wall == remote.wall {
            Some(if self.logical >= remote.logical { self.logical } else { remote.logical })
        } else if wall == self.wall {
            Some(self.logical)
        } else if wall == remote.wall {
            Some(remote.logical)
        } else {
            None
        }
    }

    /// Whether the next stamp after merging `remote` fits the counter.
    pub open spec fn can_merge(self, remote: Stamp, phys: u64) -> bool {
        self.used_count(remote, phys) matches Some(n) ==> n < u32::MAX
    }

    /// The state after merging a remote stamp.
    pub open spec fn merged(self, remote: Stamp, phys: u64) -> ClockState {
        ClockState {
            wall: self.merged_wall(remote, phys),
            logical: match self.used_count(remote, phys) {
                Some(n) => (n + 1) as u32,
                None => 0,
            },
            region: self.region,
        }
    }
}

/// Makes monotonic stamps for a region, and advances on seeing remote stamps.
pub struct HlcClock {
    region: String,
    wall: u64,
    logical: u32,
}

impl View for HlcClock {
    type V = ClockState;

    closed spec fn view(&self) -> ClockState {
        ClockState { wall: self.wall, logical: self.logical, region: self.region@ }
    }
}

impl HlcClock {
    pub fn new(region: String) -> (c: Self)
        ensures
            c@ == (ClockState { wall: 0, logical: 0, region: region@ }),
    {
        HlcClock { region, wall: 0, logical: 0 }
    }

    fn last(&self) -> (h: Hlc)
        ensures
            h@ == self@.stamp(),
    {
        Hlc { wall: self.wall, logical: self.logical, region: self.region.clone() }
    }

    /// The next local stamp at physical time `phys`: where that time has not
    /// advanced past the last stamp, the counter moves instead.
    pub fn tick(&mut self, phys: u64) -> (h: Hlc)
        requires
            old(self)@.can_tick(phys),
        ensures
            final(self)@ == old(self)@.ticked(phys),
            h@ == final(self)@.stamp(),
    {
        if phys > self.wall {
            self.wall = phys;
            self.logical = 0;
        } else {
            self.logical = self.logical + 1;
        }
        self.last()
    }

    /// The merged wall time and the largest count already used at it.
    fn meet(&self, remote: &Hlc, phys: u64) -> (r: (u64, Option<u32>))
        ensures
            r.0 == self@.merged_wall(remote@, phys),
            r.1 == self@.used_count(remote@, phys),
    {
        let mut wall: u64 = phys;
        if self.wall > wall {
            wall = self.wall;
        }
        if remote.wall > wall {
            wall = remote.wall;
        }
        let used = if wall == self.wall && wall == remote.wall {
            if self.logical >= remote.logical {
                Some(self.logical)
            } else {
                Some(remote.logical)
            }
        } else if wall == self.wall {
            Some(self.logical)
        } else if wall == remote.wall {
            Some(remote.logical)
        } else {
            None
        };
        (wall, used)
    }

    /// The next local stamp after seeing a remote one, at physical time
    /// `phys`.
    pub fn merge(&mut self, remote: &Hlc, phys: u64) -> (h: Hlc)
        requires
            old(self)@.can_merge(remote@, phys),
        ensures
            final(self)@ == old(self)@.merged(remote@, phys),
            h@ == final(self)@.stamp(),
    {
        let (wall, used) = self.meet(remote, phys);
        self.wall = wall;
        self.logical = match used {
            Some(n) => n + 1,
            None => 0,
        };
        self.last()
    }

    /// The next local stamp at the time that the machine's clock shows
    /// (`None` where it stands before the Unix epoch). There is one exactly
    /// where there is a time and the counter is not used up at it; else the
    /// clock is unchanged.
    pub fn now_at(&mut self, ms: Option<Timestamp>) -> (h: Option<Hlc>)
        ensures
            match old(self)@.stamped_at(ms) {
                Some(c) => final(self)@ == c && (h matches Some(s) && s@ == c.stamp()),
                None => final(self)@ == old(self)@ && h is None,
            },
    {
        match ms {
            Some(t) => {
                let phys: u64 = #[verifier::truncate] (t as u64);
                if phys > self.wall || self.logical < u32::MAX {
                    Some(self.tick(phys))
                } else {
                    None
                }
            },
            None => None,
        }
    }

    /// The local stamp after a remote one at the time that the machine's clock
    /// shows (`None` where it stands before the Unix epoch). There is one
    /// exactly where there is a time and the counter is not used up at it;
    /// else the clock is unchanged.
    pub fn observe_at(&mut self, remote: &Hlc, ms: Option<Timestamp>) -> (h: Option<Hlc>)
        ensures
            match old(self)@.merged_at(remote@, ms) {
                Some(c) => final(self)@ == c && (h matches Some(s) && s@ == c.stamp()),
                None => final(self)@ == old(self)@ && h is None,
            },
    {
        match ms {
            Some(t) => {
                let phys: u64 = #[verifier::truncate] (t as u64);
                let full = match self.meet(remote, phys).1 {
                    Some(n) => n == u32::MAX,
                    None => false,
                };
                if full {
                    None
                } else {
                    Some(self.merge(remote, phys))
                }
            },
            None => None,
        }
    }

    /// The next local stamp: `now_at` of the current time. `None`, with the
    /// clock unchanged, where the machine's clock stands before the Unix epoch
    /// or the counter is used up.
    pub fn now(&mut self) -> (h: Option<Hlc>)
        ensures
            h is None ==> final(self)@ == old(self)@,
            h matches Some(s) ==> s@ == final(self)@.stamp() && exists|phys: u64|
                old(self)@.can_tick(phys) && final(self)@ == #[trigger] old(self)@.ticked(phys),
    {
        self.now_at(now_millis())
    }

    /// Advances past a remote stamp and returns a local stamp later than it:
    /// `observe_at` of the current time.
    /// `None`, with the clock unchanged, where the machine's clock stands
    /// before the Unix epoch or the counter is used up.
    pub fn observe(&mut self, remote: &Hlc) -> (h: Option<Hlc>)
        ensures
            h is None ==> final(self)@ == old(self)@,
            h matches Some(s) ==> s@ == final(self)@.stamp() && exists|phys: u64|
                old(self)@.can_merge(remote@, phys) && final(self)@ == #[trigger] old(self)@.merged(
                    remote@,
                    phys,
                ),
    {
        self.observe_at(remote, now_millis())
    }
}

/// Every local stamp is later than the clock's last one.
pub proof fn law_tick_is_monotonic(c: ClockState, phys: u64)
    requires
        c.can_tick(phys),
    ensures
        c.stamp().before(c.ticked(phys).stamp()),
{
}

/// After a merge the clock is past the remote stamp and past its own last
/// one.
pub proof fn law_merge_passes_both(c: ClockState, remote: Stamp, phys: u64)
    requires
        c.can_merge(remote, phys),
    ensures
        remote.before(c.merged(remote, phys).stamp()),
        c.stamp().before(c.merged(remote, phys).stamp()),
{
}

/// Local stamps after a merge stay past the remote stamp.
pub proof fn law_stays_past_observed(c: ClockState, remote: Stamp, phys: u64, later: u64)
    requires
        c.can_merge(remote, phys),
        c.merged(remote, phys).can_tick(later),
    ensures
        remote.before(c.merged(remote, phys).ticked(later).stamp()),
{
    law_merge_passes_both(c, remote, phys);
    law_tick_is_monotonic(c.merged(remote, phys), later);
    law_order_transitive(
        remote,
        c.merged(remote, phys).stamp(),
        c.merged(remote, phys).ticked(later).stamp(),
    );
}

/// The newest of some stamps.
pub open spec fn newest(stamps: Seq<Stamp>) -> Option<Stamp>
    decreases stamps.len(),
{
    if stamps.len() == 0 {
        None
    } else {
        match newest(stamps.drop_last()) {
            Some(m) if !m.before(stamps.last()) => Some(m),
            _ => Some(stamps.last()),
        }
    }
}

proof fn lemma_newest(stamps: Seq<Stamp>)
    requires
        stamps.len() > 0,
    ensures
        newest(stamps) matches Some(m) && stamps.contains(m) && forall|i: int|
            0 <= i < stamps.len() ==> !m.before(#[trigger] stamps[i]),
    decreases stamps.len(),
{
    let front = stamps.drop_last();
    let last = stamps.last();
    assert(stamps[stamps.len() - 1] == last);
    law_order_irreflexive(last);
    if front.len() > 0 {
        lemma_newest(front);
        let m = newest(front)->0;
        let k = front.index_of(m);
        assert(stamps[k] == m);
        let top = newest(stamps)->0;
        assert forall|i: int| 0 <= i < stamps.len() implies !top.before(#[trigger] stamps[i]) by {
            if i < front.len() {
                assert(front[i] == stamps[i]);
                if m.before(last) && last.before(stamps[i]) {
                    law_order_transitive(m, last, stamps[i]);
                }
            }
        }
    }
}

/// Which of several writes of a key is the newest does not depend on the
/// order in which they arrive, nor on how often each one does. Regions that
/// keep the newest write so agree once they have seen the same writes.
pub proof fn law_newest_is_order_free(xs: Seq<Stamp>, ys: Seq<Stamp>)
    requires
        forall|s: Stamp| #[trigger] xs.contains(s) <==> ys.contains(s),
    ensures
        newest(xs) == newest(ys),
{
    if xs.len() == 0 {
        if ys.len() > 0 {
            assert(ys.contains(ys[0]));
            assert(xs.contains(ys[0]));
        }
    } else {
        assert(xs.contains(xs[0]));
        lemma_newest(xs);
        lemma_newest(ys);
        let (a, b) = (newest(xs)->0, newest(ys)->0);
        assert(xs.contains(b));
        assert(ys.contains(a));
        let i = xs.index_of(b);
        let j = ys.index_of(a);
        assert(!a.before(xs[i]));
        assert(!b.before(ys[j]));
        law_order_total(a, b);
    }
}

/// Regions are ordered as their bytes are: by the first byte in which they
/// differ, and a text comes before every longer one that begins with it.
pub proof fn law_bytes_are_ordered_by_the_first_difference(a: Seq<u8>, b: Seq<u8>)
    ensures
        bytes_before(a, b) <==> exists|i: int|
            #![trigger a.take(i)]
            0 <= i <= a.len() && i < b.len() && a.take(i) == b.take(i) && (i < a.len() ==> a[i]
                < b[i]),
    decreases a.len(),
{
    if a.len() == 0 {
        if b.len() > 0 {
            assert(a.take(0) =~= b.take(0));
        }
    } else if b.len() > 0 {
        let (x, y) = (a.skip(1), b.skip(1));
        law_bytes_are_ordered_by_the_first_difference(x, y);
        if bytes_before(a, b) {
            if a[0] < b[0] {
                assert(a.take(0) =~= b.take(0));
            } else {
                let j = choose|j: int|
                    #![trigger x.take(j)]
                    0 <= j <= x.len() && j < y.len() && x.take(j) == y.take(j) && (j < x.len()
                        ==> x[j] < y[j]);
                assert forall|k: int| 0 <= k < j + 1 implies a[k] == b[k] by {
                    if k > 0 {
                        assert(x.take(j)[k - 1] == y.take(j)[k - 1]);
                    }
                }
                assert(a.take(j + 1) =~= b.take(j + 1));
            }
        }
        if exists|i: int|
            #![trigger a.take(i)]
            0 <= i <= a.len() && i < b.len() && a.take(i) == b.take(i) && (i < a.len() ==> a[i]
                < b[i]) {
            let i = choose|i: int|
                #![trigger a.take(i)]
                0 <= i <= a.len() && i < b.len() && a.take(i) == b.take(i) && (i < a.len() ==> a[i]
                    < b[i]);
            if i > 0 {
                assert(a.take(i)[0] == b.take(i)[0]);
                assert(x.take(i - 1) =~= y.take(i - 1)) by {
                    assert forall|k: int| 0 <= k < i - 1 implies x[k] == y[k] by {
                        assert(a.take(i)[k + 1] == b.take(i)[k + 1]);
                    }
                }
            }
        }
    }
}

/// The later time wins; at one time the larger count, and at one count the
/// region that comes later.
pub proof fn law_stamps_are_ordered_by_time_then_count_then_region(a: Stamp, b: Stamp)
    ensures
        a.wall < b.wall ==> a.before(b) && !b.before(a),
        a.wall == b.wall && a.logical < b.logical ==> a.before(b) && !b.before(a),
        a.wall == b.wall && a.logical == b.logical ==> (a.before(b) <==> bytes_before(
            encode_utf8(a.region),
            encode_utf8(b.region),
        )),
{
}

/// A tick takes the machine's time where that is later, and else counts on.
pub proof fn law_tick_follows_the_time(c: ClockState, phys: u64)
    ensures
        c.can_tick(phys) <==> phys > c.wall || c.logical < 0xffff_ffff,
        phys > c.wall ==> c.ticked(phys).wall == phys && c.ticked(phys).logical == 0,
        phys <= c.wall && c.logical < 0xffff_ffff ==> c.ticked(phys).wall == c.wall && c.ticked(
            phys,
        ).logical == c.logical + 1,
        c.ticked(phys).region == c.region,
        c.stamp().wall == c.wall && c.stamp().logical == c.logical && c.stamp().region == c.region,
{
}

/// After another node's stamp was seen, the clock shows the latest of its own
/// time, that stamp's and the machine's, and a count after those that were
/// used at that time: none where only the machine is there.
pub proof fn law_merge_takes_the_latest_time(c: ClockState, remote: Stamp, phys: u64)
    requires
        c.logical < 0xffff_ffff,
        remote.logical < 0xffff_ffff,
    ensures
        c.can_merge(remote, phys),
        ({
            let m = c.merged(remote, phys);
            &&& m.region == c.region
            &&& m.wall >= c.wall && m.wall >= remote.wall && m.wall >= phys
            &&& m.wall == c.wall || m.wall == remote.wall || m.wall == phys
            &&& m.wall != c.wall && m.wall != remote.wall ==> m.logical == 0
            &&& m.wall == c.wall && m.wall != remote.wall ==> m.logical == c.logical + 1
            &&& m.wall != c.wall && m.wall == remote.wall ==> m.logical == remote.logical + 1
            &&& m.wall == c.wall && m.wall == remote.wall ==> m.logical == 1 + if c.logical
                >= remote.logical {
                c.logical
            } else {
                remote.logical
            }
        }),
{
}

/// A clock cannot go past a stamp only where the count at the latest time is
/// used up.
pub proof fn law_merge_fails_only_at_the_last_count(c: ClockState, remote: Stamp, phys: u64)
    ensures
        !c.can_merge(remote, phys) <==> {
            ||| c.logical == 0xffff_ffff && c.wall >= remote.wall && c.wall >= phys
            ||| remote.logical == 0xffff_ffff && remote.wall >= c.wall && remote.wall >= phys
        },
{
}

/// A reading of the machine's clock is the time of the tick and of the merge;
/// without one there is no stamp.
pub proof fn law_reading_is_the_time(c: ClockState, remote: Stamp, t: u64)
    ensures
        c.can_tick(t) ==> c.stamped_at(Some(t as u128)) == Some(c.ticked(t)),
        !c.can_tick(t) ==> c.stamped_at(Some(t as u128)) is None,
        c.stamped_at(None) is None,
        c.can_merge(remote, t) ==> c.merged_at(remote, Some(t as u128)) == Some(c.merged(remote, t)),
        !c.can_merge(remote, t) ==> c.merged_at(remote, Some(t as u128)) is None,
        c.merged_at(remote, None) is None,
{
}

/// The newest of some stamps is one of them, and none of them is later.
pub proof fn law_newest_is_not_surpassed(stamps: Seq<Stamp>)
    ensures
        stamps.len() == 0 <==> newest(stamps) is None,
        newest(stamps) matches Some(m) ==> stamps.contains(m) && forall|i: int|
            0 <= i < stamps.len() ==> !m.before(#[trigger] stamps[i]),
    decreases stamps.len(),
{
    if stamps.len() > 0 {
        let front = stamps.drop_last();
        law_newest_is_not_surpassed(front);
        let m = newest(stamps)->0;
        let last = stamps.last();
        law_order_irreflexive(last);
        if front.len() > 0 && !(newest(front)->0).before(last) {
            let k = front.index_of(m);
            assert(stamps[k] == m);
            assert forall|i: int| 0 <= i < stamps.len() implies !m.before(#[trigger] stamps[i]) by {
                if i < front.len() {
                    assert(front[i] == stamps[i]);
                }
            }
        } else {
            assert(stamps[stamps.len() - 1] == m);
            assert forall|i: int| 0 <= i < stamps.len() implies !m.before(#[trigger] stamps[i]) by {
                if i < front.len() && m.before(stamps[i]) {
                    assert(front[i] == stamps[i]);
                    law_order_transitive(newest(front)->0, m, stamps[i]);
                }
            }
        }
    }
}

/// A stamp by its contents is what its fields hold.
pub proof fn law_stamp_is_what_it_holds(a: Hlc)
    ensures
        a@.wall == a.wall && a@.logical == a.logical && a@.region == a.region@,
{
}

/// Stamps are equal where they hold the same, and compare by their order.
pub proof fn law_comparison_is_the_order(a: Hlc, b: Hlc)
    ensures
        a.eq_spec(&b) <==> a.wall == b.wall && a.logical == b.logical && a.region@ == b.region@,
        a.partial_cmp_spec(&b) == Some(Ordering::Less) <==> a@.before(b@),
        a.partial_cmp_spec(&b) == Some(Ordering::Equal) <==> a@ == b@,
        a.partial_cmp_spec(&b) == Some(Ordering::Greater) <==> b@.before(a@),
{
    law_order_total(a@, b@);
    law_order_irreflexive(a@);
    if a@.before(b@) && b@.before(a@) {
        law_order_transitive(a@, b@, a@);
    }
}

} // verus!
