//! The zone table: its rows, how the loaded zones are split between the
//! parts of a partitioned run, and the text of the query that loads one part.
use crate::numfmt::{append_decimal, decimal_text, lemma_decimal_text_reads_back, reads_as};
use crate::tbl::{holds_fields, lemma_add_field, lemma_no_fields};
use vstd::prelude::*;

verus! {

/// Represents a Zone in the dataset
///
/// `to_string` formats the row in the 'tbl' format: every field followed by `|`.
#[derive(Debug, PartialEq)]
pub struct Zone {
    /// Primary key
    pub z_zonekey: i64,
    /// GERS ID of the zone
    pub z_gersid: String,
    /// Name of the zone
    pub z_name: String,
    /// Subtype of the zone
    pub z_subtype: String,
    /// Boundary geometry in WKT format
    pub z_boundary: String,
}

impl Clone for Zone {
    fn clone(&self) -> (zone: Self)
        ensures
            zone == *self,
    {
        Zone {
            z_zonekey: self.z_zonekey,
            z_gersid: self.z_gersid.clone(),
            z_name: self.z_name.clone(),
            z_subtype: self.z_subtype.clone(),
            z_boundary: self.z_boundary.clone(),
        }
    }
}

impl Zone {
    /// The row in 'tbl' format.
    pub open spec fn row_text(&self) -> Seq<char> {
        decimal_text(self.z_zonekey as int) + "|"@ + self.z_gersid@ + "|"@ + self.z_name@ + "|"@
            + self.z_subtype@ + "|"@ + self.z_boundary@ + "|"@
    }

    /// The row in 'tbl' format.
    pub fn to_string(&self) -> (s: String)
        ensures
            s@ == self.row_text(),
    {
        let mut s = String::new();
        append_decimal(&mut s, self.z_zonekey);
        s.append("|");
        s.append(self.z_gersid.as_str());
        s.append("|");
        s.append(self.z_name.as_str());
        s.append("|");
        s.append(self.z_subtype.as_str());
        s.append("|");
        s.append(self.z_boundary.as_str());
        s.append("|");
        assert(s@ =~= self.row_text());
        s
    }
}

/// A zone's row holds its fields verbatim, in order, each followed by a bar:
/// the key, the GERS id, the name, the subtype and the boundary.
pub proof fn lemma_zone_row_fields(row: Zone)
    ensures
        holds_fields(
            row.row_text(),
            seq![decimal_text(row.z_zonekey as int), row.z_gersid@, row.z_name@, row.z_subtype@, row.z_boundary@],
        ),
{
    lemma_no_fields();
    lemma_add_field(Seq::<char>::empty(), Seq::<Seq<char>>::empty(), decimal_text(row.z_zonekey as int));
    let r0 = Seq::<char>::empty() + decimal_text(row.z_zonekey as int) + "|"@;
    let f0 = Seq::<Seq<char>>::empty().push(decimal_text(row.z_zonekey as int));
    lemma_add_field(r0, f0, row.z_gersid@);
    let r1 = r0 + row.z_gersid@ + "|"@;
    let f1 = f0.push(row.z_gersid@);
    lemma_add_field(r1, f1, row.z_name@);
    let r2 = r1 + row.z_name@ + "|"@;
    let f2 = f1.push(row.z_name@);
    lemma_add_field(r2, f2, row.z_subtype@);
    let r3 = r2 + row.z_subtype@ + "|"@;
    let f3 = f2.push(row.z_subtype@);
    lemma_add_field(r3, f3, row.z_boundary@);
    let r4 = r3 + row.z_boundary@ + "|"@;
    let f4 = f3.push(row.z_boundary@);
    assert(r4 =~= row.row_text());
    assert(f4 =~= seq![decimal_text(row.z_zonekey as int), row.z_gersid@, row.z_name@, row.z_subtype@, row.z_boundary@]);
}

// ----------------------------------------------------------------------
// Splitting loaded zones between parts
// ----------------------------------------------------------------------
/// The most zones that a generator holds.
pub const MAX_ZONE_COUNT: u64 = 0x4000_0000_0000_0000;

/// How many zones each part gets: the zone count divided by the part count,
/// rounded up.
pub open spec fn zones_per_part(zone_count: int, part_count: int) -> int {
    (zone_count + part_count - 1) / part_count
}

/// The first index of part `part` (counted from one).
pub open spec fn part_start(zone_count: int, part: int, part_count: int) -> int {
    if part_count <= 1 {
        0
    } else {
        (part - 1) * zones_per_part(zone_count, part_count)
    }
}

/// The index past the last zone of part `part`.
pub open spec fn part_end(zone_count: int, part: int, part_count: int) -> int {
    if part_count <= 1 {
        zone_count
    } else {
        let end = part_start(zone_count, part, part_count) + zones_per_part(zone_count, part_count);
        if end < zone_count {
            end
        } else {
            zone_count
        }
    }
}

/// The zones of part `part`, in order.
pub open spec fn part_zones(zones: Seq<Zone>, part: int, part_count: int) -> Seq<Zone> {
    let start = part_start(zones.len() as int, part, part_count);
    let end = part_end(zones.len() as int, part, part_count);
    if start < end {
        zones.subrange(start, end)
    } else {
        Seq::empty()
    }
}

/// The zones of parts `1..=parts`, one part after the other.
pub open spec fn first_parts_zones(zones: Seq<Zone>, parts: int, part_count: int) -> Seq<Zone>
    decreases parts,
{
    if parts <= 0 {
        Seq::empty()
    } else {
        first_parts_zones(zones, parts - 1, part_count) + part_zones(zones, parts, part_count)
    }
}

/// Whether the bounds of part `part` can be computed in 64 bits.
pub open spec fn part_in_range(zone_count: int, part: int, part_count: int) -> bool {
    part_count <= 1 || {
        &&& i32::MIN <= part - 1
        &&& i64::MIN <= part_start(zone_count, part, part_count)
        &&& part_start(zone_count, part, part_count) + zones_per_part(zone_count, part_count)
            <= i64::MAX
    }
}

/// Each part gets at least its share: the parts together have room for every zone.
proof fn lemma_parts_have_room(zone_count: int, part_count: int)
    requires
        zone_count >= 0,
        part_count >= 1,
    ensures
        zones_per_part(zone_count, part_count) >= 0,
        part_count * zones_per_part(zone_count, part_count) >= zone_count,
        zones_per_part(zone_count, part_count) == 0 <==> zone_count == 0,
{
    let q = zones_per_part(zone_count, part_count);
    vstd::arithmetic::div_mod::lemma_fundamental_div_mod(zone_count + part_count - 1, part_count);
    vstd::arithmetic::div_mod::lemma_mod_pos_bound(zone_count + part_count - 1, part_count);
    let r = (zone_count + part_count - 1) % part_count;
    assert(zone_count + part_count - 1 == part_count * q + r);
    assert(part_count * q >= zone_count);
    if q == 0 {
        assert(part_count * q == 0) by (nonlinear_arith)
            requires
                q == 0,
        ;
    }
    assert(q >= 0) by {
        vstd::arithmetic::div_mod::lemma_div_pos_is_pos(zone_count + part_count - 1, part_count);
    }
    if zone_count == 0 {
        vstd::arithmetic::div_mod::lemma_basic_div(part_count - 1, part_count);
    }
}

/// The first `parts` parts hold the zones up to `parts` times the share of a part.
proof fn lemma_first_parts_prefix(zones: Seq<Zone>, parts: int, part_count: int)
    requires
        part_count >= 2,
        0 <= parts,
    ensures
        ({
            let n = zones.len() as int;
            let reach = parts * zones_per_part(n, part_count);
            first_parts_zones(zones, parts, part_count) == zones.subrange(
                0,
                if reach < n {
                    reach
                } else {
                    n
                },
            )
        }),
    decreases parts,
{
    let n = zones.len() as int;
    let share = zones_per_part(n, part_count);
    lemma_parts_have_room(n, part_count);
    if parts == 0 {
        assert(parts * share == 0) by (nonlinear_arith)
            requires
                parts == 0,
        ;
        assert(zones.subrange(0, 0) =~= Seq::<Zone>::empty());
    } else {
        lemma_first_parts_prefix(zones, parts - 1, part_count);
        let start = (parts - 1) * share;
        assert(parts * share == start + share) by (nonlinear_arith)
            requires
                start == (parts - 1) * share,
        ;
        assert(start >= 0) by (nonlinear_arith)
            requires
                start == (parts - 1) * share,
                parts >= 1,
                share >= 0,
        ;
        let prev_reach = if start < n {
            start
        } else {
            n
        };
        let reach = if parts * share < n {
            parts * share
        } else {
            n
        };
        assert(part_start(n, parts, part_count) == start);
        assert(part_end(n, parts, part_count) == reach);
        if start < reach {
            assert(zones.subrange(0, prev_reach) + zones.subrange(start, reach) =~= zones.subrange(
                0,
                reach,
            ));
        } else {
            assert(prev_reach == reach);
            assert(zones.subrange(0, prev_reach) + Seq::<Zone>::empty() =~= zones.subrange(
                0,
                reach,
            ));
        }
    }
}

/// The parts of a run, taken one after the other, hold every loaded zone
/// exactly once, in the order in which the zones were loaded.
pub proof fn lemma_parts_cover_all_zones(zones: Seq<Zone>, part_count: int)
    requires
        part_count >= 1,
    ensures
        first_parts_zones(zones, part_count, part_count) == zones,
{
    let n = zones.len() as int;
    if part_count == 1 {
        assert(first_parts_zones(zones, 0, 1) =~= Seq::<Zone>::empty());
        assert(first_parts_zones(zones, 1, 1) =~= zones);
    } else {
        lemma_first_parts_prefix(zones, part_count, part_count);
        lemma_parts_have_room(n, part_count);
        assert(zones.subrange(0, n) =~= zones);
    }
}

/// The number of zones of part `part`: the size of its slice of the zones,
/// or 0 for a part that starts at or past its end.
pub open spec fn part_size(zone_count: int, part: int, part_count: int) -> int {
    let size = part_end(zone_count, part, part_count) - part_start(zone_count, part, part_count);
    if size > 0 {
        size
    } else {
        0
    }
}

/// Whether part `part` counts from the first zone on: it is the only part,
/// or it is counted from one, or there are no zones to split.
pub open spec fn part_counted_from_one(zone_count: int, part: int, part_count: int) -> bool {
    part_count <= 1 || part >= 1 || zone_count == 0
}

/// How a run with several parts shares the zones: the first part gets the
/// smallest share with which all the parts together hold every zone; no
/// part gets more than that, and every part whose full share still lies
/// within the zones gets exactly that.
pub proof fn lemma_parts_get_even_shares(zone_count: int, part: int, part_count: int)
    requires
        zone_count >= 0,
        part_count >= 2,
        1 <= part <= part_count,
    ensures
        part_count * part_size(zone_count, 1, part_count) >= zone_count,
        zone_count > 0 ==> part_count * (part_size(zone_count, 1, part_count) - 1) < zone_count,
        zone_count == 0 ==> part_size(zone_count, 1, part_count) == 0,
        0 <= part_size(zone_count, part, part_count) <= part_size(zone_count, 1, part_count),
        part * part_size(zone_count, 1, part_count) <= zone_count ==> part_size(
            zone_count,
            part,
            part_count,
        ) == part_size(zone_count, 1, part_count),
{
    let n = zone_count;
    let pc = part_count;
    let q = zones_per_part(n, pc);
    lemma_parts_have_room(n, pc);
    vstd::arithmetic::div_mod::lemma_fundamental_div_mod(n + pc - 1, pc);
    vstd::arithmetic::div_mod::lemma_mod_pos_bound(n + pc - 1, pc);
    assert(pc * q <= n + pc - 1);
    if n > 0 {
        assert(q <= n) by (nonlinear_arith)
            requires
                pc * q <= n + pc - 1,
                pc >= 2,
                n >= 1,
                q >= 0,
        ;
    }
    assert(part_start(n, 1, pc) == 0);
    assert(part_size(n, 1, pc) == q);
    assert(pc * (q - 1) == pc * q - pc) by (nonlinear_arith);
    let start = (part - 1) * q;
    assert(start >= 0) by (nonlinear_arith)
        requires
            start == (part - 1) * q,
            part >= 1,
            q >= 0,
    ;
    assert(part * q == start + q) by (nonlinear_arith)
        requires
            start == (part - 1) * q,
    ;
}

/// The row count of a part is the number of zones its iterator yields.
pub proof fn lemma_row_count_is_part_size(zones: Seq<Zone>, part: int, part_count: int)
    requires
        part_counted_from_one(zones.len() as int, part, part_count),
    ensures
        part_size(zones.len() as int, part, part_count) == part_zones(
            zones,
            part,
            part_count,
        ).len(),
{
    let n = zones.len() as int;
    if part_count > 1 {
        lemma_parts_have_room(n, part_count);
        let share = zones_per_part(n, part_count);
        if n == 0 {
            assert(part_start(n, part, part_count) == 0) by (nonlinear_arith)
                requires
                    part_start(n, part, part_count) == (part - 1) * share,
                    share == 0,
            ;
        } else {
            assert(part_start(n, part, part_count) >= 0) by (nonlinear_arith)
                requires
                    part_start(n, part, part_count) == (part - 1) * share,
                    part >= 1,
                    share >= 0,
            ;
        }
    }
}

/// Generator for [`Zone`]s of one part of a partitioned run, over the zones
/// loaded for the whole table.
#[derive(Debug)]
pub struct ZoneGenerator {
    zones: Vec<Zone>,
    part: i32,
    part_count: i32,
}

impl ZoneGenerator {
    /// A generator holds no more than `MAX_ZONE_COUNT` zones, so that its
    /// part bounds are computed without overflow from the zone count.
    #[verifier::type_invariant]
    closed spec fn inv(self) -> bool {
        self.zones@.len() <= MAX_ZONE_COUNT
    }

    /// The loaded zones.
    pub closed spec fn zones(&self) -> Seq<Zone> {
        self.zones@
    }

    /// The part this generator produces, counted from one.
    pub closed spec fn part(&self) -> int {
        self.part as int
    }

    /// The number of parts of the run.
    pub closed spec fn part_count(&self) -> int {
        self.part_count as int
    }

    /// Creates the generator of part `part` of `part_count` over the loaded zones.
    pub fn from_zones(zones: Vec<Zone>, part: i32, part_count: i32) -> (generator: Self)
        requires
            zones@.len() <= MAX_ZONE_COUNT,
        ensures
            generator.zones() == zones@,
            generator.part() == part,
            generator.part_count() == part_count,
    {
        ZoneGenerator { zones, part, part_count }
    }

    /// Return the row count for the given part: the size of its slice of the
    /// zones, or 0 for a part that starts past the last zone.
    pub fn calculate_row_count(&self) -> (count: i64)
        requires
            part_in_range(self.zones().len() as int, self.part(), self.part_count()),
        ensures
            count == part_size(self.zones().len() as int, self.part(), self.part_count()),
            part_counted_from_one(self.zones().len() as int, self.part(), self.part_count())
                ==> count == part_zones(self.zones(), self.part(), self.part_count()).len(),
    {
        proof {
            use_type_invariant(self);
            if part_counted_from_one(self.zones().len() as int, self.part(), self.part_count()) {
                lemma_row_count_is_part_size(self.zones(), self.part(), self.part_count());
            }
        }
        let zone_count = self.zones.len() as i64;

        if self.part_count <= 1 {
            return zone_count;
        }
        // Partition the zones based on part number
        let zones_per_part = (zone_count + self.part_count as i64 - 1) / self.part_count as i64;
        let start = (self.part - 1) as i64 * zones_per_part;
        let end = if start + zones_per_part < zone_count {
            start + zones_per_part
        } else {
            zone_count
        };

        if end > start {
            end - start
        } else {
            0
        }
    }

    /// Returns an iterator over the zone rows of this part.
    pub fn iter(&self) -> (iter: ZoneGeneratorIterator)
        requires
            part_in_range(self.zones().len() as int, self.part(), self.part_count()),
            part_counted_from_one(self.zones().len() as int, self.part(), self.part_count()),
        ensures
            iter.remaining() == part_zones(self.zones(), self.part(), self.part_count()),
    {
        proof {
            use_type_invariant(self);
        }
        let zones = self.zones.clone();
        proof {
            assert forall|i: int| 0 <= i < zones@.len() implies zones@[i] == self.zones@[i] by {
                assert(cloned::<Zone>(self.zones@[i], zones@[i]));
            }
            assert(zones@ =~= self.zones@);
        }
        part_iterator(zones, self.part, self.part_count)
    }

    /// Turns the generator into an iterator over the zone rows of its part.
    pub fn into_iter(self) -> (iter: ZoneGeneratorIterator)
        requires
            part_in_range(self.zones().len() as int, self.part(), self.part_count()),
            part_counted_from_one(self.zones().len() as int, self.part(), self.part_count()),
        ensures
            iter.remaining() == part_zones(self.zones(), self.part(), self.part_count()),
    {
        proof {
            use_type_invariant(&self);
        }
        let ZoneGenerator { zones, part, part_count } = self;
        part_iterator(zones, part, part_count)
    }
}

impl Clone for ZoneGenerator {
    fn clone(&self) -> (generator: Self)
        ensures
            generator.zones() == self.zones(),
            generator.part() == self.part(),
            generator.part_count() == self.part_count(),
    {
        proof {
            use_type_invariant(self);
        }
        let zones = self.zones.clone();
        proof {
            assert forall|i: int| 0 <= i < zones@.len() implies zones@[i] == self.zones@[i] by {
                assert(cloned::<Zone>(self.zones@[i], zones@[i]));
            }
            assert(zones@ =~= self.zones@);
        }
        ZoneGenerator { zones, part: self.part, part_count: self.part_count }
    }
}

/// The iterator over part `part` of `part_count` of `zones`: all of them when
/// there is one part, otherwise the slice from the part's start to its end.
fn part_iterator(zones: Vec<Zone>, part: i32, part_count: i32) -> (iter: ZoneGeneratorIterator)
    requires
        zones@.len() <= MAX_ZONE_COUNT,
        part_in_range(zones@.len() as int, part as int, part_count as int),
        part_counted_from_one(zones@.len() as int, part as int, part_count as int),
    ensures
        iter.remaining() == part_zones(zones@, part as int, part_count as int),
{
    let ghost all = zones@;
    let zone_count = zones.len() as i64;

    // If there's only one part, return all zones
    if part_count <= 1 {
        let iter = ZoneGeneratorIterator { zones, end_index: zone_count, current_index: 0 };
        assert(iter.remaining() =~= part_zones(all, part as int, part_count as int));
        return iter;
    }
    // Otherwise, calculate the correct range for this part
    let zones_per_part = (zone_count + part_count as i64 - 1) / part_count as i64;
    let start = (part - 1) as i64 * zones_per_part;
    let end = if start + zones_per_part < zone_count {
        start + zones_per_part
    } else {
        zone_count
    };
    proof {
        lemma_parts_have_room(zone_count as int, part_count as int);
        assert(start >= 0) by (nonlinear_arith)
            requires
                part >= 1 || zones_per_part == 0,
                zones_per_part >= 0,
                start == (part - 1) * zones_per_part,
        ;
    }
    let iter = ZoneGeneratorIterator { zones, end_index: end, current_index: start };
    assert(iter.remaining() =~= part_zones(all, part as int, part_count as int));
    iter
}

impl ZoneGenerator {
    /// Whether this generator's part can be iterated: its bounds fit in 64
    /// bits and, when the run has several parts and some zones, the part is
    /// counted from one.
    pub open spec fn can_iterate(&self) -> bool {
        &&& part_in_range(self.zones().len() as int, self.part(), self.part_count())
        &&& part_counted_from_one(self.zones().len() as int, self.part(), self.part_count())
    }

    /// Whether the bounds of this generator's part fit in 64 bits.
    fn bounds_in_range(&self) -> (fits: bool)
        ensures
            fits == part_in_range(self.zones().len() as int, self.part(), self.part_count()),
    {
        proof {
            use_type_invariant(self);
        }
        if self.part_count <= 1 {
            return true;
        }
        if self.part == i32::MIN {
            return false;
        }
        let zone_count = self.zones.len() as i64;
        let zones_per_part = (zone_count + self.part_count as i64 - 1) / self.part_count as i64;
        match ((self.part - 1) as i64).checked_mul(zones_per_part) {
            None => false,
            Some(start) => start.checked_add(zones_per_part).is_some(),
        }
    }

    /// The row count of this part, or `None` when its bounds do not fit in 64 bits.
    pub fn checked_row_count(&self) -> (count: Option<i64>)
        ensures
            count is None <==> !part_in_range(
                self.zones().len() as int,
                self.part(),
                self.part_count(),
            ),
            count matches Some(c) ==> c == part_size(
                self.zones().len() as int,
                self.part(),
                self.part_count(),
            ),
    {
        proof {
            use_type_invariant(self);
        }
        if self.bounds_in_range() {
            Some(self.calculate_row_count())
        } else {
            None
        }
    }

    /// An iterator over the zone rows of this part, or `None` when the part
    /// cannot be iterated (see `can_iterate`).
    pub fn checked_iter(&self) -> (iter: Option<ZoneGeneratorIterator>)
        ensures
            iter is None <==> !self.can_iterate(),
            iter matches Some(it) ==> it.remaining() == part_zones(
                self.zones(),
                self.part(),
                self.part_count(),
            ),
    {
        proof {
            use_type_invariant(self);
        }
        if self.bounds_in_range() && (self.part_count <= 1 || self.part >= 1
            || self.zones.len() == 0) {
            Some(self.iter())
        } else {
            None
        }
    }
}

/// Iterator over the zones of one part
#[derive(Debug)]
pub struct ZoneGeneratorIterator {
    zones: Vec<Zone>,
    end_index: i64,
    current_index: i64,
}

impl ZoneGeneratorIterator {
    /// The zones from the current position up to the end of the part cannot
    /// reach outside the loaded zones.
    #[verifier::type_invariant]
    closed spec fn inv(self) -> bool {
        &&& 0 <= self.current_index
        &&& 0 <= self.end_index <= self.zones@.len()
        &&& self.end_index <= usize::MAX
    }

    /// The zones that are still to come, in order.
    pub closed spec fn remaining(&self) -> Seq<Zone> {
        if self.current_index < self.end_index {
            self.zones@.subrange(self.current_index as int, self.end_index as int)
        } else {
            Seq::empty()
        }
    }

    /// Returns the next zone of the part, or `None` when the part is done.
    pub fn next(&mut self) -> (zone: Option<Zone>)
        ensures
            old(self).remaining().len() == 0 ==> zone is None && final(self).remaining() == old(
                self,
            ).remaining(),
            old(self).remaining().len() > 0 ==> zone == Some(old(self).remaining()[0])
                && final(self).remaining() == old(self).remaining().drop_first(),
    {
        proof {
            use_type_invariant(&*self);
        }
        if self.current_index >= self.end_index {
            return None;
        }
        let stored_count = self.zones.len();
        assert(0 <= self.current_index < stored_count);
        let index = self.current_index as usize;
        self.current_index = self.current_index + 1;
        let zone = self.zones[index].clone();
        assert(final(self).remaining() =~= old(self).remaining().drop_first());
        Some(zone)
    }

    /// Bounds on the number of zones left: both are the number of zones
    /// still to come.
    pub fn size_hint(&self) -> (hint: (usize, Option<usize>))
        ensures
            hint.0 == self.remaining().len(),
            hint.1 == Some(self.remaining().len() as usize),
    {
        proof {
            use_type_invariant(self);
        }
        let remaining: usize = if self.current_index < self.end_index {
            (self.end_index - self.current_index) as usize
        } else {
            0
        };
        (remaining, Some(remaining))
    }
}

// ----------------------------------------------------------------------
// Loading one part of the administrative zones
// ----------------------------------------------------------------------
/// Kinds of administrative zones, in the order in which larger runs add them.
#[derive(Debug, Clone, Copy, PartialEq, Eq, Structural)]
pub enum ZoneSubtype {
    Microhood,
    Macrohood,
    Neighborhood,
    County,
    Localadmin,
    Locality,
    Region,
    Dependency,
    Country,
}

impl ZoneSubtype {
    /// The name of the subtype in the zone data.
    pub open spec fn spec_name(self) -> Seq<char> {
        match self {
            ZoneSubtype::Microhood => "microhood"@,
            ZoneSubtype::Macrohood => "macrohood"@,
            ZoneSubtype::Neighborhood => "neighborhood"@,
            ZoneSubtype::County => "county"@,
            ZoneSubtype::Localadmin => "localadmin"@,
            ZoneSubtype::Locality => "locality"@,
            ZoneSubtype::Region => "region"@,
            ZoneSubtype::Dependency => "dependency"@,
            ZoneSubtype::Country => "country"@,
        }
    }

    /// The name of the subtype in the zone data.
    pub fn name(&self) -> (name: &'static str)
        ensures
            name@ == self.spec_name(),
    {
        match self {
            ZoneSubtype::Microhood => "microhood",
            ZoneSubtype::Macrohood => "macrohood",
            ZoneSubtype::Neighborhood => "neighborhood",
            ZoneSubtype::County => "county",
            ZoneSubtype::Localadmin => "localadmin",
            ZoneSubtype::Locality => "locality",
            ZoneSubtype::Region => "region",
            ZoneSubtype::Dependency => "dependency",
            ZoneSubtype::Country => "country",
        }
    }

    /// The number of zones of the subtype in the zone data.
    pub open spec fn spec_zone_count(self) -> int {
        match self {
            ZoneSubtype::Microhood => 74797,
            ZoneSubtype::Macrohood => 42619,
            ZoneSubtype::Neighborhood => 298615,
            ZoneSubtype::County => 39680,
            ZoneSubtype::Localadmin => 19007,
            ZoneSubtype::Locality => 555834,
            ZoneSubtype::Region => 4714,
            ZoneSubtype::Dependency => 105,
            ZoneSubtype::Country => 378,
        }
    }

    /// The number of zones of the subtype in the zone data.
    pub fn zone_count(&self) -> (count: i64)
        ensures
            count == self.spec_zone_count(),
    {
        match self {
            ZoneSubtype::Microhood => 74797,
            ZoneSubtype::Macrohood => 42619,
            ZoneSubtype::Neighborhood => 298615,
            ZoneSubtype::County => 39680,
            ZoneSubtype::Localadmin => 19007,
            ZoneSubtype::Locality => 555834,
            ZoneSubtype::Region => 4714,
            ZoneSubtype::Dependency => 105,
            ZoneSubtype::Country => 378,
        }
    }
}

/// The subtypes loaded at a scale level: the number of the thresholds
/// 10, 100 and 1000 that the scale factor reaches.
pub open spec fn subtypes_for_scale_level(level: int) -> Seq<ZoneSubtype> {
    let hoods = seq![ZoneSubtype::Microhood, ZoneSubtype::Macrohood];
    let counties = if level >= 1 {
        hoods + seq![ZoneSubtype::Neighborhood, ZoneSubtype::County]
    } else {
        hoods
    };
    let localities = if level >= 2 {
        counties + seq![
            ZoneSubtype::Localadmin,
            ZoneSubtype::Locality,
            ZoneSubtype::Region,
            ZoneSubtype::Dependency,
        ]
    } else {
        counties
    };
    if level >= 3 {
        localities.push(ZoneSubtype::Country)
    } else {
        localities
    }
}

/// Get zone subtypes for a scale level: micro- and macrohoods always,
/// neighborhoods and counties from level 1, local admins, localities,
/// regions and dependencies from level 2, countries from level 3.
pub fn zone_subtypes_for_scale_level(level: u8) -> (subtypes: Vec<ZoneSubtype>)
    ensures
        subtypes@ == subtypes_for_scale_level(level as int),
{
    let mut subtypes = vec![ZoneSubtype::Microhood, ZoneSubtype::Macrohood];
    if level >= 1 {
        subtypes.push(ZoneSubtype::Neighborhood);
        subtypes.push(ZoneSubtype::County);
    }
    if level >= 2 {
        subtypes.push(ZoneSubtype::Localadmin);
        subtypes.push(ZoneSubtype::Locality);
        subtypes.push(ZoneSubtype::Region);
        subtypes.push(ZoneSubtype::Dependency);
    }
    if level >= 3 {
        subtypes.push(ZoneSubtype::Country);
    }
    assert(subtypes@ =~= subtypes_for_scale_level(level as int));
    subtypes
}

/// A higher scale level keeps the subtypes of a lower one, in the same
/// order, and only adds to them.
pub proof fn lemma_scale_levels_nest(lower: int, higher: int)
    requires
        lower <= higher,
    ensures
        subtypes_for_scale_level(lower).len() <= subtypes_for_scale_level(higher).len(),
        subtypes_for_scale_level(lower) == subtypes_for_scale_level(higher).subrange(
            0,
            subtypes_for_scale_level(lower).len() as int,
        ),
{
    let a = subtypes_for_scale_level(lower);
    let b = subtypes_for_scale_level(higher);
    assert(a =~= b.subrange(0, a.len() as int));
}

/// The number of zones of a list of subtypes.
pub open spec fn total_zones(subtypes: Seq<ZoneSubtype>) -> int
    decreases subtypes.len(),
{
    if subtypes.len() == 0 {
        0
    } else {
        total_zones(subtypes.drop_last()) + subtypes.last().spec_zone_count()
    }
}

/// The zone total of a list of subtypes adds up the zone counts of its
/// subtypes: a single subtype has its own count, and the total of two lists
/// one after the other is the sum of their totals.
pub proof fn lemma_total_zones_adds_up(first: Seq<ZoneSubtype>, second: Seq<ZoneSubtype>)
    ensures
        total_zones(first + second) == total_zones(first) + total_zones(second),
        second.len() == 1 ==> total_zones(second) == second[0].spec_zone_count(),
    decreases second.len(),
{
    if second.len() == 0 {
        assert(first + second =~= first);
    } else {
        lemma_total_zones_adds_up(first, second.drop_last());
        assert((first + second).drop_last() =~= first + second.drop_last());
        if second.len() == 1 {
            assert(second.drop_last() =~= Seq::<ZoneSubtype>::empty());
        }
    }
}

/// Calculate the total zones of a scale level from the counts of its subtypes
pub fn calculate_total_zones_for_scale_level(level: u8) -> (total: i64)
    ensures
        total == total_zones(subtypes_for_scale_level(level as int)),
{
    let subtypes = zone_subtypes_for_scale_level(level);
    let mut total: i64 = 0;
    let mut i: usize = 0;
    while i < subtypes.len()
        invariant
            i <= subtypes@.len() <= 9,
            subtypes@ == subtypes_for_scale_level(level as int),
            total == total_zones(subtypes@.subrange(0, i as int)),
            0 <= total <= 555834 * i,
        decreases subtypes@.len() - i,
    {
        assert(subtypes@.subrange(0, i + 1).drop_last() =~= subtypes@.subrange(0, i as int));
        total = total + subtypes[i].zone_count();
        i = i + 1;
    }
    assert(subtypes@.subrange(0, i as int) =~= subtypes@);
    total
}

/// The quoted, comma separated names of a list of subtypes.
pub open spec fn quoted_names(subtypes: Seq<ZoneSubtype>) -> Seq<char>
    decreases subtypes.len(),
{
    if subtypes.len() == 0 {
        Seq::empty()
    } else if subtypes.len() == 1 {
        "'"@ + subtypes[0].spec_name() + "'"@
    } else {
        quoted_names(subtypes.drop_last()) + ", "@ + "'"@ + subtypes.last().spec_name() + "'"@
    }
}

/// Adding a subtype to a non-empty list adds its quoted name at the end,
/// after a comma and a space; the names already there stay as they were.
pub proof fn lemma_quoted_names_extend(subtypes: Seq<ZoneSubtype>, extra: ZoneSubtype)
    requires
        subtypes.len() >= 1,
    ensures
        quoted_names(subtypes.push(extra)) == quoted_names(subtypes) + ", '"@
            + extra.spec_name() + "'"@,
{
    assert(subtypes.push(extra).drop_last() =~= subtypes);
    reveal_strlit(", '");
    reveal_strlit(", ");
    reveal_strlit("'");
    assert(quoted_names(subtypes.push(extra)) =~= quoted_names(subtypes) + ", '"@
        + extra.spec_name() + "'"@);
}

/// The quoted names of the first `k` subtypes begin the quoted names of all of them.
proof fn lemma_quoted_names_prefix(subtypes: Seq<ZoneSubtype>, k: int)
    requires
        1 <= k <= subtypes.len(),
    ensures
        quoted_names(subtypes.subrange(0, k)).len() <= quoted_names(subtypes).len(),
        quoted_names(subtypes).subrange(0, quoted_names(subtypes.subrange(0, k)).len() as int)
            == quoted_names(subtypes.subrange(0, k)),
    decreases subtypes.len(),
{
    if k == subtypes.len() {
        assert(subtypes.subrange(0, k) =~= subtypes);
        assert(quoted_names(subtypes).subrange(0, quoted_names(subtypes).len() as int)
            =~= quoted_names(subtypes));
    } else {
        let rest = subtypes.drop_last();
        assert(rest.subrange(0, k) =~= subtypes.subrange(0, k));
        lemma_quoted_names_prefix(rest, k);
        let q = quoted_names(subtypes.subrange(0, k));
        assert(subtypes.len() >= 2);
        let tail = ", "@ + "'"@ + subtypes.last().spec_name() + "'"@;
        assert(quoted_names(subtypes) =~= quoted_names(rest) + tail);
        assert(quoted_names(subtypes).subrange(0, q.len() as int) =~= quoted_names(
            rest,
        ).subrange(0, q.len() as int));
    }
}

/// The quoted names of a non-empty list end with the quoted name of its last subtype.
proof fn lemma_quoted_names_last(subtypes: Seq<ZoneSubtype>)
    requires
        subtypes.len() >= 1,
    ensures
        ({
            let q = quoted_names(subtypes);
            let last = "'"@ + subtypes.last().spec_name() + "'"@;
            &&& last.len() <= q.len()
            &&& q.subrange(q.len() - last.len(), q.len() as int) == last
        }),
{
    let q = quoted_names(subtypes);
    let last = "'"@ + subtypes.last().spec_name() + "'"@;
    if subtypes.len() == 1 {
        assert(q =~= last);
        assert(q.subrange(0, q.len() as int) =~= q);
    } else {
        let head = quoted_names(subtypes.drop_last()) + ", "@;
        assert(q =~= head + last);
        assert(q.subrange(q.len() - last.len(), q.len() as int) =~= last);
    }
}

/// The text of the filter that selects the zones of the given subtypes.
pub open spec fn subtype_filter_text(subtypes: Seq<ZoneSubtype>) -> Seq<char> {
    "subtype IN ("@ + quoted_names(subtypes) + ")"@
}

/// The name of a subtype between single quotes.
pub open spec fn quoted_name(subtype: ZoneSubtype) -> Seq<char> {
    "'"@ + subtype.spec_name() + "'"@
}

/// The filter of a list of subtypes names every subtype of the list, quoted,
/// whatever the list's length: for each subtype there is a place in the
/// filter's text that holds its name between single quotes.
pub proof fn lemma_filter_names_every_subtype(subtypes: Seq<ZoneSubtype>, i: int)
    requires
        0 <= i < subtypes.len(),
    ensures
        exists|p: int|
            0 <= p && p + quoted_name(subtypes[i]).len() <= subtype_filter_text(subtypes).len()
                && #[trigger] subtype_filter_text(subtypes).subrange(
                p,
                p + quoted_name(subtypes[i]).len(),
            ) == quoted_name(subtypes[i]),
{
    let f = subtype_filter_text(subtypes);
    let q = quoted_name(subtypes[i]);
    let prefix = subtypes.subrange(0, i + 1);
    lemma_quoted_names_prefix(subtypes, i + 1);
    lemma_quoted_names_last(prefix);
    assert(prefix.last() == subtypes[i]);
    let qp = quoted_names(prefix);
    let all = quoted_names(subtypes);
    let open = "subtype IN ("@;
    let p = open.len() + qp.len() - q.len();
    assert(all.subrange(0, qp.len() as int) == qp);
    assert(f.subrange(p, p + q.len()) =~= qp.subrange(qp.len() - q.len(), qp.len() as int));
    assert(f.subrange(p, p + q.len()) == q);
}

/// The condition that selects the zones of the given subtypes, or `None`
/// when there is no subtype to select.
pub fn subtype_filter(subtypes: &Vec<ZoneSubtype>) -> (filter: Option<String>)
    ensures
        subtypes@.len() == 0 <==> filter is None,
        filter matches Some(f) ==> f@ == subtype_filter_text(subtypes@),
{
    if subtypes.len() == 0 {
        return None;
    }
    let mut names = String::new();
    let mut i: usize = 0;
    while i < subtypes.len()
        invariant
            i <= subtypes@.len(),
            names@ == quoted_names(subtypes@.subrange(0, i as int)),
        decreases subtypes@.len() - i,
    {
        let ghost before = names@;
        assert(subtypes@.subrange(0, i + 1).drop_last() =~= subtypes@.subrange(0, i as int));
        if i > 0 {
            names.append(", ");
        }
        names.append("'");
        names.append(subtypes[i].name());
        names.append("'");
        i = i + 1;
        proof {
            let prefix = subtypes@.subrange(0, i as int);
            if i == 1 {
                assert(before =~= Seq::<char>::empty());
                assert(names@ =~= quoted_names(prefix));
            } else {
                assert(names@ =~= quoted_names(prefix));
            }
        }
    }
    assert(subtypes@.subrange(0, i as int) =~= subtypes@);
    let mut filter = String::new();
    filter.append("subtype IN (");
    filter.append(names.as_str());
    filter.append(")");
    Some(filter)
}

/// The bucket that holds the zone data.
pub const OVERTURE_S3_BUCKET: &'static str = "overturemaps-us-west-2";

/// The prefix of the releases in the bucket.
pub const OVERTURE_S3_PREFIX: &'static str = "release";

/// The release of the zone data that is read.
pub const OVERTURE_RELEASE_DATE: &'static str = "2025-08-20.1";

/// The location of the zone files of a release.
pub open spec fn zones_parquet_url_text(release_date: Seq<char>) -> Seq<char> {
    "s3://"@ + OVERTURE_S3_BUCKET@ + "/"@ + OVERTURE_S3_PREFIX@ + "/"@ + release_date
        + "/theme=divisions/type=division_area/*"@
}

/// The location of a release's zone files holds the release date verbatim
/// between the bucket's release folder and the path of the division areas.
pub proof fn lemma_zones_url_pieces(release_date: Seq<char>)
    ensures
        ({
            let t = zones_parquet_url_text(release_date);
            let pre = "s3://"@ + OVERTURE_S3_BUCKET@ + "/"@ + OVERTURE_S3_PREFIX@ + "/"@;
            let suf = "/theme=divisions/type=division_area/*"@;
            &&& t.len() == pre.len() + release_date.len() + suf.len()
            &&& t.subrange(0, pre.len() as int) == pre
            &&& t.subrange(pre.len() as int, (pre.len() + release_date.len()) as int) == release_date
            &&& t.subrange((pre.len() + release_date.len()) as int, t.len() as int) == suf
        }),
{
    let t = zones_parquet_url_text(release_date);
    let pre = "s3://"@ + OVERTURE_S3_BUCKET@ + "/"@ + OVERTURE_S3_PREFIX@ + "/"@;
    let suf = "/theme=divisions/type=division_area/*"@;
    assert(t =~= pre + release_date + suf);
    assert(t.subrange(0, pre.len() as int) =~= pre);
    assert(t.subrange(pre.len() as int, (pre.len() + release_date.len()) as int) =~= release_date);
    assert(t.subrange((pre.len() + release_date.len()) as int, t.len() as int) =~= suf);
}

/// Gets the S3 URL for the zones parquet files of a release
pub fn zones_parquet_url(release_date: &str) -> (url: String)
    ensures
        url@ == zones_parquet_url_text(release_date@),
{
    let mut url = String::new();
    url.append("s3://");
    url.append(OVERTURE_S3_BUCKET);
    url.append("/");
    url.append(OVERTURE_S3_PREFIX);
    url.append("/");
    url.append(release_date);
    url.append("/theme=divisions/type=division_area/*");
    assert(url@ =~= zones_parquet_url_text(release_date@));
    url
}

/// The query that loads one part of the zones.
pub open spec fn partition_query_text(
    zones_url: Seq<char>,
    subtype_filter: Seq<char>,
    limit: int,
    offset: int,
) -> Seq<char> {
    "SELECT\n                id as z_gersid,\n                country as z_country,\n                COALESCE(region, '') as z_region,\n                COALESCE(names.primary, '') as z_name,\n                subtype as z_subtype,\n                ST_AsWKB(geometry) as z_boundary\n             FROM read_parquet('"@ + zones_url + "', hive_partitioning=1)\n             WHERE "@ + subtype_filter + "\n             LIMIT "@ + decimal_text(limit)
        + " OFFSET "@ + decimal_text(offset) + ";"@
}

/// The query that loads a part holds the file location and the subtype
/// filter verbatim at their places, and ends with `LIMIT <limit> OFFSET
/// <offset>;`, the two numbers written so that they read back as the
/// limit and the offset.
pub proof fn lemma_partition_query_pieces(
    zones_url: Seq<char>,
    subtype_filter: Seq<char>,
    limit: int,
    offset: int,
)
    ensures
        ({
            let t = partition_query_text(zones_url, subtype_filter, limit, offset);
            let head = "SELECT\n                id as z_gersid,\n                country as z_country,\n                COALESCE(region, '') as z_region,\n                COALESCE(names.primary, '') as z_name,\n                subtype as z_subtype,\n                ST_AsWKB(geometry) as z_boundary\n             FROM read_parquet('"@;
            let mid = "', hive_partitioning=1)\n             WHERE "@;
            let lim = "\n             LIMIT "@;
            let off = " OFFSET "@;
            let k1 = head.len() as int;
            let k2 = k1 + zones_url.len() + mid.len();
            let k3 = k2 + subtype_filter.len() + lim.len();
            let l = decimal_text(limit).len() as int;
            let k4 = k3 + l + off.len();
            &&& t.len() == k4 + decimal_text(offset).len() + 1
            &&& t.subrange(0, k1) == head
            &&& t.subrange(k1, k1 + zones_url.len()) == zones_url
            &&& t.subrange(k1 + zones_url.len(), k2) == mid
            &&& t.subrange(k2, k2 + subtype_filter.len()) == subtype_filter
            &&& t.subrange(k2 + subtype_filter.len(), k3) == lim
            &&& reads_as(t.subrange(k3, k3 + l), limit)
            &&& t.subrange(k3 + l, k4) == off
            &&& reads_as(t.subrange(k4, t.len() - 1), offset)
            &&& t[t.len() - 1] == ';'
        }),
{
    let head = "SELECT\n                id as z_gersid,\n                country as z_country,\n                COALESCE(region, '') as z_region,\n                COALESCE(names.primary, '') as z_name,\n                subtype as z_subtype,\n                ST_AsWKB(geometry) as z_boundary\n             FROM read_parquet('"@;
    let mid = "', hive_partitioning=1)\n             WHERE "@;
    let lim = "\n             LIMIT "@;
    let off = " OFFSET "@;
    let dl = decimal_text(limit);
    let dof = decimal_text(offset);
    let t = partition_query_text(zones_url, subtype_filter, limit, offset);
    lemma_decimal_text_reads_back(limit);
    lemma_decimal_text_reads_back(offset);
    reveal_strlit(";");
    assert(t =~= head + zones_url + mid + subtype_filter + lim + dl + off + dof + ";"@);
    let k1 = head.len() as int;
    let k2 = k1 + zones_url.len() + mid.len();
    let k3 = k2 + subtype_filter.len() + lim.len();
    let l = dl.len() as int;
    let k4 = k3 + l + off.len();
    assert(t.subrange(0, k1) =~= head);
    assert(t.subrange(k1, k1 + zones_url.len()) =~= zones_url);
    assert(t.subrange(k1 + zones_url.len(), k2) =~= mid);
    assert(t.subrange(k2, k2 + subtype_filter.len()) =~= subtype_filter);
    assert(t.subrange(k2 + subtype_filter.len(), k3) =~= lim);
    assert(t.subrange(k3, k3 + l) =~= dl);
    assert(t.subrange(k3 + l, k4) =~= off);
    assert(t.subrange(k4, t.len() - 1) =~= dof);
}

/// The query that reads the zones of the given subtypes from the files at
/// `zones_url`, skipping `offset` zones and keeping at most `limit`.
pub fn partition_query(zones_url: &str, subtype_filter: &str, limit: i64, offset: i64) -> (query: String)
    ensures
        query@ == partition_query_text(zones_url@, subtype_filter@, limit as int, offset as int),
{
    let mut query = String::new();
    query.append("SELECT\n                id as z_gersid,\n                country as z_country,\n                COALESCE(region, '') as z_region,\n                COALESCE(names.primary, '') as z_name,\n                subtype as z_subtype,\n                ST_AsWKB(geometry) as z_boundary\n             FROM read_parquet('");
    query.append(zones_url);
    query.append("', hive_partitioning=1)\n             WHERE ");
    query.append(subtype_filter);
    query.append("\n             LIMIT ");
    append_decimal(&mut query, limit);
    query.append(" OFFSET ");
    append_decimal(&mut query, offset);
    query.append(";");
    assert(query@ =~= partition_query_text(zones_url@, subtype_filter@, limit as int, offset as int));
    query
}

/// The first zone index of part `part` when every part gets `zones_per_part` zones.
pub open spec fn partition_start(part: int, zones_per_part: int) -> int {
    (part - 1) * zones_per_part
}

/// The number of zones of the part that starts at `offset`: a full share,
/// or what is left of the zones, or none.
pub open spec fn partition_size(total_zones: int, zones_per_part: int, offset: int) -> int {
    let left = total_zones - offset;
    let size = if zones_per_part < left {
        zones_per_part
    } else {
        left
    };
    if size > 0 {
        size
    } else {
        0
    }
}

/// A part of a partitioned load holds no zones, or as many as the share of
/// a part, or fewer when the zones left after its offset are fewer: what
/// is left, never below none.
pub proof fn lemma_partition_size_bounds(total_zones: int, zones_per_part: int, offset: int)
    requires
        zones_per_part >= 0,
    ensures
        0 <= partition_size(total_zones, zones_per_part, offset) <= zones_per_part,
        partition_size(total_zones, zones_per_part, offset) <= if total_zones - offset > 0 {
            total_zones - offset
        } else {
            0
        },
        total_zones - offset >= zones_per_part ==> partition_size(
            total_zones,
            zones_per_part,
            offset,
        ) == zones_per_part,
        0 <= total_zones - offset <= zones_per_part ==> partition_size(
            total_zones,
            zones_per_part,
            offset,
        ) == total_zones - offset,
{
}

/// Calculate the offset of a part
pub fn partition_offset(part: i32, zones_per_part: i64) -> (offset: i64)
    requires
        part > i32::MIN,
        i64::MIN <= partition_start(part as int, zones_per_part as int) <= i64::MAX,
    ensures
        offset == partition_start(part as int, zones_per_part as int),
{
    (part - 1) as i64 * zones_per_part
}

/// The number of zones of the part that starts at `offset`; never negative.
pub fn partition_row_count(total_zones: i64, zones_per_part: i64, offset: i64) -> (count: i64)
    requires
        i64::MIN <= total_zones - offset <= i64::MAX,
    ensures
        count == partition_size(total_zones as int, zones_per_part as int, offset as int),
{
    let left = total_zones - offset;
    let size = if zones_per_part < left {
        zones_per_part
    } else {
        left
    };
    if size > 0 {
        size
    } else {
        0
    }
}

/// The key of a loaded zone: rows are numbered from `offset + 1` on, in the
/// order in which they were loaded, so the row loaded after `loaded` others
/// gets `offset + 1 + loaded`. `None` when that key does not fit in 64 bits.
pub fn zone_key(offset: i64, loaded: usize) -> (key: Option<i64>)
    ensures
        key is Some <==> offset + 1 + loaded <= i64::MAX,
        key matches Some(k) ==> k == offset + 1 + loaded,
{
    let k: i128 = offset as i128 + 1 + loaded as i128;
    if k <= i64::MAX as i128 {
        Some(k as i64)
    } else {
        None
    }
}

/// The zones of parts `1..=parts` together.
pub open spec fn first_partitions_size(total_zones: int, zones_per_part: int, parts: int) -> int
    decreases parts,
{
    if parts <= 0 {
        0
    } else {
        first_partitions_size(total_zones, zones_per_part, parts - 1) + partition_size(
            total_zones,
            zones_per_part,
            partition_start(parts, zones_per_part),
        )
    }
}

/// The first parts hold the zones up to their combined share.
proof fn lemma_first_partitions_size(total_zones: int, zones_per_part: int, parts: int)
    requires
        total_zones >= 0,
        zones_per_part >= 0,
        parts >= 0,
    ensures
        first_partitions_size(total_zones, zones_per_part, parts) == if parts * zones_per_part
            < total_zones {
            parts * zones_per_part
        } else {
            total_zones
        },
    decreases parts,
{
    if parts == 0 {
        assert(parts * zones_per_part == 0) by (nonlinear_arith)
            requires
                parts == 0,
        ;
    } else {
        lemma_first_partitions_size(total_zones, zones_per_part, parts - 1);
        assert(parts * zones_per_part == (parts - 1) * zones_per_part + zones_per_part)
            by (nonlinear_arith);
        assert((parts - 1) * zones_per_part >= 0) by (nonlinear_arith)
            requires
                parts >= 1,
                zones_per_part >= 0,
        ;
    }
}

/// When the shares of all parts together reach the number of zones, the
/// parts of a run together load every zone once: their sizes add up to
/// the number of zones.
pub proof fn lemma_partitions_load_all_zones(total_zones: int, zones_per_part: int, part_count: int)
    requires
        total_zones >= 0,
        zones_per_part >= 0,
        part_count >= 1,
        part_count * zones_per_part >= total_zones,
    ensures
        first_partitions_size(total_zones, zones_per_part, part_count) == total_zones,
{
    lemma_first_partitions_size(total_zones, zones_per_part, part_count);
}

/// A share of the zone count divided by the part count, rounded up, lets
/// the parts reach every zone.
pub proof fn lemma_rounded_up_share_reaches_all(total_zones: int, part_count: int)
    requires
        total_zones >= 0,
        part_count >= 1,
    ensures
        part_count * zones_per_part(total_zones, part_count) >= total_zones,
        first_partitions_size(total_zones, zones_per_part(total_zones, part_count), part_count)
            == total_zones,
{
    lemma_parts_have_room(total_zones, part_count);
    lemma_partitions_load_all_zones(total_zones, zones_per_part(total_zones, part_count), part_count);
}

} // verus!
