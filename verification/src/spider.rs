//! The integer side of the Spider spatial generator: its distribution and
//! geometry types and how their names are read, the per-record seeds, and
//! the number of sides of a generated polygon.
use rand::rngs::StdRng;
use rand::{Rng, SeedableRng};
use vstd::prelude::*;

verus! {

/// Spatial distribution of the generated points
#[derive(Debug, Clone, Copy, PartialEq, Eq, Structural)]
pub enum DistributionType {
    Uniform,
    Normal,
    Diagonal,
    Sierpinski,
    Bit,
}

/// Kind of geometry generated around each point
#[derive(Debug, Clone, Copy, PartialEq, Eq, Structural)]
pub enum GeomType {
    Polygon,
    Box,
    Point,
}

// ----------------------------------------------------------------------
// Reading the names of the types
// ----------------------------------------------------------------------
/// What `str::to_lowercase` returns for a string.
pub uninterp spec fn lowercase(s: Seq<char>) -> Seq<char>;

/// Calls `str::to_lowercase`. The result is taken to be a function of the
/// characters of `s` alone, named `lowercase`; what that function is (the
/// Unicode lowercase mapping) is left unsaid.
#[verifier::external_body]
fn to_lowercase(s: &str) -> (lower: String)
    ensures
        lower@ == lowercase(s@),
{
    s.to_lowercase()
}

/// Whether two strings hold the same characters.
fn same_text(a: &str, b: &str) -> (same: bool)
    ensures
        same == (a@ == b@),
{
    let n = a.unicode_len();
    if n != b.unicode_len() {
        return false;
    }
    let mut i: usize = 0;
    while i < n
        invariant
            n == a@.len(),
            n == b@.len(),
            i <= n,
            forall|j: int| 0 <= j < i ==> a@[j] == b@[j],
        decreases n - i,
    {
        if a.get_char(i) != b.get_char(i) {
            return false;
        }
        i = i + 1;
    }
    assert(a@ =~= b@);
    true
}

/// The distribution type that a lowercase name stands for.
pub open spec fn spec_distribution_type_named(lower: Seq<char>) -> Option<DistributionType> {
    if lower == "uniform"@ {
        Some(DistributionType::Uniform)
    } else if lower == "normal"@ {
        Some(DistributionType::Normal)
    } else if lower == "diagonal"@ {
        Some(DistributionType::Diagonal)
    } else if lower == "bit"@ {
        Some(DistributionType::Bit)
    } else if lower == "sierpinski"@ {
        Some(DistributionType::Sierpinski)
    } else {
        None
    }
}

/// The geometry type that a lowercase name stands for.
pub open spec fn spec_geom_type_named(lower: Seq<char>) -> Option<GeomType> {
    if lower == "point"@ {
        Some(GeomType::Point)
    } else if lower == "box"@ {
        Some(GeomType::Box)
    } else if lower == "polygon"@ {
        Some(GeomType::Polygon)
    } else {
        None
    }
}

/// Every distribution type has a lowercase name that stands for it.
pub proof fn lemma_every_distribution_type_is_named(dist: DistributionType)
    ensures
        exists|name: Seq<char>| #[trigger] spec_distribution_type_named(name) == Some(dist),
{
    match dist {
        DistributionType::Uniform => {
            assert(spec_distribution_type_named("uniform"@) == Some(dist));
        },
        DistributionType::Normal => {
            reveal_strlit("uniform");
            reveal_strlit("normal");
            assert("normal"@.len() != "uniform"@.len());
            assert(spec_distribution_type_named("normal"@) == Some(dist));
        },
        DistributionType::Diagonal => {
            reveal_strlit("uniform");
            reveal_strlit("normal");
            reveal_strlit("diagonal");
            assert("diagonal"@.len() != "uniform"@.len());
            assert("diagonal"@.len() != "normal"@.len());
            assert(spec_distribution_type_named("diagonal"@) == Some(dist));
        },
        DistributionType::Bit => {
            reveal_strlit("uniform");
            reveal_strlit("normal");
            reveal_strlit("diagonal");
            reveal_strlit("bit");
            assert("bit"@.len() != "uniform"@.len());
            assert("bit"@.len() != "normal"@.len());
            assert("bit"@.len() != "diagonal"@.len());
            assert(spec_distribution_type_named("bit"@) == Some(dist));
        },
        DistributionType::Sierpinski => {
            reveal_strlit("uniform");
            reveal_strlit("normal");
            reveal_strlit("diagonal");
            reveal_strlit("bit");
            reveal_strlit("sierpinski");
            assert("sierpinski"@.len() != "uniform"@.len());
            assert("sierpinski"@.len() != "normal"@.len());
            assert("sierpinski"@.len() != "diagonal"@.len());
            assert("sierpinski"@.len() != "bit"@.len());
            assert(spec_distribution_type_named("sierpinski"@) == Some(dist));
        },
    }
}

/// Every geometry type has a lowercase name that stands for it.
pub proof fn lemma_every_geom_type_is_named(geom: GeomType)
    ensures
        exists|name: Seq<char>| #[trigger] spec_geom_type_named(name) == Some(geom),
{
    reveal_strlit("point");
    reveal_strlit("box");
    reveal_strlit("polygon");
    match geom {
        GeomType::Point => {
            assert(spec_geom_type_named("point"@) == Some(geom));
        },
        GeomType::Box => {
            assert("box"@.len() != "point"@.len());
            assert(spec_geom_type_named("box"@) == Some(geom));
        },
        GeomType::Polygon => {
            assert("polygon"@.len() != "point"@.len());
            assert("polygon"@.len() != "box"@.len());
            assert(spec_geom_type_named("polygon"@) == Some(geom));
        },
    }
}

/// The distribution type named by an already lowercased name:
/// `uniform`, `normal`, `diagonal`, `bit` or `sierpinski`.
pub fn distribution_type_from_lowercase(lower: &str) -> (dist: Option<DistributionType>)
    ensures
        dist == spec_distribution_type_named(lower@),
{
    if same_text(lower, "uniform") {
        Some(DistributionType::Uniform)
    } else if same_text(lower, "normal") {
        Some(DistributionType::Normal)
    } else if same_text(lower, "diagonal") {
        Some(DistributionType::Diagonal)
    } else if same_text(lower, "bit") {
        Some(DistributionType::Bit)
    } else if same_text(lower, "sierpinski") {
        Some(DistributionType::Sierpinski)
    } else {
        None
    }
}

/// The geometry type named by an already lowercased name:
/// `point`, `box` or `polygon`.
pub fn geom_type_from_lowercase(lower: &str) -> (geom: Option<GeomType>)
    ensures
        geom == spec_geom_type_named(lower@),
{
    if same_text(lower, "point") {
        Some(GeomType::Point)
    } else if same_text(lower, "box") {
        Some(GeomType::Box)
    } else if same_text(lower, "polygon") {
        Some(GeomType::Polygon)
    } else {
        None
    }
}

/// Reads a distribution type from its name, in any letter case. An unknown
/// name is refused with the message `unknown distribution type: <name>`.
pub fn parse_distribution_type(value: &str) -> (dist: Result<DistributionType, String>)
    ensures
        match spec_distribution_type_named(lowercase(value@)) {
            Some(d) => dist == Ok::<DistributionType, String>(d),
            None => dist is Err && dist->Err_0@ == "unknown distribution type: "@ + value@,
        },
{
    let lower = to_lowercase(value);
    match distribution_type_from_lowercase(lower.as_str()) {
        Some(d) => Ok(d),
        None => {
            let mut message = String::new();
            message.append("unknown distribution type: ");
            message.append(value);
            Err(message)
        },
    }
}

/// Reads a geometry type from its name, in any letter case. An unknown
/// name is refused with the message `unknown geometry type: <name>`.
pub fn parse_geom_type(value: &str) -> (geom: Result<GeomType, String>)
    ensures
        match spec_geom_type_named(lowercase(value@)) {
            Some(g) => geom == Ok::<GeomType, String>(g),
            None => geom is Err && geom->Err_0@ == "unknown geometry type: "@ + value@,
        },
{
    let lower = to_lowercase(value);
    match geom_type_from_lowercase(lower.as_str()) {
        Some(g) => Ok(g),
        None => {
            let mut message = String::new();
            message.append("unknown geometry type: ");
            message.append(value);
            Err(message)
        },
    }
}

// ----------------------------------------------------------------------
// Per-record seeds
// ----------------------------------------------------------------------
/// 64-bit wrapping addition.
pub open spec fn add64(a: u64, b: u64) -> u64 {
    vstd::wrapping::u64_specs::wrapping_add(a, b)
}

/// 64-bit wrapping multiplication.
pub open spec fn mul64(a: u64, b: u64) -> u64 {
    vstd::wrapping::u64_specs::wrapping_mul(a, b)
}

/// The SplitMix64 finalizer.
pub open spec fn splitmix_finish(z0: u64) -> u64 {
    let z1 = mul64(z0 ^ (z0 >> 30u64), 0xBF58476D1CE4E5B9u64);
    let z2 = mul64(z1 ^ (z1 >> 27u64), 0x94D049BB133111EBu64);
    z2 ^ (z2 >> 31u64)
}

/// The seed of the random generator of record `index` under `global_seed`.
pub open spec fn spider_seed(index: u64, global_seed: u64) -> u64 {
    splitmix_finish(add64(add64(index, global_seed), 0x9E3779B97F4A7C15u64))
}

/// Deterministic hash (SplitMix64-like)
pub fn spider_seed_for_index(index: u64, global_seed: u64) -> (seed: u64)
    ensures
        seed == spider_seed(index, global_seed),
{
    let mut z = index.wrapping_add(global_seed).wrapping_add(0x9E3779B97F4A7C15);
    z = (z ^ (z >> 30)).wrapping_mul(0xBF58476D1CE4E5B9);
    z = (z ^ (z >> 27)).wrapping_mul(0x94D049BB133111EB);
    z ^ (z >> 31)
}

/// `x ^ (x >> s)` can be undone for the shifts the finalizer uses.
proof fn lemma_xorshift_injective(x: u64, y: u64)
    ensures
        x ^ (x >> 30u64) == y ^ (y >> 30u64) ==> x == y,
        x ^ (x >> 27u64) == y ^ (y >> 27u64) ==> x == y,
        x ^ (x >> 31u64) == y ^ (y >> 31u64) ==> x == y,
{
    assert(x == (x ^ (x >> 30u64)) ^ ((x ^ (x >> 30u64)) >> 30u64) ^ ((x ^ (x >> 30u64))
        >> 60u64)) by (bit_vector);
    assert(y == (y ^ (y >> 30u64)) ^ ((y ^ (y >> 30u64)) >> 30u64) ^ ((y ^ (y >> 30u64))
        >> 60u64)) by (bit_vector);
    assert(x == (x ^ (x >> 27u64)) ^ ((x ^ (x >> 27u64)) >> 27u64) ^ ((x ^ (x >> 27u64))
        >> 54u64)) by (bit_vector);
    assert(y == (y ^ (y >> 27u64)) ^ ((y ^ (y >> 27u64)) >> 27u64) ^ ((y ^ (y >> 27u64))
        >> 54u64)) by (bit_vector);
    assert(x == (x ^ (x >> 31u64)) ^ ((x ^ (x >> 31u64)) >> 31u64) ^ ((x ^ (x >> 31u64))
        >> 62u64)) by (bit_vector);
    assert(y == (y ^ (y >> 31u64)) ^ ((y ^ (y >> 31u64)) >> 31u64) ^ ((y ^ (y >> 31u64))
        >> 62u64)) by (bit_vector);
}

/// Multiplying by an odd constant modulo 2^64 can be undone by multiplying
/// by its inverse.
proof fn lemma_mul_inverse(x: u64, c: u64, c_inv: u64)
    requires
        (c as int * c_inv as int) % 0x1_0000_0000_0000_0000int == 1,
    ensures
        mul64(mul64(x, c), c_inv) == x,
{
    let m: int = 0x1_0000_0000_0000_0000int;
    let p = (x as int * c as int) % m;
    assert(mul64(x, c) as int == p);
    assert(mul64(mul64(x, c), c_inv) as int == (p * c_inv) % m);
    vstd::arithmetic::div_mod::lemma_mul_mod_noop_left(x as int * c as int, c_inv as int, m);
    assert((p * c_inv) % m == (x as int * c as int * c_inv as int) % m);
    vstd::arithmetic::mul::lemma_mul_is_associative(x as int, c as int, c_inv as int);
    vstd::arithmetic::div_mod::lemma_mul_mod_noop_right(x as int, c as int * c_inv as int, m);
    assert((x as int * ((c as int * c_inv as int) % m)) % m == (x as int * 1) % m);
    vstd::arithmetic::div_mod::lemma_small_mod(x as nat, m as nat);
}

/// Wrapping addition of a fixed amount loses nothing.
proof fn lemma_add64_injective(a: u64, b: u64, k: u64)
    ensures
        add64(a, k) == add64(b, k) ==> a == b,
{
}

/// Distinct records of one spatial generator get distinct seeds: for a
/// fixed global seed, the seed of a record determines its index.
pub proof fn lemma_spider_seed_injective(index1: u64, index2: u64, global_seed: u64)
    requires
        spider_seed(index1, global_seed) == spider_seed(index2, global_seed),
    ensures
        index1 == index2,
{
    let z1 = add64(add64(index1, global_seed), 0x9E3779B97F4A7C15u64);
    let z2 = add64(add64(index2, global_seed), 0x9E3779B97F4A7C15u64);
    let a1 = z1 ^ (z1 >> 30u64);
    let a2 = z2 ^ (z2 >> 30u64);
    let b1 = mul64(a1, 0xBF58476D1CE4E5B9u64);
    let b2 = mul64(a2, 0xBF58476D1CE4E5B9u64);
    let c1 = b1 ^ (b1 >> 27u64);
    let c2 = b2 ^ (b2 >> 27u64);
    let d1 = mul64(c1, 0x94D049BB133111EBu64);
    let d2 = mul64(c2, 0x94D049BB133111EBu64);
    lemma_xorshift_injective(d1, d2);
    assert(d1 == d2);
    lemma_mul_inverse(c1, 0x94D049BB133111EBu64, 0x319642b2d24d8ec3u64);
    lemma_mul_inverse(c2, 0x94D049BB133111EBu64, 0x319642b2d24d8ec3u64);
    assert(c1 == c2);
    lemma_xorshift_injective(b1, b2);
    lemma_mul_inverse(a1, 0xBF58476D1CE4E5B9u64, 0x96de1b173f119089u64);
    lemma_mul_inverse(a2, 0xBF58476D1CE4E5B9u64, 0x96de1b173f119089u64);
    assert(a1 == a2);
    lemma_xorshift_injective(z1, z2);
    lemma_add64_injective(add64(index1, global_seed), add64(index2, global_seed), 0x9E3779B97F4A7C15u64);
    lemma_add64_injective(index1, index2, global_seed);
}

// ----------------------------------------------------------------------
// Random draws
// ----------------------------------------------------------------------
#[verifier::external_type_specification]
#[verifier::external_body]
pub struct ExStdRng(StdRng);

/// What `StdRng::seed_from_u64` returns for a seed. Seeding is
/// deterministic: one seed always gives a generator in one state.
pub uninterp spec fn seeded_std_rng(seed: u64) -> StdRng;

/// What `Rng::gen_range(0..=high)` does to a generator in a given state:
/// the value drawn, and the state the generator is left in. Both depend on
/// that state and on `high` alone.
pub uninterp spec fn std_rng_draw(rng: StdRng, high: i32) -> (i32, StdRng);

/// Calls `SeedableRng::seed_from_u64` for `StdRng`, whose result is named
/// `seeded_std_rng`; what state that is (the seed is expanded by a PCG32
/// stream into a ChaCha12 key) is left unsaid.
#[verifier::external_body]
fn seeded_rng(seed: u64) -> (rng: StdRng)
    ensures
        rng == seeded_std_rng(seed),
{
    StdRng::seed_from_u64(seed)
}

/// Calls `Rng::gen_range` on `0..=high`, which the rand documentation says
/// returns a value of the range (and panics only on an empty range). The
/// value and the generator's state after the call are named `std_rng_draw`
/// of the state before the call and of `high`; which value and which state
/// those are is left unsaid.
#[verifier::external_body]
fn gen_range_up_to(rng: &mut StdRng, high: i32) -> (value: i32)
    requires
        high >= 0,
    ensures
        value == std_rng_draw(*old(rng), high).0,
        *final(rng) == std_rng_draw(*old(rng), high).1,
        0 <= value <= high,
{
    rng.gen_range(0..=high)
}

/// The random generator of record `index` of a spatial generator seeded
/// with `global_seed`: a `StdRng` seeded with `spider_seed_for_index`, so
/// that one record of one run always draws the same values.
pub fn spider_rng_for_index(index: u64, global_seed: u64) -> (rng: StdRng)
    ensures
        rng == seeded_std_rng(spider_seed(index, global_seed)),
{
    seeded_rng(spider_seed_for_index(index, global_seed))
}

/// The number of sides of a generated polygon: 3 when `maxseg` is at most 3
/// (and nothing is drawn), otherwise 3 plus one draw from `0..=maxseg - 3`,
/// which moves the generator on by exactly that draw.
pub fn polygon_segment_count(maxseg: i32, rng: &mut StdRng) -> (segments: i32)
    ensures
        maxseg <= 3 ==> segments == 3 && *final(rng) == *old(rng),
        maxseg > 3 ==> segments == 3 + std_rng_draw(*old(rng), (maxseg - 3) as i32).0,
        maxseg > 3 ==> *final(rng) == std_rng_draw(*old(rng), (maxseg - 3) as i32).1,
        maxseg > 3 ==> 3 <= segments <= maxseg,
{
    let min_segs: i32 = 3;
    if maxseg <= 3 {
        3
    } else {
        gen_range_up_to(rng, maxseg - min_segs) + min_segs
    }
}

} // verus!
