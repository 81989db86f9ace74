use rand::rngs::StdRng;
use rand::{Rng, SeedableRng};
use spatialbench::spider::{
    distribution_type_from_lowercase, geom_type_from_lowercase, parse_distribution_type,
    parse_geom_type, polygon_segment_count, spider_rng_for_index, spider_seed_for_index,
    DistributionType, GeomType,
};

#[test]
fn seeds_follow_splitmix64() {
    assert_eq!(spider_seed_for_index(0, 0), 16294208416658607535);
    assert_eq!(spider_seed_for_index(1, 42), 13432527470776545160);
    assert_eq!(spider_seed_for_index(2, 42), 18105923034897077331);
    assert_eq!(spider_seed_for_index(1, 1234), 17974907880866844802);
    assert_eq!(spider_seed_for_index(2, 12345), 5886303152054975053);
}

#[test]
fn distinct_records_get_distinct_seeds() {
    let seeds: std::collections::HashSet<u64> =
        (0..10_000u64).map(|i| spider_seed_for_index(i, 42)).collect();
    assert_eq!(seeds.len(), 10_000);
}

#[test]
fn record_rng_is_seeded_from_record_seed() {
    let mut a = spider_rng_for_index(5, 42);
    let mut b = StdRng::seed_from_u64(spider_seed_for_index(5, 42));
    let x: u64 = a.gen();
    let y: u64 = b.gen();
    assert_eq!(x, y);
}

#[test]
fn distribution_names_in_any_case() {
    assert_eq!(parse_distribution_type("uniform"), Ok(DistributionType::Uniform));
    assert_eq!(parse_distribution_type("NORMAL"), Ok(DistributionType::Normal));
    assert_eq!(parse_distribution_type("Diagonal"), Ok(DistributionType::Diagonal));
    assert_eq!(parse_distribution_type("bIt"), Ok(DistributionType::Bit));
    assert_eq!(parse_distribution_type("SIERPINSKI"), Ok(DistributionType::Sierpinski));
    assert_eq!(
        parse_distribution_type("parcel"),
        Err("unknown distribution type: parcel".to_string())
    );
    assert_eq!(
        parse_distribution_type("Gauss"),
        Err("unknown distribution type: Gauss".to_string())
    );
}

#[test]
fn geometry_names_in_any_case() {
    assert_eq!(parse_geom_type("point"), Ok(GeomType::Point));
    assert_eq!(parse_geom_type("BOX"), Ok(GeomType::Box));
    assert_eq!(parse_geom_type("Polygon"), Ok(GeomType::Polygon));
    assert_eq!(parse_geom_type("line"), Err("unknown geometry type: line".to_string()));
}

#[test]
fn lowercase_names() {
    assert_eq!(distribution_type_from_lowercase("bit"), Some(DistributionType::Bit));
    assert_eq!(distribution_type_from_lowercase("Bit"), None);
    assert_eq!(distribution_type_from_lowercase(""), None);
    assert_eq!(geom_type_from_lowercase("box"), Some(GeomType::Box));
    assert_eq!(geom_type_from_lowercase("boxes"), None);
}

#[test]
fn polygon_sides() {
    let mut rng = StdRng::seed_from_u64(7);
    let before: u64 = StdRng::seed_from_u64(7).gen();
    assert_eq!(polygon_segment_count(0, &mut rng), 3);
    assert_eq!(polygon_segment_count(3, &mut rng), 3);
    // nothing was drawn for small maxseg
    let after: u64 = rng.gen();
    assert_eq!(before, after);
    let mut seen = std::collections::HashSet::new();
    for _ in 0..1000 {
        let n = polygon_segment_count(8, &mut rng);
        assert!((3..=8).contains(&n));
        seen.insert(n);
    }
    // every side count of the range comes out
    assert_eq!(seen.len(), 6);
}

#[test]
fn one_record_draws_the_same_sides() {
    for index in [0u64, 1, 17, 1000] {
        let mut a = spider_rng_for_index(index, 42);
        let mut b = spider_rng_for_index(index, 42);
        for _ in 0..20 {
            assert_eq!(polygon_segment_count(10, &mut a), polygon_segment_count(10, &mut b));
        }
    }
}

#[test]
fn sides_are_three_plus_a_draw() {
    let mut a = StdRng::seed_from_u64(99);
    let mut b = StdRng::seed_from_u64(99);
    for _ in 0..50 {
        let expected = 3 + b.gen_range(0..=9);
        assert_eq!(polygon_segment_count(12, &mut a), expected);
    }
}

#[test]
fn side_count_moves_the_generator_by_one_draw() {
    let mut a = StdRng::seed_from_u64(2024);
    let mut b = StdRng::seed_from_u64(2024);
    polygon_segment_count(7, &mut a);
    let _: i32 = b.gen_range(0..=4);
    let x: u64 = a.gen();
    let y: u64 = b.gen();
    assert_eq!(x, y);
}
