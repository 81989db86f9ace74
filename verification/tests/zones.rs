use spatialbench::zones::{
    calculate_total_zones_for_scale_level, partition_offset, partition_query, partition_row_count,
    subtype_filter, zone_key, zone_subtypes_for_scale_level, zones_parquet_url, Zone, ZoneGenerator,
    ZoneSubtype, OVERTURE_RELEASE_DATE,
};

fn zone(key: i64) -> Zone {
    Zone {
        z_zonekey: key,
        z_gersid: format!("id{}", key),
        z_name: format!("zone {}", key),
        z_subtype: "county".to_string(),
        z_boundary: "POINT (0 0)".to_string(),
    }
}

fn zones(n: i64) -> Vec<Zone> {
    (1..=n).map(zone).collect()
}

fn keys_of(generator: &ZoneGenerator) -> Vec<i64> {
    let mut iter = generator.iter();
    let mut keys = Vec::new();
    while let Some(z) = iter.next() {
        keys.push(z.z_zonekey);
    }
    keys
}

#[test]
fn single_part_yields_every_zone() {
    let generator = ZoneGenerator::from_zones(zones(5), 1, 1);
    assert_eq!(generator.calculate_row_count(), 5);
    assert_eq!(keys_of(&generator), vec![1, 2, 3, 4, 5]);
}

#[test]
fn parts_split_zones_in_order() {
    // 10 zones in 3 parts: 4, 4, 2
    let mut all = Vec::new();
    for (part, expected) in [(1, 4), (2, 4), (3, 2)] {
        let generator = ZoneGenerator::from_zones(zones(10), part, 3);
        assert_eq!(generator.calculate_row_count(), expected);
        all.extend(keys_of(&generator));
    }
    assert_eq!(all, (1..=10).collect::<Vec<_>>());
}

#[test]
fn part_past_the_last_zone() {
    // 5 zones in 10 parts: each part gets one zone, parts 6.. get none
    let generator = ZoneGenerator::from_zones(zones(5), 6, 10);
    assert_eq!(generator.calculate_row_count(), 0);
    assert_eq!(keys_of(&generator), Vec::<i64>::new());
    let generator = ZoneGenerator::from_zones(zones(5), 10, 10);
    assert_eq!(generator.calculate_row_count(), 0);
    assert_eq!(keys_of(&generator), Vec::<i64>::new());
    assert_eq!(generator.iter().size_hint(), (0, Some(0)));
    // 10 zones in 7 parts of 2: part 6 gets none and part 7 starts past the end
    let generator = ZoneGenerator::from_zones(zones(10), 7, 7);
    assert_eq!(generator.calculate_row_count(), 0);
    assert_eq!(generator.iter().size_hint(), (0, Some(0)));
    assert_eq!(keys_of(&generator), Vec::<i64>::new());
}

#[test]
fn no_zones_in_any_part() {
    for part in [0, 1, 2] {
        let generator = ZoneGenerator::from_zones(Vec::new(), part, 2);
        assert_eq!(generator.calculate_row_count(), 0);
        assert_eq!(keys_of(&generator), Vec::<i64>::new());
        assert!(generator.checked_iter().is_some());
    }
}

#[test]
fn into_iter_yields_the_part() {
    let generator = ZoneGenerator::from_zones(zones(10), 2, 3);
    let mut iter = generator.into_iter();
    let mut keys = Vec::new();
    while let Some(z) = iter.next() {
        keys.push(z.z_zonekey);
    }
    assert_eq!(keys, vec![5, 6, 7, 8]);
}

#[test]
fn cloned_generator_yields_the_same_rows() {
    let generator = ZoneGenerator::from_zones(zones(10), 3, 3);
    let copy = generator.clone();
    assert_eq!(copy.calculate_row_count(), 2);
    assert_eq!(keys_of(&copy), keys_of(&generator));
    assert_eq!(keys_of(&copy), vec![9, 10]);
}

#[test]
fn size_hint_counts_the_rest() {
    let generator = ZoneGenerator::from_zones(zones(10), 2, 3);
    let mut iter = generator.iter();
    assert_eq!(iter.size_hint(), (4, Some(4)));
    iter.next();
    assert_eq!(iter.size_hint(), (3, Some(3)));
    for _ in 0..5 {
        iter.next();
    }
    assert_eq!(iter.size_hint(), (0, Some(0)));
}

#[test]
fn subtypes_by_scale_level() {
    let names = |level: u8| -> Vec<&'static str> {
        zone_subtypes_for_scale_level(level).iter().map(|s| s.name()).collect()
    };
    assert_eq!(names(0), vec!["microhood", "macrohood"]);
    assert_eq!(names(1), vec!["microhood", "macrohood", "neighborhood", "county"]);
    assert_eq!(
        names(2),
        vec![
            "microhood",
            "macrohood",
            "neighborhood",
            "county",
            "localadmin",
            "locality",
            "region",
            "dependency"
        ]
    );
    assert_eq!(
        names(3),
        vec![
            "microhood",
            "macrohood",
            "neighborhood",
            "county",
            "localadmin",
            "locality",
            "region",
            "dependency",
            "country"
        ]
    );
}

#[test]
fn total_zones_by_scale_level() {
    assert_eq!(calculate_total_zones_for_scale_level(0), 117416);
    assert_eq!(calculate_total_zones_for_scale_level(1), 455711);
    assert_eq!(calculate_total_zones_for_scale_level(2), 1035371);
    assert_eq!(calculate_total_zones_for_scale_level(3), 1035749);
}

#[test]
fn filter_text() {
    assert_eq!(subtype_filter(&vec![]), None);
    assert_eq!(
        subtype_filter(&vec![ZoneSubtype::Microhood]),
        Some("subtype IN ('microhood')".to_string())
    );
    assert_eq!(
        subtype_filter(&zone_subtypes_for_scale_level(0)),
        Some("subtype IN ('microhood', 'macrohood')".to_string())
    );
}

#[test]
fn parquet_url() {
    assert_eq!(
        zones_parquet_url(OVERTURE_RELEASE_DATE),
        "s3://overturemaps-us-west-2/release/2025-08-20.1/theme=divisions/type=division_area/*"
    );
}

#[test]
fn query_text() {
    let q = partition_query("s3://b/*", "subtype IN ('county')", 118, 236);
    let expected = format!(
        "SELECT
                id as z_gersid,
                country as z_country,
                COALESCE(region, '') as z_region,
                COALESCE(names.primary, '') as z_name,
                subtype as z_subtype,
                ST_AsWKB(geometry) as z_boundary
             FROM read_parquet('{}', hive_partitioning=1)
             WHERE {}
             LIMIT {} OFFSET {};",
        "s3://b/*", "subtype IN ('county')", 118, 236
    );
    assert_eq!(q, expected);
}

#[test]
fn partitions_of_a_run() {
    // 118 zones in 4 parts of 30
    let mut sum = 0;
    for part in 1..=4 {
        let offset = partition_offset(part, 30);
        assert_eq!(offset, (part as i64 - 1) * 30);
        sum += partition_row_count(118, 30, offset);
    }
    assert_eq!(sum, 118);
    assert_eq!(partition_row_count(118, 30, 90), 28);
    assert_eq!(partition_row_count(118, 30, 150), 0);
}

#[test]
fn higher_levels_extend_lower_ones() {
    for lower in 0..=3u8 {
        for higher in lower..=4u8 {
            let a = zone_subtypes_for_scale_level(lower);
            let b = zone_subtypes_for_scale_level(higher);
            assert!(a.len() <= b.len());
            assert_eq!(&b[..a.len()], &a[..]);
        }
    }
}

#[test]
fn checked_access_to_parts() {
    let generator = ZoneGenerator::from_zones(zones(10), 0, 3);
    assert!(generator.checked_iter().is_none());
    assert_eq!(generator.checked_row_count(), Some(4));
    let generator = ZoneGenerator::from_zones(zones(10), 3, 3);
    assert_eq!(generator.checked_row_count(), Some(2));
    let mut iter = generator.checked_iter().unwrap();
    assert_eq!(iter.next().map(|z| z.z_zonekey), Some(9));
    let generator = ZoneGenerator::from_zones(zones(10), i32::MIN, 3);
    assert_eq!(generator.checked_row_count(), None);
}

#[test]
fn zone_rows_are_copied_whole() {
    let generator = ZoneGenerator::from_zones(zones(3), 1, 1);
    let mut iter = generator.iter();
    let first = iter.next().unwrap();
    assert_eq!(first, zone(1));
    assert_eq!(first.to_string(), "1|id1|zone 1|county|POINT (0 0)|");
}

#[test]
fn zone_keys_count_from_the_offset() {
    assert_eq!(zone_key(0, 0), Some(1));
    assert_eq!(zone_key(0, 4), Some(5));
    assert_eq!(zone_key(236, 0), Some(237));
    assert_eq!(zone_key(236, 117), Some(354));
    assert_eq!(zone_key(i64::MAX - 1, 0), Some(i64::MAX));
    assert_eq!(zone_key(i64::MAX - 1, 1), None);
    assert_eq!(zone_key(i64::MAX, 0), None);
}
