use spatialbench::generators::{make_customer, make_driver, make_vehicle, Vehicle};
use spatialbench::numfmt::decimal_string;
use spatialbench::zones::Zone;

#[test]
fn vehicle_row_in_tbl_format() {
    let vehicle = make_vehicle(1, 1, 3, "PROMO BURNISHED COPPER", "ly. slyly ironi");
    assert_eq!(vehicle.v_vehiclekey, 1);
    assert_eq!(
        vehicle.to_string(),
        "1|Manufacturer#1|Brand#13|PROMO BURNISHED COPPER|ly. slyly ironi|"
    );
}

#[test]
fn vehicle_brand_is_manufacturer_times_ten_plus_brand() {
    let vehicle: Vehicle = make_vehicle(7, 4, 2, "SMALL PLATED BRASS", "p furiously r");
    assert_eq!(vehicle.v_mfgr.to_string(), "Manufacturer#4");
    assert_eq!(vehicle.v_brand.to_string(), "Brand#42");
}

#[test]
fn driver_row_in_tbl_format() {
    let driver = make_driver(
        1,
        " N kD4on9OM Ipw3,gf0JBoQDd7tgrzrddZ".to_string(),
        "AMERICA",
        "PERU",
        "27-918-335-1736".to_string(),
    );
    assert_eq!(driver.d_driverkey, 1);
    assert_eq!(
        driver.to_string(),
        "1|Driver#000000001| N kD4on9OM Ipw3,gf0JBoQDd7tgrzrddZ|AMERICA|PERU|27-918-335-1736|"
    );
}

#[test]
fn customer_row_follows_the_pattern() {
    let first = make_customer(
        1,
        "IVhzIApeRb ot,c,E".to_string(),
        "AMERICA",
        "CANADA",
        "25-989-741-2988".to_string(),
    );
    assert_eq!(first.c_custkey, 1);
    assert_eq!(first.c_name.to_string(), "Customer#000000001");
    let expected_pattern = format!(
        "{}|{}|{}|{}|{}|{}|",
        first.c_custkey,
        first.c_name.to_string(),
        first.c_address,
        first.c_region,
        first.c_nation,
        first.c_phone
    );
    assert_eq!(first.to_string(), expected_pattern);
}

#[test]
fn zone_row_in_tbl_format() {
    let zone = Zone {
        z_zonekey: 1,
        z_gersid: "635d3a50".to_string(),
        z_name: "Place Sagato-Soane".to_string(),
        z_subtype: "microhood".to_string(),
        z_boundary: "POLYGON((0 0,1 0,1 1,0 0))".to_string(),
    };
    assert_eq!(
        zone.to_string(),
        "1|635d3a50|Place Sagato-Soane|microhood|POLYGON((0 0,1 0,1 1,0 0))|"
    );
}

#[test]
fn decimal_text_matches_display() {
    for n in [0i64, 7, -7, 10, 99, 100, -100, 1234567890, i64::MAX, i64::MIN] {
        assert_eq!(decimal_string(n), n.to_string());
    }
}

#[test]
fn building_row_in_tbl_format() {
    let building = spatialbench::generators::Building {
        b_buildingkey: 2,
        b_name: "blush".to_string(),
        b_boundary: "POLYGON ((0.1 0.2, 0.3 0.2, 0.3 0.4, 0.1 0.4, 0.1 0.2))".to_string(),
    };
    assert_eq!(
        building.to_string(),
        "2|blush|POLYGON ((0.1 0.2, 0.3 0.2, 0.3 0.4, 0.1 0.4, 0.1 0.2))|"
    );
}
