use spatialbench::generators::{CustomerName, DriverName, VehicleBrandName, VehicleManufacturerName};

#[test]
fn manufacturer_name_text() {
    assert_eq!(VehicleManufacturerName::new(1).to_string(), "Manufacturer#1");
}

#[test]
fn brand_name_text() {
    assert_eq!(VehicleBrandName::new(13).to_string(), "Brand#13");
}

#[test]
fn driver_name_is_zero_padded() {
    assert_eq!(DriverName::new(1).to_string(), "Driver#000000001");
}

#[test]
fn customer_name_is_zero_padded() {
    assert_eq!(CustomerName::new(1).to_string(), "Customer#000000001");
}

#[test]
fn negative_numbers_keep_their_sign() {
    assert_eq!(VehicleManufacturerName::new(-12).to_string(), "Manufacturer#-12");
    assert_eq!(DriverName::new(-5).to_string(), "Driver#-00000005");
}

#[test]
fn long_numbers_are_not_cut() {
    assert_eq!(CustomerName::new(12345678901).to_string(), "Customer#12345678901");
    assert_eq!(DriverName::new(i64::MAX).to_string(), "Driver#9223372036854775807");
    assert_eq!(DriverName::new(i64::MIN).to_string(), "Driver#-9223372036854775808");
}

#[test]
fn names_hold_their_number() {
    assert_eq!(VehicleBrandName::new(0).to_string(), "Brand#0");
    assert_eq!(CustomerName::new(0).to_string(), "Customer#000000000");
    assert_eq!(CustomerName::new(123456789).to_string(), "Customer#123456789");
}

#[test]
fn names_are_fixed_by_their_number() {
    assert_eq!(VehicleManufacturerName::new(4), VehicleManufacturerName::new(4));
    assert_ne!(VehicleManufacturerName::new(4), VehicleManufacturerName::new(5));
    assert_eq!(VehicleBrandName::new(13), VehicleBrandName::new(13));
    assert_ne!(VehicleBrandName::new(13), VehicleBrandName::new(31));
    assert_eq!(DriverName::new(1), DriverName::new(1));
    assert_ne!(DriverName::new(1), DriverName::new(10));
    assert_eq!(CustomerName::new(7), CustomerName::new(7));
    assert_ne!(CustomerName::new(7), CustomerName::new(70));
}
