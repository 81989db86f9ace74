use spatialbench::generators::{
    apply_customer_mortality, calculate_vehicle_price, dropoff_time, select_driver_for_count,
};

#[test]
fn vehicle_prices() {
    assert_eq!(calculate_vehicle_price(1), 90100);
    assert_eq!(calculate_vehicle_price(10), 91001);
    assert_eq!(calculate_vehicle_price(999), 189999);
    assert_eq!(calculate_vehicle_price(123456), 147945);
    assert_eq!(calculate_vehicle_price(-7), 89300);
}

#[test]
fn driver_selection() {
    // one driver: every vehicle goes to driver 1
    assert_eq!(select_driver_for_count(1, 0, 1), 1);
    assert_eq!(select_driver_for_count(5, 3, 1), 1);
    // 500 drivers, first trip of vehicle 1
    assert_eq!(select_driver_for_count(1, 0, 500), 2);
    // (7 + 2 * (125 + 0)) % 500 + 1
    assert_eq!(select_driver_for_count(7, 2, 500), 258);
    // (600 + 1 * (125 + 1)) % 500 + 1
    assert_eq!(select_driver_for_count(600, 1, 500), 227);
}

#[test]
fn customer_mortality_skips_multiples_of_three() {
    assert_eq!(apply_customer_mortality(1, 300), 1);
    assert_eq!(apply_customer_mortality(2, 300), 2);
    assert_eq!(apply_customer_mortality(3, 300), 4);
    assert_eq!(apply_customer_mortality(299, 300), 299);
    // the largest key is a multiple of three: step down
    assert_eq!(apply_customer_mortality(300, 300), 299);
    for key in 1..=300 {
        let kept = apply_customer_mortality(key, 300);
        assert!(kept % 3 != 0);
        assert!((1..=300).contains(&kept));
    }
}

#[test]
fn dropoff_on_the_same_day() {
    // 08:47:14 plus 2503 seconds is 09:28:57
    let d = dropoff_time(1000, 8, 47, 14, 2503, 3556);
    assert_eq!((d.day, d.hour, d.minute, d.second), (1000, 9, 28, 57));
}

#[test]
fn dropoff_after_midnight() {
    let d = dropoff_time(1000, 23, 30, 0, 3600, 3556);
    assert_eq!((d.day, d.hour, d.minute, d.second), (1001, 0, 30, 0));
    let d = dropoff_time(1000, 0, 0, 0, 2 * 86400 + 61, 3556);
    assert_eq!((d.day, d.hour, d.minute, d.second), (1002, 0, 1, 1));
}

#[test]
fn dropoff_day_is_capped() {
    let d = dropoff_time(3556, 23, 0, 0, 7200, 3556);
    assert_eq!((d.day, d.hour, d.minute, d.second), (3556, 1, 0, 0));
}

#[test]
fn zero_duration_drops_off_at_pickup() {
    let d = dropoff_time(95000, 13, 27, 7, 0, 95000);
    assert_eq!((d.day, d.hour, d.minute, d.second), (95000, 13, 27, 7));
}

#[test]
fn selected_drivers_exist() {
    for driver_count in [1i64, 2, 4, 5, 500, 1000] {
        for vehicle_key in 1..=200 {
            for driver_number in 0..4 {
                let d = select_driver_for_count(vehicle_key, driver_number, driver_count);
                assert!(1 <= d && d <= driver_count);
            }
        }
    }
}

#[test]
fn dropoff_never_before_pickup() {
    for (h, m, s) in [(0u8, 0u8, 0u8), (8, 47, 14), (23, 59, 59), (12, 0, 30)] {
        for duration in [0i32, 1, 59, 60, 3599, 3600, 86399, 86400, 200000] {
            let d = dropoff_time(1000, h, m, s, duration, 5000);
            assert!((1000, h, m, s) <= (d.day, d.hour, d.minute, d.second));
        }
    }
}

#[test]
fn vehicle_prices_stay_in_range() {
    for key in (0..5_000_000i64).step_by(7919) {
        let price = calculate_vehicle_price(key);
        assert!((90000..=209900).contains(&price));
    }
}

#[test]
fn trip_lasts_its_duration() {
    for (h, m, s) in [(0u8, 0u8, 0u8), (8, 47, 14), (23, 59, 59)] {
        for duration in [0i32, 1, 61, 3601, 86400, 90061, 1_000_000] {
            let d = dropoff_time(1000, h, m, s, duration, 5000);
            let start = 1000i64 * 86400 + h as i64 * 3600 + m as i64 * 60 + s as i64;
            let end = d.day as i64 * 86400
                + d.hour as i64 * 3600
                + d.minute as i64 * 60
                + d.second as i64;
            assert_eq!(end - start, duration as i64);
        }
    }
}
