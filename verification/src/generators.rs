//! Rows of the vehicle, driver, customer and building tables, their names, and the
//! integer rules that the table generators apply to keys, prices and times.
use crate::numfmt::{
    append_decimal, append_zero_padded, decimal_text, lemma_decimal_text_reads_back,
    lemma_zero_padded_reads_back, reads_as, zero_padded_text,
};
use crate::tbl::{holds_fields, lemma_add_field, lemma_no_fields};
use vstd::prelude::*;

verus! {

/// Rust's `/` on integers: the quotient rounded toward zero.
pub open spec fn trunc_div(a: int, b: int) -> int
    recommends
        b > 0,
{
    if a >= 0 {
        a / b
    } else {
        -((-a) / b)
    }
}

/// Rust's `%` on integers: the remainder that takes the sign of `a`.
pub open spec fn trunc_rem(a: int, b: int) -> int
    recommends
        b > 0,
{
    if a >= 0 {
        a % b
    } else {
        -((-a) % b)
    }
}

/// Rust's `%` agrees with the Euclidean remainder on non-negative numbers.
proof fn lemma_trunc_nonneg(a: int, b: int)
    requires
        a >= 0,
        b > 0,
    ensures
        trunc_div(a, b) == a / b,
        trunc_rem(a, b) == a % b,
        0 <= trunc_rem(a, b) < b,
{
    vstd::arithmetic::div_mod::lemma_fundamental_div_mod(a, b);
}

// ----------------------------------------------------------------------
// Names
// ----------------------------------------------------------------------
/// A Vehicle Manufacturer, formatted as `"Manufacturer#<n>"`
#[derive(Debug, Clone, Copy, PartialEq, Eq, Structural)]
pub struct VehicleManufacturerName(i32);

impl View for VehicleManufacturerName {
    type V = int;

    closed spec fn view(&self) -> int {
        self.0 as int
    }
}

impl VehicleManufacturerName {
    /// The name of manufacturer number `value`.
    pub fn new(value: i32) -> (name: Self)
        ensures
            name@ == value,
            forall|other: Self| other@ == value ==> other == name,
    {
        VehicleManufacturerName(value)
    }

    /// The text of the name.
    pub open spec fn text(&self) -> Seq<char> {
        "Manufacturer#"@ + decimal_text(self@)
    }

    /// The name as text: `Manufacturer#` followed by the number.
    pub fn to_string(&self) -> (s: String)
        ensures
            s@ == self.text(),
    {
        let mut s = String::new();
        s.append("Manufacturer#");
        append_decimal(&mut s, self.0 as i64);
        s
    }
}

/// A Vehicle brand name, formatted as `"Brand#<n>"`
#[derive(Debug, Clone, Copy, PartialEq, Eq, Structural)]
pub struct VehicleBrandName(i32);

impl View for VehicleBrandName {
    type V = int;

    closed spec fn view(&self) -> int {
        self.0 as int
    }
}

impl VehicleBrandName {
    /// The name of brand number `value`.
    pub fn new(value: i32) -> (name: Self)
        ensures
            name@ == value,
            forall|other: Self| other@ == value ==> other == name,
    {
        VehicleBrandName(value)
    }

    /// The text of the name.
    pub open spec fn text(&self) -> Seq<char> {
        "Brand#"@ + decimal_text(self@)
    }

    /// The name as text: `Brand#` followed by the number.
    pub fn to_string(&self) -> (s: String)
        ensures
            s@ == self.text(),
    {
        let mut s = String::new();
        s.append("Brand#");
        append_decimal(&mut s, self.0 as i64);
        s
    }
}

/// A Driver name, formatted as `"Driver#<n>"` with the number padded to nine digits
#[derive(Debug, Clone, Copy, PartialEq, Eq, Structural)]
pub struct DriverName(i64);

impl View for DriverName {
    type V = int;

    closed spec fn view(&self) -> int {
        self.0 as int
    }
}

impl DriverName {
    /// Creates a new DriverName with the given value
    pub fn new(value: i64) -> (name: Self)
        ensures
            name@ == value,
            forall|other: Self| other@ == value ==> other == name,
    {
        DriverName(value)
    }

    /// The text of the name.
    pub open spec fn text(&self) -> Seq<char> {
        "Driver#"@ + zero_padded_text(self@, 9)
    }

    /// The name as text: `Driver#` followed by the number, zero padded to nine places.
    pub fn to_string(&self) -> (s: String)
        ensures
            s@ == self.text(),
    {
        let mut s = String::new();
        s.append("Driver#");
        append_zero_padded(&mut s, self.0, 9);
        s
    }
}

/// A Customer Name, formatted as `"Customer#<n>"` with the number padded to nine digits
#[derive(Debug, Clone, Copy, PartialEq, Eq, Structural)]
pub struct CustomerName(i64);

impl View for CustomerName {
    type V = int;

    closed spec fn view(&self) -> int {
        self.0 as int
    }
}

impl CustomerName {
    /// Creates a new CustomerName with the given value
    pub fn new(value: i64) -> (name: Self)
        ensures
            name@ == value,
            forall|other: Self| other@ == value ==> other == name,
    {
        CustomerName(value)
    }

    /// The text of the name.
    pub open spec fn text(&self) -> Seq<char> {
        "Customer#"@ + zero_padded_text(self@, 9)
    }

    /// The name as text: `Customer#` followed by the number, zero padded to nine places.
    pub fn to_string(&self) -> (s: String)
        ensures
            s@ == self.text(),
    {
        let mut s = String::new();
        s.append("Customer#");
        append_zero_padded(&mut s, self.0, 9);
        s
    }
}

// What the names read as.

/// A manufacturer's name is `Manufacturer#` followed by a text that reads
/// back as the manufacturer's number.
pub proof fn lemma_manufacturer_name_reads_back(name: VehicleManufacturerName)
    ensures
        ({
            let t = name.text();
            let p = "Manufacturer#"@;
            &&& p.len() <= t.len()
            &&& t.subrange(0, p.len() as int) == p
            &&& reads_as(t.subrange(p.len() as int, t.len() as int), name@)
        }),
{
    let t = name.text();
    let p = "Manufacturer#"@;
    lemma_decimal_text_reads_back(name@);
    assert(t.subrange(0, p.len() as int) =~= p);
    assert(t.subrange(p.len() as int, t.len() as int) =~= decimal_text(name@));
}

/// A brand's name is `Brand#` followed by a text that reads back as the
/// brand's number.
pub proof fn lemma_brand_name_reads_back(name: VehicleBrandName)
    ensures
        ({
            let t = name.text();
            let p = "Brand#"@;
            &&& p.len() <= t.len()
            &&& t.subrange(0, p.len() as int) == p
            &&& reads_as(t.subrange(p.len() as int, t.len() as int), name@)
        }),
{
    let t = name.text();
    let p = "Brand#"@;
    lemma_decimal_text_reads_back(name@);
    assert(t.subrange(0, p.len() as int) =~= p);
    assert(t.subrange(p.len() as int, t.len() as int) =~= decimal_text(name@));
}

/// A driver's name is `Driver#` followed by at least nine characters that
/// read back as the driver's number.
pub proof fn lemma_driver_name_reads_back(name: DriverName)
    ensures
        ({
            let t = name.text();
            let p = "Driver#"@;
            &&& p.len() <= t.len()
            &&& t.subrange(0, p.len() as int) == p
            &&& reads_as(t.subrange(p.len() as int, t.len() as int), name@)
            &&& t.len() >= p.len() + 9
        }),
{
    let t = name.text();
    let p = "Driver#"@;
    lemma_zero_padded_reads_back(name@, 9);
    assert(t.subrange(0, p.len() as int) =~= p);
    assert(t.subrange(p.len() as int, t.len() as int) =~= zero_padded_text(name@, 9));
}

/// A customer's name is `Customer#` followed by at least nine characters that
/// read back as the customer's number.
pub proof fn lemma_customer_name_reads_back(name: CustomerName)
    ensures
        ({
            let t = name.text();
            let p = "Customer#"@;
            &&& p.len() <= t.len()
            &&& t.subrange(0, p.len() as int) == p
            &&& reads_as(t.subrange(p.len() as int, t.len() as int), name@)
            &&& t.len() >= p.len() + 9
        }),
{
    let t = name.text();
    let p = "Customer#"@;
    lemma_zero_padded_reads_back(name@, 9);
    assert(t.subrange(0, p.len() as int) =~= p);
    assert(t.subrange(p.len() as int, t.len() as int) =~= zero_padded_text(name@, 9));
}

// ----------------------------------------------------------------------
// Rows
// ----------------------------------------------------------------------
/// The VEHICLE table
///
/// `to_string` formats the row in the 'tbl' format: every field followed by `|`.
///
/// ```text
/// 1|Manufacturer#1|Brand#13|PROMO BURNISHED COPPER|ly. slyly ironi|
/// ```
#[derive(Debug, Clone, PartialEq)]
pub struct Vehicle<'a> {
    /// Primary key
    pub v_vehiclekey: i64,
    /// Vehicle manufacturer.
    pub v_mfgr: VehicleManufacturerName,
    /// Vehicle brand.
    pub v_brand: VehicleBrandName,
    /// Vehicle type
    pub v_type: &'a str,
    /// Variable length comment
    pub v_license: &'a str,
}

impl<'a> Vehicle<'a> {
    /// The row in 'tbl' format.
    pub open spec fn row_text(&self) -> Seq<char> {
        decimal_text(self.v_vehiclekey as int) + "|"@ + self.v_mfgr.text() + "|"@
            + self.v_brand.text() + "|"@ + self.v_type@ + "|"@ + self.v_license@ + "|"@
    }

    /// The row in 'tbl' format.
    pub fn to_string(&self) -> (s: String)
        ensures
            s@ == self.row_text(),
    {
        let mut s = String::new();
        append_decimal(&mut s, self.v_vehiclekey);
        s.append("|");
        s.append(self.v_mfgr.to_string().as_str());
        s.append("|");
        s.append(self.v_brand.to_string().as_str());
        s.append("|");
        s.append(self.v_type);
        s.append("|");
        s.append(self.v_license);
        s.append("|");
        assert(s@ =~= self.row_text());
        s
    }
}

/// Records for the Driver table.
///
/// The address and phone hold the text of the generated values.
/// `to_string` formats the row in the 'tbl' format.
///
/// ```text
/// 1|Driver#000000001| N kD4on9OM Ipw3,gf0JBoQDd7tgrzrddZ|AMERICA|PERU|27-918-335-1736|
/// ```
#[derive(Debug, Clone, PartialEq)]
pub struct Driver {
    /// Primary key
    pub d_driverkey: i64,
    /// Driver name.
    pub d_name: DriverName,
    /// Driver address
    pub d_address: String,
    /// Region name
    pub d_region: String,
    /// Nation name
    pub d_nation: String,
    /// Driver phone number
    pub d_phone: String,
}

impl Driver {
    /// The row in 'tbl' format.
    pub open spec fn row_text(&self) -> Seq<char> {
        decimal_text(self.d_driverkey as int) + "|"@ + self.d_name.text() + "|"@
            + self.d_address@ + "|"@ + self.d_region@ + "|"@ + self.d_nation@ + "|"@
            + self.d_phone@ + "|"@
    }

    /// The row in 'tbl' format.
    pub fn to_string(&self) -> (s: String)
        ensures
            s@ == self.row_text(),
    {
        let mut s = String::new();
        append_decimal(&mut s, self.d_driverkey);
        s.append("|");
        s.append(self.d_name.to_string().as_str());
        s.append("|");
        s.append(self.d_address.as_str());
        s.append("|");
        s.append(self.d_region.as_str());
        s.append("|");
        s.append(self.d_nation.as_str());
        s.append("|");
        s.append(self.d_phone.as_str());
        s.append("|");
        assert(s@ =~= self.row_text());
        s
    }
}

/// The CUSTOMER table
///
/// The address and phone hold the text of the generated values.
/// `to_string` formats the row in the 'tbl' format.
#[derive(Debug, Clone, PartialEq)]
pub struct Customer<'a> {
    /// Primary key
    pub c_custkey: i64,
    /// Customer name
    pub c_name: CustomerName,
    /// Customer address
    pub c_address: String,
    /// Region name
    pub c_region: &'a str,
    /// Nation name
    pub c_nation: &'a str,
    /// Customer phone number
    pub c_phone: String,
}

impl<'a> Customer<'a> {
    /// The row in 'tbl' format.
    pub open spec fn row_text(&self) -> Seq<char> {
        decimal_text(self.c_custkey as int) + "|"@ + self.c_name.text() + "|"@
            + self.c_address@ + "|"@ + self.c_region@ + "|"@ + self.c_nation@ + "|"@
            + self.c_phone@ + "|"@
    }

    /// The row in 'tbl' format.
    pub fn to_string(&self) -> (s: String)
        ensures
            s@ == self.row_text(),
    {
        let mut s = String::new();
        append_decimal(&mut s, self.c_custkey);
        s.append("|");
        s.append(self.c_name.to_string().as_str());
        s.append("|");
        s.append(self.c_address.as_str());
        s.append("|");
        s.append(self.c_region);
        s.append("|");
        s.append(self.c_nation);
        s.append("|");
        s.append(self.c_phone.as_str());
        s.append("|");
        assert(s@ =~= self.row_text());
        s
    }
}

/// Represents a building in the dataset
///
/// The name holds the text of the generated name and the boundary the WKT
/// text of its polygon. `to_string` formats the row in the 'tbl' format.
#[derive(Debug, Clone, PartialEq)]
pub struct Building {
    /// Unique identifier for the building
    pub b_buildingkey: i64,
    /// Name of the building
    pub b_name: String,
    /// WKT representation of the building's polygon
    pub b_boundary: String,
}

impl Building {
    /// The row in 'tbl' format.
    pub open spec fn row_text(&self) -> Seq<char> {
        decimal_text(self.b_buildingkey as int) + "|"@ + self.b_name@ + "|"@ + self.b_boundary@
            + "|"@
    }

    /// The row in 'tbl' format.
    pub fn to_string(&self) -> (s: String)
        ensures
            s@ == self.row_text(),
    {
        let mut s = String::new();
        append_decimal(&mut s, self.b_buildingkey);
        s.append("|");
        s.append(self.b_name.as_str());
        s.append("|");
        s.append(self.b_boundary.as_str());
        s.append("|");
        assert(s@ =~= self.row_text());
        s
    }
}

/// Creates a vehicle with the given key from the values drawn for its row:
/// the manufacturer number, the brand number within that manufacturer, the
/// type and the license text. The brand is `manufacturer * 10 + brand`.
pub fn make_vehicle<'a>(
    vehicle_key: i64,
    manufacturer: i32,
    brand: i32,
    v_type: &'a str,
    v_license: &'a str,
) -> (vehicle: Vehicle<'a>)
    requires
        i32::MIN <= manufacturer * 10 <= i32::MAX,
        i32::MIN <= manufacturer * 10 + brand <= i32::MAX,
    ensures
        vehicle.v_vehiclekey == vehicle_key,
        vehicle.v_mfgr@ == manufacturer,
        vehicle.v_brand@ == manufacturer * 10 + brand,
        vehicle.v_type == v_type,
        vehicle.v_license == v_license,
{
    Vehicle {
        v_vehiclekey: vehicle_key,
        v_mfgr: VehicleManufacturerName::new(manufacturer),
        v_brand: VehicleBrandName::new(manufacturer * 10 + brand),
        v_type,
        v_license,
    }
}

/// Creates a driver with the given key from the values drawn for its row.
pub fn make_driver(
    driver_key: i64,
    address: String,
    region: &str,
    nation: &str,
    phone: String,
) -> (driver: Driver)
    ensures
        driver.d_driverkey == driver_key,
        driver.d_name@ == driver_key,
        driver.d_address == address,
        driver.d_region@ == region@,
        driver.d_nation@ == nation@,
        driver.d_phone == phone,
{
    Driver {
        d_driverkey: driver_key,
        d_name: DriverName::new(driver_key),
        d_address: address,
        d_region: region.to_owned(),
        d_nation: nation.to_owned(),
        d_phone: phone,
    }
}

/// Creates a customer with the given key from the values drawn for its row.
pub fn make_customer<'a>(
    customer_key: i64,
    address: String,
    region: &'a str,
    nation: &'a str,
    phone: String,
) -> (customer: Customer<'a>)
    ensures
        customer.c_custkey == customer_key,
        customer.c_name@ == customer_key,
        customer.c_address == address,
        customer.c_region == region,
        customer.c_nation == nation,
        customer.c_phone == phone,
{
    Customer {
        c_custkey: customer_key,
        c_name: CustomerName::new(customer_key),
        c_address: address,
        c_region: region,
        c_nation: nation,
        c_phone: phone,
    }
}

// The rows of the tables, read as 'tbl' fields.

/// A vehicle's row holds its fields verbatim, in order, each followed by a bar:
/// the key, the manufacturer's and brand's names, the type and the license.
pub proof fn lemma_vehicle_row_fields(row: Vehicle)
    ensures
        holds_fields(
            row.row_text(),
            seq![decimal_text(row.v_vehiclekey as int), row.v_mfgr.text(), row.v_brand.text(), row.v_type@, row.v_license@],
        ),
{
    lemma_no_fields();
    lemma_add_field(Seq::<char>::empty(), Seq::<Seq<char>>::empty(), decimal_text(row.v_vehiclekey as int));
    let r0 = Seq::<char>::empty() + decimal_text(row.v_vehiclekey as int) + "|"@;
    let f0 = Seq::<Seq<char>>::empty().push(decimal_text(row.v_vehiclekey as int));
    lemma_add_field(r0, f0, row.v_mfgr.text());
    let r1 = r0 + row.v_mfgr.text() + "|"@;
    let f1 = f0.push(row.v_mfgr.text());
    lemma_add_field(r1, f1, row.v_brand.text());
    let r2 = r1 + row.v_brand.text() + "|"@;
    let f2 = f1.push(row.v_brand.text());
    lemma_add_field(r2, f2, row.v_type@);
    let r3 = r2 + row.v_type@ + "|"@;
    let f3 = f2.push(row.v_type@);
    lemma_add_field(r3, f3, row.v_license@);
    let r4 = r3 + row.v_license@ + "|"@;
    let f4 = f3.push(row.v_license@);
    assert(r4 =~= row.row_text());
    assert(f4 =~= seq![decimal_text(row.v_vehiclekey as int), row.v_mfgr.text(), row.v_brand.text(), row.v_type@, row.v_license@]);
}

/// A driver's row holds its fields verbatim, in order, each followed by a bar:
/// the key, the name, and the address, region, nation and phone as given.
pub proof fn lemma_driver_row_fields(row: Driver)
    ensures
        holds_fields(
            row.row_text(),
            seq![decimal_text(row.d_driverkey as int), row.d_name.text(), row.d_address@, row.d_region@, row.d_nation@, row.d_phone@],
        ),
{
    lemma_no_fields();
    lemma_add_field(Seq::<char>::empty(), Seq::<Seq<char>>::empty(), decimal_text(row.d_driverkey as int));
    let r0 = Seq::<char>::empty() + decimal_text(row.d_driverkey as int) + "|"@;
    let f0 = Seq::<Seq<char>>::empty().push(decimal_text(row.d_driverkey as int));
    lemma_add_field(r0, f0, row.d_name.text());
    let r1 = r0 + row.d_name.text() + "|"@;
    let f1 = f0.push(row.d_name.text());
    lemma_add_field(r1, f1, row.d_address@);
    let r2 = r1 + row.d_address@ + "|"@;
    let f2 = f1.push(row.d_address@);
    lemma_add_field(r2, f2, row.d_region@);
    let r3 = r2 + row.d_region@ + "|"@;
    let f3 = f2.push(row.d_region@);
    lemma_add_field(r3, f3, row.d_nation@);
    let r4 = r3 + row.d_nation@ + "|"@;
    let f4 = f3.push(row.d_nation@);
    lemma_add_field(r4, f4, row.d_phone@);
    let r5 = r4 + row.d_phone@ + "|"@;
    let f5 = f4.push(row.d_phone@);
    assert(r5 =~= row.row_text());
    assert(f5 =~= seq![decimal_text(row.d_driverkey as int), row.d_name.text(), row.d_address@, row.d_region@, row.d_nation@, row.d_phone@]);
}

/// A customer's row holds its fields verbatim, in order, each followed by a bar:
/// the key, the name, and the address, region, nation and phone as given.
pub proof fn lemma_customer_row_fields(row: Customer)
    ensures
        holds_fields(
            row.row_text(),
            seq![decimal_text(row.c_custkey as int), row.c_name.text(), row.c_address@, row.c_region@, row.c_nation@, row.c_phone@],
        ),
{
    lemma_no_fields();
    lemma_add_field(Seq::<char>::empty(), Seq::<Seq<char>>::empty(), decimal_text(row.c_custkey as int));
    let r0 = Seq::<char>::empty() + decimal_text(row.c_custkey as int) + "|"@;
    let f0 = Seq::<Seq<char>>::empty().push(decimal_text(row.c_custkey as int));
    lemma_add_field(r0, f0, row.c_name.text());
    let r1 = r0 + row.c_name.text() + "|"@;
    let f1 = f0.push(row.c_name.text());
    lemma_add_field(r1, f1, row.c_address@);
    let r2 = r1 + row.c_address@ + "|"@;
    let f2 = f1.push(row.c_address@);
    lemma_add_field(r2, f2, row.c_region@);
    let r3 = r2 + row.c_region@ + "|"@;
    let f3 = f2.push(row.c_region@);
    lemma_add_field(r3, f3, row.c_nation@);
    let r4 = r3 + row.c_nation@ + "|"@;
    let f4 = f3.push(row.c_nation@);
    lemma_add_field(r4, f4, row.c_phone@);
    let r5 = r4 + row.c_phone@ + "|"@;
    let f5 = f4.push(row.c_phone@);
    assert(r5 =~= row.row_text());
    assert(f5 =~= seq![decimal_text(row.c_custkey as int), row.c_name.text(), row.c_address@, row.c_region@, row.c_nation@, row.c_phone@]);
}

/// A building's row holds its fields verbatim, in order, each followed by a bar:
/// the key, the name and the boundary.
pub proof fn lemma_building_row_fields(row: Building)
    ensures
        holds_fields(
            row.row_text(),
            seq![decimal_text(row.b_buildingkey as int), row.b_name@, row.b_boundary@],
        ),
{
    lemma_no_fields();
    lemma_add_field(Seq::<char>::empty(), Seq::<Seq<char>>::empty(), decimal_text(row.b_buildingkey as int));
    let r0 = Seq::<char>::empty() + decimal_text(row.b_buildingkey as int) + "|"@;
    let f0 = Seq::<Seq<char>>::empty().push(decimal_text(row.b_buildingkey as int));
    lemma_add_field(r0, f0, row.b_name@);
    let r1 = r0 + row.b_name@ + "|"@;
    let f1 = f0.push(row.b_name@);
    lemma_add_field(r1, f1, row.b_boundary@);
    let r2 = r1 + row.b_boundary@ + "|"@;
    let f2 = f1.push(row.b_boundary@);
    assert(r2 =~= row.row_text());
    assert(f2 =~= seq![decimal_text(row.b_buildingkey as int), row.b_name@, row.b_boundary@]);
}

// ----------------------------------------------------------------------
// Integer rules of the generators
// ----------------------------------------------------------------------
/// The price of a vehicle: 900.00 plus at most 200.00 from `key / 10`, plus
/// 1.00 for every unit of `key % 1000`, in cents.
pub open spec fn vehicle_price(vehicle_key: int) -> int {
    90000 + trunc_rem(trunc_div(vehicle_key, 10), 20001) + trunc_rem(vehicle_key, 1000) * 100
}

/// Calculates the price for a vehicle
pub fn calculate_vehicle_price(vehicle_key: i64) -> (price: i64)
    ensures
        price == vehicle_price(vehicle_key as int),
        vehicle_key >= 0 ==> 90000 <= price <= 90000 + 20000 + 999 * 100,
{
    proof {
        if vehicle_key >= 0 {
            lemma_trunc_nonneg(vehicle_key as int, 10);
            lemma_trunc_nonneg(trunc_div(vehicle_key as int, 10), 20001);
            lemma_trunc_nonneg(vehicle_key as int, 1000);
        }
    }
    let mut price: i64 = 90000;

    // limit contribution to $200
    price += (vehicle_key / 10) % 20001;
    price += (vehicle_key % 1000) * 100;

    price
}

/// How a vehicle's price is made up, for keys that are not negative: 900.00,
/// plus 1.00 for every unit of the key's last three digits, plus a part of
/// at most 200.00 that is 0 for the first ten keys and grows by one cent
/// with every ten keys, wrapping back to 0 after 200.00.
pub proof fn lemma_vehicle_price_parts(vehicle_key: int)
    requires
        vehicle_key >= 0,
    ensures
        0 <= vehicle_price(vehicle_key) - 90000 - 100 * (vehicle_key % 1000) <= 20000,
        vehicle_key < 10 ==> vehicle_price(vehicle_key) == 90000 + 100 * vehicle_key,
        vehicle_price(vehicle_key + 10) - 90000 - 100 * ((vehicle_key + 10) % 1000) == (
        vehicle_price(vehicle_key) - 90000 - 100 * (vehicle_key % 1000) + 1) % 20001,
        (vehicle_key + 1) % 10 != 0 ==> vehicle_price(vehicle_key + 1) - 90000 - 100 * ((
        vehicle_key + 1) % 1000) == vehicle_price(vehicle_key) - 90000 - 100 * (vehicle_key
            % 1000),
{
    let k = vehicle_key;
    lemma_trunc_nonneg(k, 10);
    lemma_trunc_nonneg(k / 10, 20001);
    lemma_trunc_nonneg(k, 1000);
    lemma_trunc_nonneg(k + 10, 10);
    lemma_trunc_nonneg((k + 10) / 10, 20001);
    lemma_trunc_nonneg(k + 10, 1000);
    lemma_trunc_nonneg(k + 1, 10);
    lemma_trunc_nonneg((k + 1) / 10, 20001);
    lemma_trunc_nonneg(k + 1, 1000);
    vstd::arithmetic::div_mod::lemma_fundamental_div_mod(k, 10);
    vstd::arithmetic::div_mod::lemma_fundamental_div_mod(k + 10, 10);
    vstd::arithmetic::div_mod::lemma_fundamental_div_mod(k + 1, 10);
    vstd::arithmetic::div_mod::lemma_mod_pos_bound(k, 10);
    vstd::arithmetic::div_mod::lemma_mod_pos_bound(k + 1, 10);
    assert((k + 10) / 10 == k / 10 + 1) by {
        vstd::arithmetic::div_mod::lemma_div_plus_one(k, 10);
    }
    vstd::arithmetic::div_mod::lemma_add_mod_noop(k / 10, 1, 20001);
    if (k + 1) % 10 != 0 {
        assert((k + 1) / 10 == k / 10) by {
            vstd::arithmetic::div_mod::lemma_fundamental_div_mod_converse(
                k + 1,
                10,
                k / 10,
                k % 10 + 1,
            );
        }
    }
    if k < 10 {
        vstd::arithmetic::div_mod::lemma_basic_div(k, 10);
        vstd::arithmetic::div_mod::lemma_small_mod(k as nat, 1000);
    }
}

/// Where a vehicle's drivers come from, for a positive vehicle key and a
/// driver number that is not negative: a driver key of the table; for the
/// first trip the driver at the vehicle's own place in the table; and each
/// next trip's driver a fixed step further round the table, the step being
/// a quarter of the table plus the number of times the vehicle keys went
/// round it.
pub proof fn lemma_drivers_go_round_the_table(
    vehicle_key: int,
    driver_number: int,
    driver_count: int,
)
    requires
        vehicle_key >= 1,
        driver_number >= 0,
        driver_count >= 1,
    ensures
        1 <= driver_for(vehicle_key, driver_number, driver_count) <= driver_count,
        driver_for(vehicle_key, 0, driver_count) == vehicle_key % driver_count + 1,
        (driver_for(vehicle_key, driver_number + 1, driver_count) - driver_for(
            vehicle_key,
            driver_number,
            driver_count,
        ) - (driver_count / 4 + (vehicle_key - 1) / driver_count)) % driver_count == 0,
{
    let v = vehicle_key;
    let c = driver_count;
    lemma_trunc_nonneg(c, 4);
    lemma_trunc_nonneg(v - 1, c);
    let step = c / 4 + (v - 1) / c;
    assert(step >= 0);
    let a = v + driver_number * step;
    let b = v + (driver_number + 1) * step;
    assert(a >= 1) by (nonlinear_arith)
        requires
            a == v + driver_number * step,
            v >= 1,
            driver_number >= 0,
            step >= 0,
    ;
    assert(b == a + step) by (nonlinear_arith)
        requires
            a == v + driver_number * step,
            b == v + (driver_number + 1) * step,
    ;
    lemma_trunc_nonneg(a, c);
    lemma_trunc_nonneg(b, c);
    lemma_trunc_nonneg(v, c);
    assert(v + 0 * step == v);
    vstd::arithmetic::div_mod::lemma_fundamental_div_mod(a, c);
    vstd::arithmetic::div_mod::lemma_fundamental_div_mod(b, c);
    let diff = b % c - a % c - step;
    assert(diff == c * (a / c - b / c)) by (nonlinear_arith)
        requires
            a == c * (a / c) + a % c,
            b == c * (b / c) + b % c,
            b == a + step,
            diff == b % c - a % c - step,
    ;
    vstd::arithmetic::div_mod::lemma_mod_multiples_basic(a / c - b / c, c);
    assert((a / c - b / c) * c == c * (a / c - b / c)) by (nonlinear_arith);
}

/// The driver that drives a vehicle for its `driver_number`-th trip, given
/// the number of drivers.
pub open spec fn driver_for(vehicle_key: int, driver_number: int, driver_count: int) -> int {
    trunc_rem(
        vehicle_key + driver_number * (trunc_div(driver_count, 4) + trunc_div(
            vehicle_key - 1,
            driver_count,
        )),
        driver_count,
    ) + 1
}

/// Selects a driver for a vehicle, for a driver table of `driver_count` drivers.
/// The key of every selected driver lies in `1..=driver_count` when the
/// vehicle key is positive and the driver number is not negative.
pub fn select_driver_for_count(vehicle_key: i64, driver_number: i64, driver_count: i64) -> (driver: i64)
    requires
        driver_count >= 1,
        vehicle_key > i64::MIN,
        i64::MIN <= driver_number * (trunc_div(driver_count as int, 4) + trunc_div(
            vehicle_key - 1,
            driver_count as int,
        )) <= i64::MAX,
        i64::MIN <= vehicle_key + driver_number * (trunc_div(driver_count as int, 4)
            + trunc_div(vehicle_key - 1, driver_count as int)) <= i64::MAX,
    ensures
        driver == driver_for(vehicle_key as int, driver_number as int, driver_count as int),
        vehicle_key >= 1 && driver_number >= 0 ==> 1 <= driver <= driver_count,
{
    let quarter = driver_count / 4;
    let rounds = (vehicle_key - 1) / driver_count;
    proof {
        assert(quarter == trunc_div(driver_count as int, 4));
        assert(rounds == trunc_div(vehicle_key - 1, driver_count as int));
        if driver_count >= 2 {
            lemma_trunc_div_bound(vehicle_key - 1, driver_count as int);
        }
    }
    let step = quarter + rounds;
    let spread = vehicle_key + driver_number * step;
    proof {
        if vehicle_key >= 1 && driver_number >= 0 {
            lemma_trunc_nonneg(vehicle_key - 1, driver_count as int);
            lemma_trunc_nonneg(driver_count as int, 4);
            assert(step >= 0);
            assert(driver_number * step >= 0) by (nonlinear_arith)
                requires
                    driver_number >= 0,
                    step >= 0,
            ;
            lemma_trunc_nonneg(spread as int, driver_count as int);
        }
    }
    let r = spread % driver_count;
    assert(r == trunc_rem(spread as int, driver_count as int));
    r + 1
}

/// A truncated quotient of a 64-bit number by at least two fits in 63 bits.
proof fn lemma_trunc_div_bound(a: int, b: int)
    requires
        b >= 2,
        i64::MIN <= a <= i64::MAX,
    ensures
        -0x4000_0000_0000_0000 <= trunc_div(a, b) <= 0x4000_0000_0000_0000,
{
    if a >= 0 {
        assert(a / b <= a / 2) by {
            vstd::arithmetic::div_mod::lemma_div_is_ordered_by_denominator(a, 2, b);
        }
    } else {
        assert((-a) / b <= (-a) / 2) by {
            vstd::arithmetic::div_mod::lemma_div_is_ordered_by_denominator(-a, 2, b);
        }
    }
}

/// The customer key kept for a trip: a key that is a multiple of three
/// belongs to a customer without trips, and is moved to the next key up,
/// or down when the next key up exceeds `max_customer_key`.
pub open spec fn living_customer_key(customer_key: int, max_customer_key: int) -> int {
    let up = if customer_key + 1 <= max_customer_key {
        customer_key + 1
    } else {
        max_customer_key
    };
    if customer_key % 3 != 0 {
        customer_key
    } else if up % 3 != 0 {
        up
    } else {
        up - 1
    }
}

/// What customer mortality does to a drawn key that is not above the largest
/// key: a key that is no multiple of three is kept; a multiple of three
/// moves one up, or one down when it is the largest key. So the result is
/// never a multiple of three, never above the largest key, at most one away
/// from the drawn key, and not below it unless the drawn key is the largest.
pub proof fn lemma_mortality_moves_to_nearest_living_key(customer_key: int, max_customer_key: int)
    requires
        customer_key <= max_customer_key,
    ensures
        ({
            let key = living_customer_key(customer_key, max_customer_key);
            &&& key % 3 != 0
            &&& key <= max_customer_key
            &&& customer_key - 1 <= key <= customer_key + 1
            &&& customer_key < max_customer_key ==> customer_key <= key
            &&& customer_key % 3 != 0 ==> key == customer_key
            &&& customer_key % 3 == 0 && customer_key < max_customer_key ==> key == customer_key + 1
            &&& customer_key % 3 == 0 && customer_key == max_customer_key ==> key == customer_key - 1
        }),
{
}

/// Adjusts a drawn customer key for customer mortality: the result is never
/// a multiple of three, and stays in `1..=max_customer_key` when the drawn key does.
pub fn apply_customer_mortality(customer_key: i64, max_customer_key: i64) -> (key: i64)
    ensures
        key == living_customer_key(customer_key as int, max_customer_key as int),
        key % 3 != 0,
        1 <= customer_key <= max_customer_key ==> 1 <= key <= max_customer_key,
{
    let mut key = customer_key;
    let mut delta: i64 = 1;
    let ghost mut steps: int = 0;
    while key % 3 == 0
        invariant
            0 <= steps <= 2,
            steps == 0 ==> key == customer_key && delta == 1,
            steps == 1 ==> customer_key % 3 == 0 && delta == -1 && key == (
            if customer_key + 1 <= max_customer_key {
                customer_key + 1
            } else {
                max_customer_key as int
            }),
            steps == 2 ==> key % 3 != 0 && customer_key % 3 == 0 && key == living_customer_key(
                customer_key as int,
                max_customer_key as int,
            ),
        decreases 2 - steps,
    {
        proof {
            assert(i64::MAX % 3 == 1);
            assert(i64::MIN % 3 == 1);
        }
        key = key + delta;
        if max_customer_key < key {
            key = max_customer_key;
        }
        delta = -delta;
        proof {
            steps = steps + 1;
        }
    }
    key
}

/// The date and time of day at which a trip ends: the pickup day and time
/// advanced by `duration_seconds`, with the day capped at `last_date`.
pub struct DropoffTime {
    /// Day number
    pub day: i32,
    /// Hour of the day
    pub hour: u8,
    /// Minute of the hour
    pub minute: u8,
    /// Second of the minute
    pub second: u8,
}

/// Seconds since the start of the pickup day at which the trip ends.
pub open spec fn trip_end_seconds(hour: int, minute: int, second: int, duration_seconds: int) -> int {
    hour * 3600 + minute * 60 + second + duration_seconds
}

/// Whether `(day1, h1, m1, s1)` comes no later than `(day2, h2, m2, s2)`.
pub open spec fn time_le(
    day1: int,
    h1: int,
    m1: int,
    s1: int,
    day2: int,
    h2: int,
    m2: int,
    s2: int,
) -> bool {
    ||| day1 < day2
    ||| day1 == day2 && h1 < h2
    ||| day1 == day2 && h1 == h2 && m1 < m2
    ||| day1 == day2 && h1 == h2 && m1 == m2 && s1 <= s2
}

/// Computes the dropoff day and time of day of a trip. When the duration is
/// not negative, the pickup time is a time of day, and the cap on the day
/// does not apply, the dropoff comes no earlier than the pickup.
pub fn dropoff_time(
    pickup_date: i32,
    pickup_hour: u8,
    pickup_minute: u8,
    pickup_second: u8,
    duration_seconds: i32,
    last_date: i32,
) -> (dropoff: DropoffTime)
    requires
        i32::MIN <= trip_end_seconds(
            pickup_hour as int,
            pickup_minute as int,
            pickup_second as int,
            duration_seconds as int,
        ) <= i32::MAX,
        i32::MIN <= pickup_date + trunc_div(
            trip_end_seconds(
                pickup_hour as int,
                pickup_minute as int,
                pickup_second as int,
                duration_seconds as int,
            ),
            86400,
        ) <= i32::MAX,
    ensures
        ({
            let total = trip_end_seconds(
                pickup_hour as int,
                pickup_minute as int,
                pickup_second as int,
                duration_seconds as int,
            );
            let day = pickup_date + trunc_div(total, 86400);
            &&& dropoff.hour == (trunc_rem(trunc_div(total, 3600), 24)) as u8
            &&& dropoff.minute == (trunc_div(trunc_rem(total, 3600), 60)) as u8
            &&& dropoff.second == (trunc_rem(total, 60)) as u8
            &&& dropoff.day == if day < last_date {
                day
            } else {
                last_date as int
            }
        }),
        duration_seconds >= 0 ==> dropoff.hour < 24 && dropoff.minute < 60 && dropoff.second < 60,
        duration_seconds >= 0 && pickup_date + trunc_div(
            trip_end_seconds(
                pickup_hour as int,
                pickup_minute as int,
                pickup_second as int,
                duration_seconds as int,
            ),
            86400,
        ) <= last_date ==> dropoff.day * 86400 + dropoff.hour * 3600 + dropoff.minute * 60
            + dropoff.second == pickup_date * 86400 + trip_end_seconds(
            pickup_hour as int,
            pickup_minute as int,
            pickup_second as int,
            duration_seconds as int,
        ),
        duration_seconds >= 0 && pickup_hour < 24 && pickup_minute < 60 && pickup_second < 60
            && pickup_date + trunc_div(
            trip_end_seconds(
                pickup_hour as int,
                pickup_minute as int,
                pickup_second as int,
                duration_seconds as int,
            ),
            86400,
        ) <= last_date ==> time_le(
            pickup_date as int,
            pickup_hour as int,
            pickup_minute as int,
            pickup_second as int,
            dropoff.day as int,
            dropoff.hour as int,
            dropoff.minute as int,
            dropoff.second as int,
        ),
{
    let total_seconds: i32 = (pickup_hour as i32) * 3600 + (pickup_minute as i32) * 60
        + (pickup_second as i32) + duration_seconds;
    proof {
        if duration_seconds >= 0 {
            let t = total_seconds as int;
            lemma_trunc_nonneg(t, 3600);
            lemma_trunc_nonneg(t / 3600, 24);
            lemma_trunc_nonneg(t, 60);
            lemma_trunc_nonneg(t % 3600, 60);
            lemma_trunc_nonneg(t, 86400);
            assert(0 <= (t % 3600) / 60 < 60);
        }
    }
    let dropoff_hour = ((total_seconds / 3600) % 24) as u8;
    let dropoff_minute = ((total_seconds % 3600) / 60) as u8;
    let dropoff_second = (total_seconds % 60) as u8;
    let day_delta = total_seconds / (24 * 3600);
    let dropoff_day = pickup_date + day_delta;

    // Ensure the dropoff day doesn't exceed the maximum date value
    let bounded_dropoff_day = if dropoff_day < last_date {
        dropoff_day
    } else {
        last_date
    };
    proof {
        if duration_seconds >= 0 {
            lemma_time_of_day_split(total_seconds as int);
        }
        if duration_seconds >= 0 && pickup_hour < 24 && pickup_minute < 60 && pickup_second < 60
            && dropoff_day <= last_date {
            lemma_dropoff_not_before_pickup(
                pickup_hour as int,
                pickup_minute as int,
                pickup_second as int,
                total_seconds as int,
            );
        }
    }
    DropoffTime {
        day: bounded_dropoff_day,
        hour: dropoff_hour,
        minute: dropoff_minute,
        second: dropoff_second,
    }
}

/// A number of seconds splits into whole days, hours of the day, minutes of
/// the hour and seconds of the minute.
proof fn lemma_time_of_day_split(total: int)
    requires
        total >= 0,
    ensures
        (total / 86400) * 86400 + ((total / 3600) % 24) * 3600 + ((total % 3600) / 60) * 60
            + total % 60 == total,
{
    vstd::arithmetic::div_mod::lemma_fundamental_div_mod(total, 3600);
    vstd::arithmetic::div_mod::lemma_fundamental_div_mod(total / 3600, 24);
    vstd::arithmetic::div_mod::lemma_div_denominator(total, 3600, 24);
    vstd::arithmetic::div_mod::lemma_fundamental_div_mod(total % 3600, 60);
    vstd::arithmetic::div_mod::lemma_mod_mod(total, 3600, 60);
    vstd::arithmetic::div_mod::lemma_mod_pos_bound(total, 3600);
    assert(3600 * 24 == 86400);
}

/// A time of day advanced by a non-negative number of seconds lands on the
/// same day at a time no earlier, or on a later day.
proof fn lemma_dropoff_not_before_pickup(h: int, m: int, s: int, total: int)
    requires
        0 <= h < 24,
        0 <= m < 60,
        0 <= s < 60,
        total >= h * 3600 + m * 60 + s,
    ensures
        total / 86400 > 0 || time_le(
            0,
            h,
            m,
            s,
            total / 86400,
            (total / 3600) % 24,
            (total % 3600) / 60,
            total % 60,
        ),
{
    if total < 86400 {
        assert(total / 86400 == 0);
        let th = total / 3600;
        assert(th < 24);
        assert(th % 24 == th);
        assert(total == th * 3600 + total % 3600);
        let tm = (total % 3600) / 60;
        assert(total % 3600 == tm * 60 + total % 60) by {
            assert(total % 3600 == tm * 60 + (total % 3600) % 60);
            assert((total % 3600) % 60 == total % 60) by {
                vstd::arithmetic::div_mod::lemma_mod_mod(total, 60, 60);
            }
        }
        if th < h {
            assert(th * 3600 + 3600 <= h * 3600);
        } else if th == h {
            if tm < m {
                assert(tm * 60 + 60 <= m * 60);
            }
        }
    }
}

} // verus!
