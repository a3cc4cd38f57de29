use amp_core::decimal::DecimalNumber;
use amp_core::geometry::Point;
use amp_core::models::GpsCoordinate;
use amp_core::structs::point_from_metres;

#[test]
fn correlation_test_high_precision_coordinates() {
    let coord = GpsCoordinate::new("55.605012345", "13.003812345").unwrap();
    assert!(coord.latitude.to_string().len() >= 11); // At least 8 decimals
    assert!(coord.longitude.to_string().len() >= 11);
}

#[test]
fn test_malmo_bounds_validation() {
    let inside = GpsCoordinate::new("55.6050", "13.0038").unwrap();
    assert!(inside.is_in_malmo());

    let outside = GpsCoordinate::new("60.0", "13.0").unwrap();
    assert!(!outside.is_in_malmo());
}

#[test]
fn test_precision() {
    let coord = GpsCoordinate::new("55.6050", "13.0038").unwrap();
    assert!(coord.is_in_malmo());
}

#[test]
fn test_decimal_precision() {
    let coord = GpsCoordinate::new("55.605012345", "13.003812345").unwrap();

    let lat_str = coord.latitude.to_string();
    let lon_str = coord.longitude.to_string();

    assert!(lat_str.len() >= 11); // At least 8 decimals
    assert!(lon_str.len() >= 11);
}

#[test]
fn test_gps_coordinate_creation() {
    let coord = GpsCoordinate::new("55.6050", "13.0038").unwrap();
    assert!(coord.is_in_malmo());
}

#[test]
fn integration_tests_test_high_precision_coordinates() {
    let coord = GpsCoordinate::new("55.605012345", "13.003812345").unwrap();
    assert!(coord.latitude.to_string().len() >= 11);
}

#[test]
fn a_decimal_number_is_read_digit_for_digit() {
    let number = DecimalNumber::parse("55.6050").unwrap();
    assert_eq!(number, DecimalNumber { mantissa: 556_050, scale: 4 });
    let negative = DecimalNumber::parse("-0.125").unwrap();
    assert_eq!(negative, DecimalNumber { mantissa: -125, scale: 3 });
    let whole = DecimalNumber::parse("13").unwrap();
    assert_eq!(whole, DecimalNumber { mantissa: 13, scale: 0 });
}

#[test]
fn a_decimal_number_is_written_as_it_was_read() {
    let number = DecimalNumber::parse("55.605012345").unwrap();
    assert_eq!(number.to_string(), "55.605012345");
    assert_eq!(DecimalNumber { mantissa: -125, scale: 3 }.to_string(), "-0.125");
    assert_eq!(DecimalNumber { mantissa: 7, scale: 0 }.to_string(), "7");
}

#[test]
fn text_that_is_no_number_is_not_read() {
    assert_eq!(DecimalNumber::parse("north"), None);
    assert_eq!(DecimalNumber::parse(""), None);
    assert_eq!(DecimalNumber::parse("1.2.3"), None);
}

#[test]
fn unreadable_latitude_is_reported() {
    let error = GpsCoordinate::new("north", "13.0").unwrap_err();
    assert_eq!(error, "Invalid latitude: north");
}

#[test]
fn unreadable_longitude_is_reported() {
    let error = GpsCoordinate::new("55.6", "east").unwrap_err();
    assert_eq!(error, "Invalid longitude: east");
}

#[test]
fn unreadable_latitude_comes_before_unreadable_longitude() {
    let error = GpsCoordinate::new("north", "east").unwrap_err();
    assert_eq!(error, "Invalid latitude: north");
}

#[test]
fn latitude_out_of_range_is_reported() {
    assert_eq!(GpsCoordinate::new("90.0001", "13.0").unwrap_err(), "Latitude out of range: 90.0001");
    assert_eq!(GpsCoordinate::new("-91", "13.0").unwrap_err(), "Latitude out of range: -91");
}

#[test]
fn longitude_out_of_range_is_reported() {
    assert_eq!(GpsCoordinate::new("55.6", "180.5").unwrap_err(), "Longitude out of range: 180.5");
    assert_eq!(GpsCoordinate::new("55.6", "-181").unwrap_err(), "Longitude out of range: -181");
}

#[test]
fn the_ends_of_the_ranges_are_coordinates() {
    assert!(GpsCoordinate::new("90", "180").is_ok());
    assert!(GpsCoordinate::new("-90.000", "-180.0").is_ok());
}

#[test]
fn the_bounds_of_the_city_belong_to_it() {
    assert!(GpsCoordinate::new("55.55", "12.90").unwrap().is_in_malmo());
    assert!(GpsCoordinate::new("55.65", "13.10").unwrap().is_in_malmo());
    assert!(!GpsCoordinate::new("55.5499", "13.0").unwrap().is_in_malmo());
    assert!(!GpsCoordinate::new("55.6", "13.1001").unwrap().is_in_malmo());
}

#[test]
fn is_between_compares_in_hundredths() {
    let number = DecimalNumber { mantissa: 55_605, scale: 3 };
    assert!(number.is_between(5_560, 5_561));
    assert!(!number.is_between(5_561, 5_600));
    assert!(!number.is_between(5_000, 5_560));
}

#[test]
fn hundredths_are_rounded_to_the_nearest() {
    assert_eq!(DecimalNumber { mantissa: 12_344, scale: 3 }.to_hundredths(), 1_234);
    assert_eq!(DecimalNumber { mantissa: 12_345, scale: 3 }.to_hundredths(), 1_235);
    assert_eq!(DecimalNumber { mantissa: -12_345, scale: 3 }.to_hundredths(), -1_235);
    assert_eq!(DecimalNumber { mantissa: -12_344, scale: 3 }.to_hundredths(), -1_234);
    assert_eq!(DecimalNumber { mantissa: 7, scale: 0 }.to_hundredths(), 700);
}

#[test]
fn a_point_is_made_from_metres() {
    let x = DecimalNumber::parse("118543.127").unwrap();
    let y = DecimalNumber::parse("6164892.5").unwrap();
    assert_eq!(point_from_metres(&x, &y), Some(Point { x: 11_854_313, y: 616_489_250 }));
}

#[test]
fn a_position_out_of_range_has_no_point() {
    let x = DecimalNumber::parse("0").unwrap();
    let y = DecimalNumber::parse("10737418.24").unwrap();
    assert_eq!(point_from_metres(&x, &y), None);
    let y = DecimalNumber::parse("10737418.23").unwrap();
    assert_eq!(point_from_metres(&x, &y), Some(Point { x: 0, y: 1_073_741_823 }));
}

#[test]
fn a_coordinate_is_read_from_one_text() {
    let coordinate = GpsCoordinate::parse("55.6050,13.0038").unwrap();
    assert_eq!(coordinate, GpsCoordinate::new("55.6050", "13.0038").unwrap());
    let spaced = GpsCoordinate::parse("  55.6050 ,\t13.0038\n").unwrap();
    assert_eq!(spaced, coordinate);
    let parsed: GpsCoordinate = "55.6050, 13.0038".parse().unwrap();
    assert_eq!(parsed, coordinate);
}

#[test]
fn a_text_without_two_pieces_is_no_coordinate() {
    for text in ["", "55.6050", "55.6050,13.0038,7", ",,"] {
        assert_eq!(GpsCoordinate::parse(text).unwrap_err(), "Expected format: 'lat,lon'");
    }
}

#[test]
fn the_pieces_of_a_text_are_read_as_latitude_and_longitude() {
    assert_eq!(GpsCoordinate::parse("north, 13").unwrap_err(), "Invalid latitude: north");
    assert_eq!(GpsCoordinate::parse(",13").unwrap_err(), "Invalid latitude: ");
    assert_eq!(GpsCoordinate::parse("55, 200").unwrap_err(), "Longitude out of range: 200");
}

#[test]
fn a_decimal_number_within_its_bounds_is_well_formed() {
    assert!(DecimalNumber { mantissa: 79_228_162_514_264_337_593_543_950_335, scale: 28 }.is_well_formed());
    assert!(!DecimalNumber { mantissa: 79_228_162_514_264_337_593_543_950_336, scale: 0 }.is_well_formed());
    assert!(!DecimalNumber { mantissa: 1, scale: 29 }.is_well_formed());
    assert!(DecimalNumber { mantissa: -79_228_162_514_264_337_593_543_950_335, scale: 0 }.is_well_formed());
}

#[test]
fn the_largest_decimal_numbers_are_written_and_compared() {
    let largest = DecimalNumber { mantissa: 79_228_162_514_264_337_593_543_950_335, scale: 0 };
    assert_eq!(largest.to_string(), "79228162514264337593543950335");
    assert!(!largest.is_between(i32::MIN, i32::MAX));
    let smallest = DecimalNumber { mantissa: 1, scale: 28 };
    assert_eq!(smallest.to_string(), "0.0000000000000000000000000001");
    assert!(smallest.is_between(0, 1));
    assert!(!smallest.is_between(1, 2));
    assert_eq!(smallest.to_hundredths(), 0);
}

#[test]
fn test_valid_coordinates() {
    let coord = GpsCoordinate::new("55.6050", "13.0038").unwrap();
    assert!(coord.latitude.is_well_formed());
    assert!(coord.longitude.is_well_formed());
}
