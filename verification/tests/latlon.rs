use rs_latlon::Fixed;
use rs_latlon::Location;
use rs_latlon::ParseError;
use rs_latlon::mod_positive;
use rs_latlon::parse_lat;
use rs_latlon::parse_lon;

#[test]
fn latlon_error() {
    let location: Location =
        Location::new(Fixed::from_int(0), Fixed::from_int(0), 100, 100, Fixed::from_int(1))
            .unwrap();

    assert_eq!(
        location.from_latlon(Fixed::from_int(10), Fixed::from_int(10)).unwrap(),
        (Fixed::from_int(10), Fixed::from_int(10))
    );
    assert_eq!(
        location.from_latlon(Fixed::from_int(-80), Fixed::from_int(100)).unwrap(),
        (Fixed::from_int(100), Fixed::from_int(100))
    );

    assert_eq!(
        location.from_xy(Fixed::from_int(100), Fixed::from_int(100)).unwrap(),
        (Fixed::from_int(-80), Fixed::from_int(100))
    );
}

#[test]
fn set_latlon() {
    let location: Location =
        Location::new(Fixed::from_int(1), Fixed::from_int(1), 100, 100, Fixed::from_int(1))
            .unwrap();

    assert_eq!(location.start_lat, Fixed::from_int(1));
    assert_eq!(location.start_lon, Fixed::from_int(1));
}

#[test]
fn mod_positive_examples() {
    assert_eq!(
        mod_positive(Fixed::from_int(10), Fixed::from_int(100)),
        Fixed::from_int(10)
    );
    assert_eq!(
        mod_positive(Fixed::from_int(200), Fixed::from_int(100)),
        Fixed::from_int(0)
    );
    assert_eq!(
        mod_positive(Fixed::from_int(-80), Fixed::from_int(100)),
        Fixed::from_int(20)
    );
}

#[test]
fn parse_lat_wraps() {
    assert_eq!(parse_lat(Fixed::from_int(100)), Fixed::from_int(-80));
    assert_eq!(parse_lat(Fixed::from_int(-91)), Fixed::from_int(89));
    assert_eq!(parse_lat(Fixed::from_int(90)), Fixed::from_int(-90));
    assert_eq!(parse_lat(Fixed::from_int(-90)), Fixed::from_int(-90));
    assert_eq!(
        parse_lat(Fixed::from_raw(45_120_052_000)),
        Fixed::from_raw(45_120_052_000)
    );
}

#[test]
fn parse_lon_wraps() {
    assert_eq!(parse_lon(Fixed::from_int(190)), Fixed::from_int(-170));
    assert_eq!(parse_lon(Fixed::from_int(-181)), Fixed::from_int(179));
    assert_eq!(parse_lon(Fixed::from_int(180)), Fixed::from_int(-180));
    assert_eq!(
        parse_lon(Fixed::from_raw(125_639_648_000)),
        Fixed::from_raw(125_639_648_000)
    );
}

#[test]
fn zero_zoom_rejected() {
    let zero = Fixed::from_int(0);
    assert_eq!(
        Location::new(Fixed::from_int(33), Fixed::from_int(-7), 640, 480, zero).unwrap_err(),
        ParseError::NonZero(zero)
    );
    assert_eq!(
        Location::new_center(Fixed::from_int(33), Fixed::from_int(-7), 640, 480, zero)
            .unwrap_err(),
        ParseError::NonZero(zero)
    );
    assert!(Location::new(zero, zero, 0, 0, Fixed::from_int(-3)).is_ok());
    assert!(Location::new_center(zero, zero, 0, 0, Fixed::from_raw(1)).is_ok());
}

#[test]
fn bounds_are_inclusive() {
    let location =
        Location::new(Fixed::from_int(0), Fixed::from_int(0), 100, 100, Fixed::from_int(1))
            .unwrap();

    assert!(location.from_xy(Fixed::from_int(100), Fixed::from_int(0)).is_ok());
    assert_eq!(
        location
            .from_xy(Fixed::from_raw(100_000_000_001), Fixed::from_int(0))
            .unwrap_err(),
        ParseError::OutOfRange(100, Fixed::from_raw(100_000_000_001))
    );
    assert_eq!(
        location
            .from_xy(Fixed::from_int(0), Fixed::from_raw(100_000_000_001))
            .unwrap_err(),
        ParseError::OutOfRange(100, Fixed::from_raw(100_000_000_001))
    );

    assert!(location.from_latlon(Fixed::from_int(100), Fixed::from_int(0)).is_ok());
    assert_eq!(
        location
            .from_latlon(Fixed::from_raw(100_000_000_001), Fixed::from_int(0))
            .unwrap_err(),
        ParseError::OutOfRange(100, Fixed::from_raw(100_000_000_001))
    );
    assert_eq!(
        location
            .from_latlon(Fixed::from_int(0), Fixed::from_raw(100_000_000_001))
            .unwrap_err(),
        ParseError::OutOfRange(100, Fixed::from_raw(100_000_000_001))
    );
}

#[test]
fn round_trip_whole_pixels() {
    let location =
        Location::new(Fixed::from_int(0), Fixed::from_int(0), 100, 100, Fixed::from_int(1))
            .unwrap();

    let (lat, lon) = location.from_xy(Fixed::from_int(7), Fixed::from_int(9)).unwrap();
    assert_eq!(
        location.from_latlon(lat, lon).unwrap(),
        (Fixed::from_int(7), Fixed::from_int(9))
    );
}

#[test]
fn round_trip_fractional_zoom() {
    let location = Location::new(
        Fixed::from_raw(45_120_052_000),
        Fixed::from_raw(125_639_648_000),
        1920,
        1080,
        Fixed::from_raw(100_000_000),
    )
    .unwrap();

    let (lat, lon) = location.from_xy(Fixed::from_int(10), Fixed::from_int(10)).unwrap();
    assert_eq!(lat, Fixed::from_raw(46_120_052_000));
    assert_eq!(lon, Fixed::from_raw(126_639_648_000));

    assert_eq!(
        location.from_latlon(lat, lon).unwrap(),
        (Fixed::from_int(10), Fixed::from_int(10))
    );
}

#[test]
fn center_anchor() {
    let location = Location::new_center(
        Fixed::from_int(0),
        Fixed::from_int(0),
        100,
        100,
        Fixed::from_int(1),
    )
    .unwrap();
    assert_eq!(location.start_lat, Fixed::from_int(-50));
    assert_eq!(location.start_lon, Fixed::from_int(-50));

    let odd = Location::new_center(
        Fixed::from_int(0),
        Fixed::from_int(0),
        101,
        100,
        Fixed::from_int(1),
    )
    .unwrap();
    assert_eq!(odd.start_lat, Fixed::from_raw(-50_500_000_000));
    assert_eq!(odd.start_lon, Fixed::from_int(-50));
}

#[test]
fn negative_zoom() {
    let location =
        Location::new(Fixed::from_int(0), Fixed::from_int(0), 100, 100, Fixed::from_int(-1))
            .unwrap();

    let (lat, lon) = location.from_xy(Fixed::from_int(10), Fixed::from_int(20)).unwrap();
    assert_eq!(lat, Fixed::from_int(-10));
    assert_eq!(lon, Fixed::from_int(-20));
}
