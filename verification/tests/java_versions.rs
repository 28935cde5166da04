use warehouse::java::{JavaCatalog, JavaMajor, JavaVersion, ParseJavaVersionError};
use warehouse::time::Timestamp;

#[test]
fn parses_both_temurin_shapes() {
    assert_eq!(
        "21.0.5_11".parse::<JavaVersion>().expect("modern"),
        JavaVersion::Modern {
            major: 21,
            minor: 0,
            patch: 5,
            build: 11
        }
    );
    assert_eq!(
        "8u422-b05".parse::<JavaVersion>().expect("legacy"),
        JavaVersion::Legacy {
            major: 8,
            patch: 422,
            build: 5
        }
    );
}

#[test]
fn round_trips_through_display() {
    for raw in ["21.0.5_11", "8u422-b05"] {
        let parsed: JavaVersion = raw.parse().expect("parse");
        assert_eq!(parsed.to_string(), raw);
    }
}

#[test]
fn orders_legacy_below_modern() {
    let legacy: JavaVersion = "8u422-b05".parse().expect("legacy");
    let modern: JavaVersion = "21.0.5_11".parse().expect("modern");
    assert!(legacy < modern);
}

#[test]
fn java_rejects_malformed_input() {
    for raw in ["", "21.0.5", "0.1.2_3", "8u422", "latest"] {
        assert!(raw.parse::<JavaVersion>().is_err(), "accepted {raw:?}");
    }
}

#[test]
fn java_parse_error_holds_the_input() {
    assert_eq!(
        JavaVersion::parse("21.0_5"),
        Err(ParseJavaVersionError("21.0_5".to_string()))
    );
}

#[test]
fn legacy_build_is_written_with_two_digits() {
    let v = JavaVersion::parse("8u422-b5").expect("single digit build");
    assert_eq!(
        v,
        JavaVersion::Legacy {
            major: 8,
            patch: 422,
            build: 5
        }
    );
    assert_eq!(v.to_string(), "8u422-b05");
    let w = JavaVersion::Legacy {
        major: 8,
        patch: 472,
        build: 108,
    };
    assert_eq!(w.to_string(), "8u472-b108");
}

#[test]
fn java_round_trip_for_written_releases() {
    let releases = [
        JavaVersion::Modern {
            major: 17,
            minor: 0,
            patch: 13,
            build: 11,
        },
        JavaVersion::Legacy {
            major: 8,
            patch: 0,
            build: 0,
        },
        JavaVersion::Modern {
            major: 65535,
            minor: 65535,
            patch: 65535,
            build: 65535,
        },
    ];
    for v in releases {
        assert_eq!(JavaVersion::parse(&v.to_string()), Ok(v));
    }
}

#[test]
fn java_major_and_key() {
    let modern = JavaVersion::parse("21.0.5_11").unwrap();
    let legacy = JavaVersion::parse("8u422-b05").unwrap();
    assert_eq!(modern.major(), 21);
    assert_eq!(legacy.major(), 8);
    assert_eq!(modern.as_array(), [21, 0, 5, 11]);
    assert_eq!(legacy.as_array(), [8, 0, 422, 5]);
}

#[test]
fn java_orders_by_each_number_in_turn() {
    let a = JavaVersion::parse("21.0.5_11").unwrap();
    let b = JavaVersion::parse("21.0.5_9").unwrap();
    let c = JavaVersion::parse("21.0.10_1").unwrap();
    assert!(b < a);
    assert!(a < c);
    assert!(b < c);
    assert!(!(a < a));
    assert_eq!(a.partial_cmp(&a), Some(core::cmp::Ordering::Equal));
}

#[test]
fn java_catalog_finds_a_feature_version() {
    let catalog = JavaCatalog {
        schema: 1,
        updated_at: Timestamp { secs: 0, nanos: 0 },
        majors: vec![
            JavaMajor {
                major: 21,
                versions: vec![JavaVersion::parse("21.0.5_11").unwrap()],
            },
            JavaMajor {
                major: 8,
                versions: vec![JavaVersion::parse("8u422-b05").unwrap()],
            },
        ],
    };
    assert_eq!(catalog.major(8).map(|m| m.major), Some(8));
    assert!(catalog.major(17).is_none());
}

#[test]
fn java_shapes_must_fit_their_feature_version() {
    for raw in ["11u422-b05", "9u1-b01", "8.0.1_2", "1.8.0_422"] {
        assert!(JavaVersion::parse(raw).is_err(), "accepted {raw:?}");
    }
    assert!(JavaVersion::parse("9.0.4_11").is_ok());
    assert!(JavaVersion::parse("8u1-b01").is_ok());
}
