use warehouse::version::{ParseVersionError, Version};

#[test]
fn orders_numerically_not_lexically() {
    assert!(Version::new(1, 10, 0) > Version::new(1, 9, 9));
}

#[test]
fn version_rejects_malformed_input() {
    "1.2"
        .parse::<Version>()
        .expect_err("should reject malformed input");
    "1.2.3.4"
        .parse::<Version>()
        .expect_err("should reject malformed input");
    "1.2.x"
        .parse::<Version>()
        .expect_err("should reject malformed input");
}

#[test]
fn version_writes_three_numbers() {
    assert_eq!(Version::new(1, 24, 5).to_string(), "1.24.5");
    assert_eq!(Version::new(0, 0, 0).to_string(), "0.0.0");
    assert_eq!(Version::new(65535, 10, 7).to_string(), "65535.10.7");
}

#[test]
fn version_parse_error_holds_the_input() {
    assert_eq!(
        Version::parse("3.13"),
        Err(ParseVersionError("3.13".to_string()))
    );
    assert!(Version::parse("1.2.65536").is_err());
    assert!(Version::parse("1..2").is_err());
    assert!(Version::parse("-1.2.3").is_err());
}

#[test]
fn version_accepts_what_integer_parsing_accepts() {
    assert_eq!(Version::parse("1.+2.03"), Ok(Version::new(1, 2, 3)));
}

#[test]
fn version_round_trip() {
    for v in [
        Version::new(3, 13, 1),
        Version::new(22, 1, 0),
        Version::new(65535, 65535, 65535),
    ] {
        assert_eq!(Version::parse(&v.to_string()), Ok(v));
    }
}

#[test]
fn version_order_is_total() {
    let a = Version::new(1, 2, 3);
    let b = Version::new(1, 3, 0);
    let c = Version::new(2, 0, 0);
    assert!(a < b && b < c && a < c);
    assert!(!(a < a));
    assert!(b > a);
    assert_eq!(a.partial_cmp(&Version::new(1, 2, 3)), Some(core::cmp::Ordering::Equal));
}

#[test]
fn version_sorting_agrees_with_comparison() {
    let mut list = vec![
        Version::new(1, 10, 0),
        Version::new(1, 9, 9),
        Version::new(0, 99, 1),
        Version::new(1, 10, 0),
    ];
    list.sort();
    list.dedup();
    assert_eq!(
        list,
        vec![Version::new(0, 99, 1), Version::new(1, 9, 9), Version::new(1, 10, 0)]
    );
    for pair in list.windows(2) {
        assert!(pair[0] < pair[1]);
        assert_eq!(pair[0].cmp(&pair[1]), core::cmp::Ordering::Less);
    }
}
