use phoenix_rec::data_types::DataType;
use phoenix_rec::decimal::{Decimal, Real};
use phoenix_rec::error::RecError;

fn dec(text: &str) -> Decimal {
    Decimal::from_text(text).expect("a decimal")
}

fn num(text: &str) -> Real {
    Real::from_text(text).expect("a reading")
}

fn every_kind() -> Vec<DataType> {
    vec![
        DataType::Null(0),
        DataType::Color(30, -30),
        DataType::Distance(-7),
        DataType::CalcSpeed(1, 2),
        DataType::SyncSpeed(-32768, 32767),
        DataType::RealSpeeds(0, 0),
        DataType::DrivenDistance(num("3.5"), num("-4.25")),
        DataType::SyncError(num("0.0000001")),
        DataType::Correction(num("-0.5"), num("12")),
        DataType::AverageSpeed(num("100"), num("0.125")),
        DataType::RGB((1, 2, 3), (-4, -5, -6)),
        DataType::CurTarSpeeds(250, 300),
    ]
}

#[test]
fn discriminants_follow_the_catalog() {
    let kinds = every_kind();
    for (i, v) in kinds.iter().enumerate() {
        assert_eq!(v.to_u8() as usize, i);
    }
    assert_eq!(DataType::Null(9).to_u8(), 0);
}

#[test]
fn widths_follow_the_table() {
    let expected: [u8; 12] = [0, 2, 1, 2, 2, 2, 2, 1, 2, 2, 6, 2];
    for d in 0u8..12 {
        assert_eq!(DataType::get_none(d), Ok(expected[d as usize]));
    }
    assert_eq!(DataType::get_none(12), Err(RecError::UnknownDiscriminant));
    assert_eq!(DataType::get_none(255), Err(RecError::UnknownDiscriminant));
}

#[test]
fn width_of_a_reading_is_the_width_of_its_kind() {
    for v in every_kind() {
        assert_eq!(Ok(v.none()), DataType::get_none(v.to_u8()));
    }
    assert_eq!(DataType::Null(4).none(), 4);
}

#[test]
fn from_repr_gives_each_kind() {
    for d in 0u8..12 {
        let v = DataType::from_repr(d).expect("a kind of the catalog");
        assert_eq!(v.to_u8(), d);
    }
    assert_eq!(DataType::from_repr(12), None);
    assert_eq!(DataType::from_repr(1), Some(DataType::Color(0, 0)));
}

#[test]
fn write_joins_the_fields() {
    assert_eq!(DataType::Color(30, -30).write(), "30, -30");
    assert_eq!(DataType::Distance(-7).write(), "-7");
    assert_eq!(DataType::SyncSpeed(-32768, 32767).write(), "-32768, 32767");
    assert_eq!(DataType::DrivenDistance(num("3.5"), num("-4.25")).write(), "3.5, -4.25");
    assert_eq!(DataType::SyncError(num("0.0000001")).write(), "0.0000001");
    assert_eq!(DataType::RGB((1, 2, 3), (-4, -5, -6)).write(), "1, 2, 3, -4, -5, -6");
    assert_eq!(DataType::CurTarSpeeds(250, 300).write(), "250, 300");
}

#[test]
fn write_of_an_empty_column_repeats_null() {
    assert_eq!(DataType::Null(0).write(), "");
    assert_eq!(DataType::Null(1).write(), "null");
    assert_eq!(DataType::Null(2).write(), "null, null");
    assert_eq!(DataType::Null(6).write(), "null, null, null, null, null, null");
}

#[test]
fn from_string_reads_the_documented_row() {
    assert_eq!(DataType::from_string("1, 30, 30".to_string()), Ok(DataType::Color(30, 30)));
}

#[test]
fn text_round_trip_for_every_kind() {
    for v in every_kind() {
        let fields = v.write();
        let row = if fields.is_empty() {
            format!("{}", v.to_u8())
        } else {
            format!("{}, {}", v.to_u8(), fields)
        };
        assert_eq!(DataType::from_string(row), Ok(v));
    }
}

#[test]
fn text_round_trip_of_floats() {
    for x in [0.5f32, 3.0, -2.75, 0.1, 1.0e-7, 16777216.0, 3.4028235e38, -0.0] {
        let text = format!("{}", x);
        let d = num(&text);
        assert_eq!(d, Real::Finite(dec(&text)));
        assert_eq!(d.to_text(), text);
        let v = DataType::SyncError(d);
        assert_eq!(DataType::from_string(format!("7, {}", v.write())), Ok(v));
        assert_eq!(d.to_text().parse::<f32>().unwrap(), x);
    }
}

#[test]
fn from_string_ignores_what_follows_the_fields() {
    assert_eq!(DataType::from_string("2, 5, 6, 7".to_string()), Ok(DataType::Distance(5)));
    assert_eq!(DataType::from_string("0, null, null".to_string()), Ok(DataType::Null(0)));
    assert_eq!(DataType::from_string("0".to_string()), Ok(DataType::Null(0)));
}

#[test]
fn from_string_refuses_an_unknown_discriminant() {
    for row in [
        "12, 1, 2",
        "255",
        "256, 1",
        "300, 1, 2",
        "+12",
        "0012, 3",
        "340282366920938463463374607431768211456, 1",
        "99999999999999999999999999999999999999999999999999, 1, 2",
    ] {
        assert_eq!(
            DataType::from_string(row.to_string()),
            Err(RecError::UnknownDiscriminant),
            "{}",
            row
        );
    }
}

#[test]
fn from_string_reads_a_discriminant_with_sign_or_zeros() {
    assert_eq!(DataType::from_string("+1, 2, 3".to_string()), Ok(DataType::Color(2, 3)));
    assert_eq!(DataType::from_string("002, 7".to_string()), Ok(DataType::Distance(7)));
    assert_eq!(DataType::from_string("011, 1, 2".to_string()), Ok(DataType::CurTarSpeeds(1, 2)));
}

#[test]
fn from_string_refuses_malformed_text() {
    for row in [
        "", "x", "-1, 2", "+", "1x, 2", "1.0, 2, 3", "1", "1, 30", "1, 30, abc", "1, 40000, 1",
        "1, 30,30", "12x",
        "2, 1.5", "7, 1e5", "7, .5", "7, 5.", "7, --1", "10, 1, 2, 3, 4, 5", " 1, 2, 3", "6, 1, ",
    ] {
        assert_eq!(DataType::from_string(row.to_string()), Err(RecError::ParseError), "{}", row);
    }
}

#[test]
fn descriptions_name_each_field() {
    assert_eq!(DataType::Null(3).write_description(), "");
    assert_eq!(DataType::Color(0, 0).write_description(), "right color, left color");
    assert_eq!(DataType::Distance(0).write_description(), "dist");
    assert_eq!(
        DataType::CalcSpeed(0, 0).write_description(),
        "right calculated v, left calculated v"
    );
    assert_eq!(DataType::SyncSpeed(0, 0).write_description(), "right synced v, left synced v");
    assert_eq!(DataType::RealSpeeds(0, 0).write_description(), "right real v, left real v");
    assert_eq!(
        DataType::DrivenDistance(Real::zero(), Real::zero()).write_description(),
        "right distance, left distance"
    );
    assert_eq!(DataType::SyncError(Real::zero()).write_description(), "sync error");
    assert_eq!(
        DataType::Correction(Real::zero(), Real::zero()).write_description(),
        "right correction, left correction"
    );
    assert_eq!(
        DataType::AverageSpeed(Real::zero(), Real::zero()).write_description(),
        "right average speed, left average speed"
    );
    assert_eq!(
        DataType::RGB((0, 0, 0), (0, 0, 0)).write_description(),
        "right r, right g, right b, left r, left g, left b"
    );
    assert_eq!(DataType::CurTarSpeeds(0, 0).write_description(), "current speed, target speed");
}

#[test]
fn decimal_text_sets_the_point() {
    assert_eq!(Decimal::new(false, 35, 1).to_text(), "3.5");
    assert_eq!(Decimal::new(true, 35, 1).to_text(), "-3.5");
    assert_eq!(Decimal::new(false, 5, 3).to_text(), "0.005");
    assert_eq!(Decimal::new(false, 0, 0).to_text(), "0");
    assert_eq!(Decimal::new(false, 1200, 0).to_text(), "1200");
    assert_eq!(Decimal::new(false, 12345, 2).to_text(), "123.45");
    assert_eq!(Decimal::new(false, u128::MAX, 0).to_text(), "340282366920938463463374607431768211455");
}

#[test]
fn decimal_is_kept_in_lowest_terms() {
    assert_eq!(Decimal::new(false, 3500, 3), Decimal { negative: false, mantissa: 35, scale: 1 });
    assert_eq!(Decimal::new(false, 0, 7), Decimal { negative: false, mantissa: 0, scale: 0 });
    assert_eq!(dec("3.50"), dec("3.5"));
    assert_eq!(dec("007"), Decimal { negative: false, mantissa: 7, scale: 0 });
    assert_eq!(dec("-0.0"), Decimal { negative: true, mantissa: 0, scale: 0 });
}

#[test]
fn decimal_from_text_refuses_what_is_no_decimal() {
    for text in ["", "-", ".", "1.", ".1", "1e3", "+1", "1.2.3", "1,5", " 1", "NaN", "inf", "0x10"] {
        assert_eq!(Decimal::from_text(text), None, "{}", text);
    }
    assert_eq!(Decimal::from_text("340282366920938463463374607431768211456"), None);
    assert!(Decimal::from_text("340282366920938463463374607431768211455").is_some());
}

#[test]
fn decimal_sum_is_exact() {
    assert_eq!(dec("3").checked_add(&dec("0.5")), Some(dec("3.5")));
    assert_eq!(dec("0.1").checked_add(&dec("0.2")), Some(dec("0.3")));
    assert_eq!(dec("0.75").checked_add(&dec("0.25")), Some(dec("1")));
    assert_eq!(dec("-1.5").checked_add(&dec("1")), Some(dec("-0.5")));
    assert_eq!(dec("1").checked_add(&dec("-1.5")), Some(dec("-0.5")));
    assert_eq!(dec("-2").checked_add(&dec("-0.125")), Some(dec("-2.125")));
    assert_eq!(dec("-1").checked_add(&dec("1")), Some(Decimal::zero()));
}

#[test]
fn decimal_sum_out_of_range_is_refused() {
    let big = dec("340282366920938463463374607431768211455");
    assert_eq!(big.checked_add(&dec("1")), None);
    assert_eq!(big.checked_add(&dec("0.5")), None);
    assert_eq!(big.checked_add(&dec("-1")), Some(dec("340282366920938463463374607431768211454")));
}

#[test]
fn readings_outside_the_numbers_have_their_text() {
    assert_eq!(Real::NotANumber.to_text(), format!("{}", f32::NAN));
    assert_eq!(Real::Infinite(false).to_text(), format!("{}", f32::INFINITY));
    assert_eq!(Real::Infinite(true).to_text(), format!("{}", f32::NEG_INFINITY));
    assert_eq!(Real::from_text("NaN"), Some(Real::NotANumber));
    assert_eq!(Real::from_text("inf"), Some(Real::Infinite(false)));
    assert_eq!(Real::from_text("-inf"), Some(Real::Infinite(true)));
    assert_eq!(Real::from_text("-2.50"), Some(Real::Finite(dec("-2.5"))));
    for text in ["nan", "Inf", "+inf", "infinity", "-NaN", "in", "inff", "", "N", "1e3"] {
        assert_eq!(Real::from_text(text), None, "{}", text);
    }
    assert_eq!(Real::zero(), Real::Finite(Decimal::zero()));
}

#[test]
fn text_round_trip_outside_the_numbers() {
    for x in [Real::NotANumber, Real::Infinite(false), Real::Infinite(true)] {
        let v = DataType::Correction(x, num("1.5"));
        assert_eq!(DataType::from_string(format!("8, {}", v.write())), Ok(v));
    }
    assert_eq!(
        DataType::DrivenDistance(Real::Infinite(true), Real::NotANumber).write(),
        "-inf, NaN"
    );
    assert_eq!(
        DataType::from_string("7, NaN".to_string()),
        Ok(DataType::SyncError(Real::NotANumber))
    );
}

#[test]
fn sums_outside_the_numbers() {
    let inf = Real::Infinite(false);
    let minus_inf = Real::Infinite(true);
    let nan = Real::NotANumber;
    let one = num("1");
    assert_eq!(one.checked_add(&num("0.5")), Some(num("1.5")));
    assert_eq!(inf.checked_add(&one), Some(inf));
    assert_eq!(one.checked_add(&minus_inf), Some(minus_inf));
    assert_eq!(inf.checked_add(&inf), Some(inf));
    assert_eq!(minus_inf.checked_add(&minus_inf), Some(minus_inf));
    assert_eq!(inf.checked_add(&minus_inf), Some(nan));
    assert_eq!(minus_inf.checked_add(&inf), Some(nan));
    assert_eq!(nan.checked_add(&one), Some(nan));
    assert_eq!(one.checked_add(&nan), Some(nan));
    assert_eq!(nan.checked_add(&inf), Some(nan));
    assert_eq!(nan.checked_add(&nan), Some(nan));
    let big = num("340282366920938463463374607431768211455");
    assert_eq!(big.checked_add(&one), None);
    for (a, b) in [(1.5f32, f32::INFINITY), (f32::INFINITY, f32::NEG_INFINITY), (f32::NAN, 2.0)] {
        let sum = num(&format!("{}", a)).checked_add(&num(&format!("{}", b)));
        assert_eq!(sum, Some(num(&format!("{}", a + b))));
    }
}
