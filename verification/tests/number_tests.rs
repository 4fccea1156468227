use odbc_stream::odbc::number::whole_number;
use odbc_stream::odbc::util::field_to_value;
use odbc_stream::odbc::value::FieldValue;

fn expected(x: f64) -> Option<i64> {
    if x.fract() == 0.0 {
        Some(x as i64)
    } else {
        None
    }
}

fn read(text: &str) -> Option<u64> {
    text.parse::<f64>().ok().map(|x| x.to_bits())
}

fn coerce(text: &str) -> FieldValue {
    field_to_value(text.as_bytes(), read(text))
}

#[test]
fn whole_numbers_are_read_as_integers() {
    assert_eq!(whole_number(0.0f64.to_bits()), Some(0));
    assert_eq!(whole_number((-0.0f64).to_bits()), Some(0));
    assert_eq!(whole_number(1.0f64.to_bits()), Some(1));
    assert_eq!(whole_number((-1.0f64).to_bits()), Some(-1));
    assert_eq!(whole_number(42.0f64.to_bits()), Some(42));
    assert_eq!(whole_number(1e15f64.to_bits()), Some(1_000_000_000_000_000));
    assert_eq!(whole_number(4503599627370496.0f64.to_bits()), Some(4503599627370496));
    assert_eq!(whole_number(9007199254740992.0f64.to_bits()), Some(9007199254740992));
    assert_eq!(whole_number((-9007199254740994.0f64).to_bits()), Some(-9007199254740994));
}

#[test]
fn numbers_with_a_fraction_are_no_integers() {
    assert_eq!(whole_number(42.5f64.to_bits()), None);
    assert_eq!(whole_number(0.1f64.to_bits()), None);
    assert_eq!(whole_number((-1.5f64).to_bits()), None);
    assert_eq!(whole_number(4503599627370495.5f64.to_bits()), None);
    assert_eq!(whole_number(f64::MIN_POSITIVE.to_bits()), None);
    assert_eq!(whole_number(5e-324f64.to_bits()), None);
    assert_eq!(whole_number(1u64), None);
}

#[test]
fn numbers_out_of_range_saturate() {
    assert_eq!(whole_number(1e30f64.to_bits()), Some(i64::MAX));
    assert_eq!(whole_number((-1e30f64).to_bits()), Some(i64::MIN));
    assert_eq!(whole_number(9223372036854775808.0f64.to_bits()), Some(i64::MAX));
    assert_eq!(whole_number((-9223372036854775808.0f64).to_bits()), Some(i64::MIN));
    assert_eq!(whole_number(9223372036854774784.0f64.to_bits()), Some(9223372036854774784));
    assert_eq!(whole_number(f64::MAX.to_bits()), Some(i64::MAX));
    assert_eq!(whole_number(f64::MIN.to_bits()), Some(i64::MIN));
}

#[test]
fn numbers_that_are_not_finite_are_no_integers() {
    assert_eq!(whole_number(f64::INFINITY.to_bits()), None);
    assert_eq!(whole_number(f64::NEG_INFINITY.to_bits()), None);
    assert_eq!(whole_number(f64::NAN.to_bits()), None);
    assert_eq!(whole_number(0x7ff0_0000_0000_0001), None);
    assert_eq!(whole_number(0xfff8_0000_0000_0000), None);
}

#[test]
fn whole_number_agrees_with_the_machine_on_many_patterns() {
    let mut state: u64 = 0x9e37_79b9_7f4a_7c15;
    let mut count = 0;
    while count < 200_000 {
        state = state.wrapping_mul(6364136223846793005).wrapping_add(1442695040888963407);
        let bits = state ^ (state >> 29);
        let x = f64::from_bits(bits);
        assert_eq!(whole_number(bits), expected(x), "bits {:#x}", bits);
        count += 1;
    }
}

#[test]
fn whole_number_agrees_with_the_machine_around_every_exponent() {
    let mut exponent: u64 = 0;
    while exponent < 2048 {
        let fractions = [
            0u64,
            1,
            2,
            3,
            0x8_0000_0000_0000,
            0x8_0000_0000_0001,
            0xf_ffff_ffff_ffff,
            0xf_ffff_ffff_fffe,
            0x4_0000_0000_0000,
            0x0_0000_0010_0000,
            0x0_0000_0000_0400,
            0xa_aaaa_aaaa_aaaa,
        ];
        for fraction in fractions {
            for sign in [0u64, 1u64] {
                let bits = (sign << 63) | (exponent << 52) | fraction;
                let x = f64::from_bits(bits);
                assert_eq!(whole_number(bits), expected(x), "bits {:#x}", bits);
            }
        }
        exponent += 1;
    }
}

#[test]
fn a_whole_number_coerces_to_an_integer() {
    assert_eq!(coerce("42"), FieldValue::Integer(42));
    assert_eq!(coerce("-7"), FieldValue::Integer(-7));
    assert_eq!(coerce("42.0"), FieldValue::Integer(42));
    assert_eq!(coerce("1e3"), FieldValue::Integer(1000));
    assert_eq!(coerce("0"), FieldValue::Integer(0));
    assert_eq!(coerce("-0"), FieldValue::Integer(0));
    assert_eq!(coerce("1e-400"), FieldValue::Integer(0));
    assert_eq!(coerce("1e30"), FieldValue::Integer(i64::MAX));
}

#[test]
fn text_that_looks_like_a_number_is_coerced_too() {
    assert_eq!(coerce("02139"), FieldValue::Integer(2139));
}

#[test]
fn a_number_with_a_fraction_stays_a_float() {
    assert_eq!(coerce("42.5"), FieldValue::Float(42.5f64.to_bits()));
    assert_eq!(coerce("-0.25"), FieldValue::Float((-0.25f64).to_bits()));
    assert_eq!(coerce("0.1"), FieldValue::Float(0.1f64.to_bits()));
}

#[test]
fn a_number_that_is_not_finite_has_no_value() {
    assert_eq!(coerce("inf"), FieldValue::Null);
    assert_eq!(coerce("-inf"), FieldValue::Null);
    assert_eq!(coerce("NaN"), FieldValue::Null);
    assert_eq!(coerce("1e400"), FieldValue::Null);
}

#[test]
fn text_that_is_no_number_stays_text() {
    assert_eq!(coerce("abc"), FieldValue::Text("abc".to_string()));
    assert_eq!(coerce(""), FieldValue::Text(String::new()));
    assert_eq!(coerce("12abc"), FieldValue::Text("12abc".to_string()));
    assert_eq!(coerce("Test"), FieldValue::Text("Test".to_string()));
}

#[test]
fn bytes_that_are_no_text_are_repaired() {
    let value = field_to_value(&[0x61, 0xff, 0x62], None);
    assert_eq!(value, FieldValue::Text("a\u{fffd}b".to_string()));
    let value = field_to_value("gr\u{fc}n".as_bytes(), None);
    assert_eq!(value, FieldValue::Text("gr\u{fc}n".to_string()));
}

#[test]
fn a_duplicate_stands_for_the_same_value() {
    let values = [
        FieldValue::Integer(-3),
        FieldValue::Float(1.5f64.to_bits()),
        FieldValue::Null,
        FieldValue::Text("x".to_string()),
    ];
    for value in values.iter() {
        assert_eq!(&value.duplicate(), value);
    }
}
