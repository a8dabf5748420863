use raydium_amm_bot::binary64::Binary64;
use raydium_amm_bot::decimal::{parse_binary64, parse_u64};

fn check_number(text: &str) {
    match (parse_binary64(text), text.parse::<f64>()) {
        (Some(x), Ok(y)) => {
            if y.is_nan() {
                assert!(x.is_nan(), "{}", text);
            } else {
                assert_eq!(x.bits, y.to_bits(), "{}", text);
            }
        }
        (None, Err(_)) => {}
        _ => panic!("{}", text),
    }
}

#[test]
fn numbers_read_as_the_standard_library_reads_them() {
    let texts = vec![
        "0", "-0", "+0", "1", "1.0", "0.1", "5.0", "100.0", ".5", "5.", "-.5", "+5.", "1e3", "1E3",
        "1e+3", "1e-3", "1.5e10", "2.2250738585072011e-308", "4.9e-324", "2.4703282292062327e-324",
        "2.4703282292062328e-324", "1.7976931348623157e308", "1.7976931348623159e308", "1e309",
        "1e400", "1e401", "-1e500", "1e-400", "1e-401", "1e99999999999999999999999999999999999",
        "1e-99999999999999999999999999999999999", "0e99999999999999999999999999999999999",
        "9007199254740993", "9007199254740992.9999999", "123456789012345678901234567890",
        "0.000000000000000000000000000000000000000001", "inf", "INF", "-inf", "Infinity",
        "-INFINITY", "nan", "NaN", "-nan", "3.14159265358979323846264338327950288",
        "179769313486231580793728971405301199", "00000000000000000000000000000000000001.5",
    ];
    for text in texts {
        check_number(text);
    }
}

#[test]
fn texts_that_are_no_numbers() {
    let texts = vec![
        "", ".", "+", "-", "+-1", "1e", "1e+", "e5", ".e5", "1.2.3", "1e5.0", "1e5e5", " 1", "1 ",
        "0x10", "in", "infin", "infinityy", "nanx", "1_000", "--1", "1,5", "\u{661}", "i\u{4e}f",
    ];
    for text in texts {
        check_number(text);
    }
}

#[test]
fn generated_numbers() {
    let mut seed: u64 = 11;
    for _ in 0..200 {
        seed = seed.wrapping_mul(6364136223846793005).wrapping_add(1442695040888963407);
        let exp = (seed >> 40) as i64 % 340;
        let text = format!("{}.{}e{}", seed >> 33, seed % 1_000_003, exp - 170);
        check_number(&text);
    }
}

#[test]
fn long_texts() {
    let mut text = String::new();
    for _ in 0..400 {
        text.push('7');
    }
    check_number(&text);
    text.push_str("e-800");
    check_number(&text);
    let mut small = String::from("0.");
    for _ in 0..400 {
        small.push('0');
    }
    small.push('3');
    check_number(&small);
    small.push_str("e401");
    check_number(&small);
}

#[test]
fn unsigned_integers() {
    let texts = vec![
        "0", "7", "+7", "-7", "-0", "", "+", "18446744073709551615", "18446744073709551616",
        "99999999999999999999", "00012", "1.0", "1e3", " 1", "1 ", "200000", "++1", "12a",
    ];
    for text in texts {
        assert_eq!(parse_u64(text), text.parse::<u64>().ok(), "{}", text);
    }
}

#[test]
fn digits_read_as_integers() {
    for n in [0u64, 7, 100, 98765432109876, 9007199254740993, u64::MAX] {
        let x = parse_binary64(&n.to_string()).unwrap();
        assert_eq!(x.bits, Binary64::from_u64(n).bits);
        assert_eq!(parse_u64(&n.to_string()), Some(n));
    }
}
