use blocks::text::{int_to_string, is_whitespace, parse_int, parse_number_list};

#[test]
fn parse_int_reads_what_std_reads() {
    let samples = [
        "", "+", "-", "0", "-0", "+0", "+5", "-5", "007", "-007", "2147483647", "2147483648",
        "+2147483647", "-2147483648", "-2147483649", "12a", "a12", " 1", "1 ", "--1", "+-1", "1-",
        "99999999999999999999", "-99999999999999999999", "00000000000000000000001", "1_000",
        "0x10", "१२", "٣", "1.0", "$int1", "__temp_0__",
    ];
    for s in samples.iter() {
        assert_eq!(parse_int(s), s.parse::<i32>().ok(), "input {:?}", s);
    }
}

#[test]
fn parse_int_reads_back_every_written_number() {
    let mut values: Vec<i32> = vec![i32::MIN, i32::MIN + 1, i32::MAX, i32::MAX - 1];
    let mut n: i32 = -5000;
    while n <= 5000 {
        values.push(n);
        n += 1;
    }
    let mut m: i64 = 1;
    while m < i32::MAX as i64 {
        values.push(m as i32);
        values.push(-(m as i32));
        m = m * 7 + 3;
    }
    for v in values {
        assert_eq!(parse_int(&int_to_string(v)), Some(v));
    }
}

#[test]
fn int_to_string_writes_decimal() {
    assert_eq!(int_to_string(0), "0");
    assert_eq!(int_to_string(7), "7");
    assert_eq!(int_to_string(-1), "-1");
    assert_eq!(int_to_string(128), "128");
    assert_eq!(int_to_string(i32::MAX), "2147483647");
    assert_eq!(int_to_string(i32::MIN), "-2147483648");
    let mut n: i32 = -3000;
    while n <= 3000 {
        assert_eq!(int_to_string(n), format!("{}", n));
        n += 1;
    }
}

#[test]
fn whitespace_is_the_unicode_set() {
    let mut code: u32 = 0;
    while code <= 0x10FFFF {
        if let Some(c) = char::from_u32(code) {
            assert_eq!(is_whitespace(c), c.is_whitespace(), "char {:?}", c);
        }
        code += 1;
    }
}

#[test]
fn number_list_splits_at_whitespace() {
    assert_eq!(parse_number_list("10 7 0 10 8 0 29 -1"), Some(vec![10, 7, 0, 10, 8, 0, 29, -1]));
    assert_eq!(parse_number_list(""), Some(vec![]));
    assert_eq!(parse_number_list("   \n\t "), Some(vec![]));
    assert_eq!(parse_number_list("  5\t6\n"), Some(vec![5, 6]));
    assert_eq!(parse_number_list("+3"), Some(vec![3]));
    assert_eq!(parse_number_list("1 two 3"), None);
    assert_eq!(parse_number_list("two"), None);
    assert_eq!(parse_number_list("1 2 2147483648"), None);
}
