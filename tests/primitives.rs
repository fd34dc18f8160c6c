use utxo_ledger::primitives::Primitives;

#[test]
fn test_integer_max_values() {
    assert_eq!(Primitives::get_max_i8(), 127);
    assert_eq!(Primitives::get_max_u8(), 255);
    assert_eq!(Primitives::get_min_i8(), -128);
    assert_eq!(Primitives::get_min_u8(), 0);
}

#[test]
fn test_integer_operations() {
    let a: i32 = 10;
    let b: i32 = 3;

    assert_eq!(Primitives::add_integers(a, b), 13);
    assert_eq!(Primitives::subtract_integers(a, b), 7);
    assert_eq!(Primitives::multiply_integers(a, b), 30);
    assert_eq!(Primitives::divide_integers(a, b), 3);
    assert_eq!(Primitives::remainder_integers(a, b), 1);
}

#[test]
fn test_integer_wrapping() {
    let max_u8: u8 = u8::MAX;
    assert_eq!(Primitives::wrapping_add_u8(max_u8, 1), 0);
}

#[test]
fn test_bitwise_operations() {
    assert_eq!(Primitives::bitwise_and(0b1010, 0b1100), 0b1000);
    assert_eq!(Primitives::bitwise_or(0b1010, 0b1100), 0b1110);
    assert_eq!(Primitives::bitwise_xor(0b1010, 0b1100), 0b0110);
    assert_eq!(Primitives::bitwise_not(0b00000000), 0b11111111);
    assert_eq!(Primitives::bitwise_not(0b11111111), 0b00000000);
    assert_eq!(Primitives::left_shift(0b00000001, 1), 0b00000010);
    assert_eq!(Primitives::left_shift(0b00000001, 7), 0b10000000);
    assert_eq!(Primitives::right_shift(0b10000000, 1), 0b01000000);
    assert_eq!(Primitives::right_shift(0b10000000, 7), 0b00000001);
}

#[test]
fn test_checked_and_saturating_operations() {
    assert_eq!(Primitives::checked_add(200, 56), None);
    assert_eq!(Primitives::checked_add(200, 50), Some(250));
    assert_eq!(Primitives::saturating_add(200, 100), 255);
    assert_eq!(Primitives::saturating_add(100, 50), 150);
}

#[test]
fn test_integer_memory_sizes() {
    assert_eq!(std::mem::size_of::<u8>(), 1);
    assert_eq!(std::mem::size_of::<u16>(), 2);
    assert_eq!(std::mem::size_of::<u32>(), 4);
    assert_eq!(std::mem::size_of::<u64>(), 8);
    assert_eq!(std::mem::size_of::<u128>(), 16);
}

#[test]
fn test_float_rounding_errors() {
    let sum = (0..10).map(|_| 0.1).sum::<f64>();
    assert!(sum != 1.0);
    assert!((sum - 1.0).abs() < 1e-10);
}

#[test]
fn test_logical_operations() {
    assert_eq!(Primitives::logical_and(true, true), true);
    assert_eq!(Primitives::logical_and(true, false), false);
    assert_eq!(Primitives::logical_and(false, true), false);
    assert_eq!(Primitives::logical_and(false, false), false);

    assert_eq!(Primitives::logical_or(true, true), true);
    assert_eq!(Primitives::logical_or(true, false), true);
    assert_eq!(Primitives::logical_or(false, true), true);
    assert_eq!(Primitives::logical_or(false, false), false);

    assert_eq!(Primitives::logical_not(true), false);
    assert_eq!(Primitives::logical_not(false), true);
}

#[test]
#[allow(unused_assignments)]
fn test_short_circuit_evaluation() {
    let mut counter: i32 = 0;
    let result = false && {
        counter += 1;
        true
    };
    assert_eq!(result, false);
    assert_eq!(counter, 0);

    let mut counter: i32 = 0;
    let result = true || {
        counter += 1;
        false
    };
    assert_eq!(result, true);
    assert_eq!(counter, 0);
}

#[test]
#[allow(clippy::nonminimal_bool)]
fn test_complex_boolean_expressions() {
    let a = true;
    let b = false;

    assert_eq!(!(a && b), !a || !b);
    assert_eq!(!(a || b), !a && !b);
    assert_eq!(true || false && false, true);
    assert_eq!((true || false) && false, false);
}

#[test]
fn test_comparison_operations() {
    let a: i32 = 10;
    let b: i32 = 20;

    assert_eq!(Primitives::is_equal(a, a), true);
    assert_eq!(Primitives::is_equal(a, b), false);

    assert_eq!(Primitives::is_not_equal(a, b), true);
    assert_eq!(Primitives::is_not_equal(a, a), false);

    assert_eq!(Primitives::is_greater(b, a), true);
    assert_eq!(Primitives::is_greater(a, b), false);

    assert_eq!(Primitives::is_less(a, b), true);
    assert_eq!(Primitives::is_less(b, a), false);

    assert_eq!(Primitives::is_greater_or_equal(b, a), true);
    assert_eq!(Primitives::is_greater_or_equal(a, a), true);
    assert_eq!(Primitives::is_greater_or_equal(a, b), false);

    assert_eq!(Primitives::is_less_or_equal(a, b), true);
    assert_eq!(Primitives::is_less_or_equal(a, a), true);
    assert_eq!(Primitives::is_less_or_equal(b, a), false);
}

#[test]
fn test_even_odd() {
    assert_eq!(Primitives::is_even(2), true);
    assert_eq!(Primitives::is_even(3), false);
    assert_eq!(Primitives::is_even(0), true);
    assert_eq!(Primitives::is_even(-2), true);
    assert_eq!(Primitives::is_even(-3), false);
}

#[test]
fn test_char_size() {
    assert_eq!(std::mem::size_of::<char>(), 4);
}

#[test]
fn test_char_to_unicode() {
    assert_eq!(Primitives::char_to_unicode('z'), 0x007A);
    assert_eq!(Primitives::char_to_unicode('\u{1F980}'), 0x1F980);
    assert_eq!(Primitives::char_to_unicode('\u{2764}'), 0x2764);
}

#[test]
fn test_char_operations() {
    assert!('a' < 'b');
    assert!('Z' < 'a');

    assert_eq!('A' as u8, 65);
    assert_eq!('0' as u8, 48);

    assert_eq!(char::from(65), 'A');
    assert_eq!(char::from(48), '0');
}

#[test]
fn test_char_properties() {
    assert!(Primitives::is_char_alphabetic('a'));
    assert!(Primitives::is_char_alphabetic('Z'));
    assert!(!Primitives::is_char_alphabetic('1'));
    assert!(!Primitives::is_char_alphabetic(' '));

    assert!(Primitives::is_char_numeric('1'));
    assert!(Primitives::is_char_numeric('0'));
    assert!(!Primitives::is_char_numeric('a'));
    assert!(!Primitives::is_char_numeric(' '));

    assert!(Primitives::is_char_whitespace(' '));
    assert!(Primitives::is_char_whitespace('\t'));
    assert!(Primitives::is_char_whitespace('\n'));
    assert!(!Primitives::is_char_whitespace('a'));

    assert!(Primitives::is_char_ascii('a'));
    assert!(Primitives::is_char_ascii('1'));
    assert!(Primitives::is_char_ascii(' '));
    assert!(!Primitives::is_char_ascii('\u{1F980}'));
}

#[test]
fn test_char_case_conversion() {
    assert_eq!(Primitives::char_to_lowercase('A'), 'a');
    assert_eq!(Primitives::char_to_lowercase('Z'), 'z');
    assert_eq!(Primitives::char_to_lowercase('a'), 'a');
    assert_eq!(Primitives::char_to_lowercase('1'), '1');

    assert_eq!(Primitives::char_to_uppercase('a'), 'A');
    assert_eq!(Primitives::char_to_uppercase('z'), 'Z');
    assert_eq!(Primitives::char_to_uppercase('A'), 'A');
    assert_eq!(Primitives::char_to_uppercase('1'), '1');
}

#[test]
fn test_char_string_conversion() {
    assert_eq!('a'.to_string(), "a");
    assert_eq!('\u{1F980}'.to_string(), "\u{1F980}");

    let s = "a";
    assert_eq!(s.chars().next().unwrap(), 'a');

    let emoji = "\u{1F980}";
    assert_eq!(emoji.chars().next().unwrap(), '\u{1F980}');
}

#[test]
fn test_array_operations() {
    let array = Primitives::create_array();

    assert_eq!(array[0], 1);
    assert_eq!(array[4], 5);
    assert_eq!(array.len(), 5);

    assert_eq!(Primitives::get_array_element(&array, 2), Some(3));
    assert_eq!(Primitives::get_array_element(&array, 10), None);

    let slice = Primitives::get_array_slice(&array, 1, 4);
    assert_eq!(slice, &[2, 3, 4]);

    assert_eq!(Primitives::sum_array(&array), 15);
}

#[test]
fn test_array_creation() {
    let repeated = Primitives::create_repeated_array(42, 3);
    assert_eq!(repeated, vec![42, 42, 42]);

    let arr1 = [1, 2, 3];
    let arr2 = [4, 5, 6];
    let concatenated = Primitives::concatenate_arrays(&arr1, &arr2);
    assert_eq!(concatenated, vec![1, 2, 3, 4, 5, 6]);
}

#[test]
fn test_array_bounds_checking() {
    let array = Primitives::create_array();

    assert!(array.get(10).is_none());
    assert!(array.get(0).is_some());
    assert!(array.get(4).is_some());
    assert_eq!(array.len(), 5);
}

#[test]
fn test_string_operations() {
    assert_eq!(Primitives::string_length("hello"), 5);
    assert_eq!(Primitives::string_length("\u{1F980}"), 4);

    assert_eq!(Primitives::string_char_count("hello"), 5);
    assert_eq!(Primitives::string_char_count("\u{1F980}"), 1);

    assert_eq!(Primitives::string_concatenate("hello", " world"), "hello world");

    assert!(Primitives::string_contains("hello world", "world"));
    assert!(!Primitives::string_contains("hello world", "rust"));

    assert_eq!(Primitives::string_to_uppercase("hello"), "HELLO");
    assert_eq!(Primitives::string_to_lowercase("HELLO"), "hello");
}

#[test]
fn test_string_conversions() {
    assert_eq!(Primitives::i32_to_string(42), "42");
    assert_eq!(Primitives::i32_to_string(-42), "-42");

    assert_eq!(Primitives::string_to_i32("42"), Ok(42));
    assert_eq!(Primitives::string_to_i32("-42"), Ok(-42));
    assert!(Primitives::string_to_i32("not a number").is_err());
}

#[test]
fn test_integer_operations_with_negative_numbers() {
    assert_eq!(Primitives::add_integers(-10, -5), -15);
    assert_eq!(Primitives::subtract_integers(-10, 5), -15);
    assert_eq!(Primitives::multiply_integers(-10, -5), 50);
    assert_eq!(Primitives::multiply_integers(-10, 5), -50);
    assert_eq!(Primitives::divide_integers(-10, 5), -2);
    assert_eq!(Primitives::remainder_integers(-10, 3), -1);
}

#[test]
fn division_rounds_toward_zero() {
    assert_eq!(Primitives::divide_integers(-7, 2), -3);
    assert_eq!(Primitives::divide_integers(7, -2), -3);
    assert_eq!(Primitives::divide_integers(-7, -2), 3);
    assert_eq!(Primitives::remainder_integers(7, -2), 1);
    assert_eq!(Primitives::remainder_integers(-7, -2), -1);
}

#[test]
fn parse_accepts_sign_and_rejects_range() {
    assert_eq!(Primitives::string_to_i32("+17"), Ok(17));
    assert_eq!(Primitives::string_to_i32("-2147483648"), Ok(i32::MIN));
    assert!(Primitives::string_to_i32("2147483648").is_err());
    assert!(Primitives::string_to_i32("").is_err());
    assert!(Primitives::string_to_i32("-").is_err());
}

#[test]
fn case_mapping_changes_the_text() {
    assert_eq!(Primitives::string_to_uppercase("MiXeD 1"), "MIXED 1");
    assert_eq!(Primitives::string_to_lowercase("MiXeD 1"), "mixed 1");
    assert_eq!(Primitives::i32_to_string(0), "0");
}
