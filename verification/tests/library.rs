use min_reducer::optional::call_constructor;
use min_reducer::optional::SomethingOrNothing;
use min_reducer::reader::parse_i32;
use min_reducer::reader::read_all;
use min_reducer::reducer::min_i32;
use min_reducer::reducer::read_vec;
use min_reducer::reducer::Minimum;
use min_reducer::render::render_i32;
use min_reducer::render::u64_to_decimal;
use min_reducer::vec_min;

fn unwrap_min(r: SomethingOrNothing<i32>) -> i32 {
    match r.to_option() {
        Some(v) => v,
        None => panic!("expected Something"),
    }
}

#[test]
fn reduce_sample_is_five() {
    let r = vec_min(vec![18, 5, 7, 9, 27]);
    assert_eq!(unwrap_min(r), 5);
}

#[test]
fn reduce_empty_is_nothing() {
    let r = vec_min(Vec::<i32>::new());
    assert!(matches!(r, SomethingOrNothing::Nothing));
    assert_eq!(r.display(), "The number is: <nothing>");
}

#[test]
fn reduce_nothing_iff_empty() {
    assert!(matches!(vec_min(Vec::<i32>::new()), SomethingOrNothing::Nothing));
    assert!(matches!(vec_min(vec![42]), SomethingOrNothing::Something(42)));
}

#[test]
fn reduce_single_element() {
    let r = vec_min(vec![-3]);
    assert_eq!(unwrap_min(r), -3);
}

#[test]
fn reduce_minimum_is_element_below_all() {
    let v = vec![9, -2, 14, -2, 0];
    let m = unwrap_min(vec_min(v.clone()));
    assert!(v.contains(&m));
    assert!(v.iter().all(|e| m <= *e));
}

#[test]
fn reduce_permutation_same_value() {
    let a = unwrap_min(vec_min(vec![18, 5, 7, 9, 27]));
    let b = unwrap_min(vec_min(vec![27, 9, 7, 5, 18]));
    let c = unwrap_min(vec_min(vec![5, 18, 27, 7, 9]));
    assert_eq!(a, b);
    assert_eq!(b, c);
}

#[test]
fn reduce_twice_same_result() {
    let v = vec![6, 6, 1, 8];
    let first = unwrap_min(vec_min(v.clone()));
    let second = unwrap_min(vec_min(v));
    assert_eq!(first, second);
}

#[test]
fn reduce_with_equal_keys() {
    let r = vec_min(vec![4, 4, 4]);
    assert_eq!(unwrap_min(r), 4);
}

#[test]
fn reduce_extremes() {
    let r = vec_min(vec![i32::MAX, 0, i32::MIN]);
    assert_eq!(unwrap_min(r), i32::MIN);
}

#[test]
fn sample_vector_contents() {
    assert_eq!(read_vec(), vec![18, 5, 7, 9, 27]);
}

#[test]
fn min_i32_picks_smaller() {
    assert_eq!(min_i32(3, 8), 3);
    assert_eq!(min_i32(8, 3), 3);
    assert_eq!(min_i32(-1, -1), -1);
}

#[test]
fn minimum_capability_for_i32() {
    assert_eq!(Minimum::min(2, 9), 2);
    assert_eq!(Minimum::min(9, 2), 2);
    assert_eq!(Minimum::min(-5, -5), -5);
}

#[test]
fn optional_round_trip() {
    let r = SomethingOrNothing::new(Some(5));
    assert_eq!(r.to_option(), Some(5));
    let n = SomethingOrNothing::<i32>::new(None);
    assert_eq!(n.to_option(), None);
}

#[test]
fn constructor_wraps_value() {
    assert_eq!(call_constructor(7).to_option(), Some(7));
}

#[test]
fn display_something() {
    let r = vec_min(vec![18, 5, 7, 9, 27]);
    assert_eq!(r.display(), "The number is: 5");
    assert_eq!(SomethingOrNothing::Something(-42).display(), "The number is: -42");
}

#[test]
fn render_decimal() {
    assert_eq!(u64_to_decimal(0), "0");
    assert_eq!(u64_to_decimal(10), "10");
    assert_eq!(u64_to_decimal(90210), "90210");
    assert_eq!(render_i32(0), "0");
    assert_eq!(render_i32(-123), "-123");
    assert_eq!(render_i32(i32::MIN), "-2147483648");
    assert_eq!(render_i32(i32::MAX), "2147483647");
}

#[test]
fn read_all_skips_malformed_lines() {
    let lines: Vec<String> =
        ["18", "5", "abc", "7", "", "9", "27"].iter().map(|s| s.to_string()).collect();
    let values = read_all(&lines);
    assert_eq!(values, vec![18, 5, 7, 9, 27]);
    // one diagnostic notice is owed per skipped line
    assert_eq!(lines.len() - values.len(), 2);
}

#[test]
fn read_all_empty_input() {
    assert_eq!(read_all(&Vec::new()), Vec::<i32>::new());
}

#[test]
fn parse_plain_and_trimmed() {
    assert_eq!(parse_i32("18"), Some(18));
    assert_eq!(parse_i32("  42\t"), Some(42));
    assert_eq!(parse_i32("\r\n7\n"), Some(7));
    assert_eq!(parse_i32("007"), Some(7));
}

#[test]
fn parse_negative() {
    assert_eq!(parse_i32("-7"), Some(-7));
    assert_eq!(parse_i32(" -0 "), Some(0));
}

#[test]
fn parse_range_limits() {
    assert_eq!(parse_i32("2147483647"), Some(i32::MAX));
    assert_eq!(parse_i32("2147483648"), None);
    assert_eq!(parse_i32("-2147483648"), Some(i32::MIN));
    assert_eq!(parse_i32("-2147483649"), None);
    assert_eq!(parse_i32("99999999999999999999999999"), None);
}

#[test]
fn parse_rejects_malformed() {
    assert_eq!(parse_i32(""), None);
    assert_eq!(parse_i32("   "), None);
    assert_eq!(parse_i32("-"), None);
    assert_eq!(parse_i32("abc"), None);
    assert_eq!(parse_i32("1a"), None);
    assert_eq!(parse_i32("a1"), None);
    assert_eq!(parse_i32("+5"), None);
    assert_eq!(parse_i32("1 2"), None);
    assert_eq!(parse_i32("--4"), None);
}
