use number_range::{Number, NumberRange, NumberRangeOptions};

fn drain_i64(terms: Vec<Number<i64>>) -> Vec<i64> {
    let mut rng = NumberRange::<i64>::default();
    for term in terms {
        rng.numbers.push_back(term);
    }
    rng.collect()
}

#[test]
fn validity_of_terms() {
    assert!(Number::Single(1).is_valid());
    assert!(Number::Range(3, 2, 6).is_valid());
    assert!(Number::Range(-4, 1, -2).is_valid());
    assert!(Number::Range(6, -2, 3).is_valid());
    assert!(Number::Range(5, 1, 5).is_valid());
    assert!(Number::Range(5, -1, 5).is_valid());
    assert!(Number::Range(3, -2, 6).is_invalid());
    assert!(Number::Range(4, 1, 2).is_invalid());
    assert!(Number::Range(1, 0, 2).is_invalid());
    assert!(Number::Range(2, 0, 2).is_invalid());
    assert!(!Number::Single(0u8).is_invalid());
    assert!(!Number::Range(4, 1, 2).is_valid());
    assert!(Number::Range(0u8, 255, 255).is_valid());
}

#[test]
fn advance_moves_one_step_or_ends() {
    assert_eq!(Number::Single(4).advance(), None);
    assert_eq!(
        Number::Range(1, 4, 10).advance(),
        Some(Number::Range(5, 4, 10))
    );
    assert_eq!(
        Number::Range(5, 4, 10).advance(),
        Some(Number::Range(9, 4, 10))
    );
    assert_eq!(Number::Range(9, 4, 10).advance(), None);
    assert_eq!(Number::Range(6, 4, 10).advance(), Some(Number::Range(10, 4, 10)));
    assert_eq!(Number::Range(10, -4, 4).advance(), Some(Number::Range(6, -4, 4)));
    assert_eq!(Number::Range(6, -4, 4).advance(), None);
    assert_eq!(Number::Range(5, 1, 5).advance(), None);
    assert_eq!(Number::Range(5, -1, 5).advance(), None);
}

#[test]
fn advance_at_the_edge_of_the_type() {
    assert_eq!(Number::Range(250u8, 10, 255).advance(), None);
    assert_eq!(Number::Range(255u8, 1, 255).advance(), None);
    assert_eq!(Number::Range(i64::MAX - 1, 2, i64::MAX).advance(), None);
    assert_eq!(Number::Range(i64::MIN + 1, -2, i64::MIN).advance(), None);
    assert_eq!(
        Number::Range(i8::MIN + 1, -1, i8::MIN).advance(),
        Some(Number::Range(i8::MIN, -1, i8::MIN))
    );
    assert_eq!(
        Number::Range(0u64, u64::MAX, u64::MAX).advance(),
        Some(Number::Range(u64::MAX, u64::MAX, u64::MAX))
    );
    assert_eq!(Number::Range(1u64, u64::MAX, u64::MAX).advance(), None);
}

#[test]
fn ranges_up_to_the_largest_value_end() {
    let all: Vec<u8> = NumberRange::<u8>::default()
        .parse_str("250:255")
        .unwrap()
        .collect();
    assert_eq!(all, vec![250, 251, 252, 253, 254, 255]);
    let stepped: Vec<u8> = NumberRange::<u8>::default()
        .parse_str("0:100:255")
        .unwrap()
        .collect();
    assert_eq!(stepped, vec![0, 100, 200]);
    let down: Vec<i8> = NumberRange::<i8>::default()
        .parse_str("-126:-1:-128")
        .unwrap()
        .collect();
    assert_eq!(down, vec![-126, -127, -128]);
    let top: Vec<i64> = drain_i64(vec![Number::Range(i64::MAX - 3, 2, i64::MAX)]);
    assert_eq!(top, vec![i64::MAX - 3, i64::MAX - 1]);
    let whole: Vec<u8> = NumberRange::<u8>::default()
        .parse_str("0:255")
        .unwrap()
        .collect();
    assert_eq!(whole.len(), 256);
    assert_eq!(whole[0], 0);
    assert_eq!(whole[255], 255);
}

#[test]
fn widest_types_end_at_their_edge() {
    assert_eq!(
        Number::Range(u128::MAX - 1, 1, u128::MAX).advance(),
        Some(Number::Range(u128::MAX, 1, u128::MAX))
    );
    assert_eq!(Number::Range(u128::MAX, 1, u128::MAX).advance(), None);
    assert_eq!(Number::Range(u128::MAX, u128::MAX, u128::MAX).advance(), None);
    assert_eq!(Number::Range(i128::MIN, -1, i128::MIN).advance(), None);
    assert_eq!(Number::Range(i128::MIN, i128::MIN, i128::MIN).advance(), None);
    assert_eq!(Number::Range(i128::MAX, i128::MAX, i128::MAX).advance(), None);
    let top: Vec<u128> = NumberRange::<u128>::default()
        .parse_str(
            "340282366920938463463374607431768211453:340282366920938463463374607431768211455",
        )
        .unwrap()
        .collect();
    assert_eq!(top, vec![u128::MAX - 2, u128::MAX - 1, u128::MAX]);
    let bottom: Vec<i128> = NumberRange::<i128>::default()
        .parse_str(
            "-170141183460469231731687303715884105726:-1:\
             -170141183460469231731687303715884105728",
        )
        .unwrap()
        .collect();
    assert_eq!(bottom, vec![i128::MIN + 2, i128::MIN + 1, i128::MIN]);
}

#[test]
fn values_come_in_term_order() {
    assert_eq!(
        drain_i64(vec![
            Number::Range(5, -2, 0),
            Number::Single(7),
            Number::Range(1, 1, 3),
            Number::Single(-7),
        ]),
        vec![5, 3, 1, 7, 1, 2, 3, -7]
    );
}

#[test]
fn invalid_ranges_are_skipped() {
    assert_eq!(
        drain_i64(vec![
            Number::Range(3, -2, 6),
            Number::Range(4, 1, 2),
            Number::Single(9),
            Number::Range(1, 0, 5),
            Number::Range(2, 5, 2),
            Number::Range(8, 1, 7),
        ]),
        vec![9, 2]
    );
    assert_eq!(
        drain_i64(vec![Number::Range(3, -2, 6), Number::Range(1, 0, 5)]),
        Vec::<i64>::new()
    );
}

#[test]
fn skipped_ranges_are_removed_by_the_pull() {
    let mut rng = NumberRange::<i64>::default();
    rng.numbers.push_back(Number::Range(3, -2, 6));
    rng.numbers.push_back(Number::Range(1, 0, 5));
    rng.numbers.push_back(Number::Range(1, 1, 2));
    rng.numbers.push_back(Number::Range(9, 1, 8));
    assert_eq!(rng.next(), Some(1));
    assert_eq!(rng.numbers.len(), 2);
    assert_eq!(rng.numbers[0], Number::Range(2, 1, 2));
    assert_eq!(rng.next(), Some(2));
    assert_eq!(rng.numbers.len(), 1);
    assert_eq!(rng.numbers[0], Number::Range(9, 1, 8));
    assert_eq!(rng.next(), None);
    assert_eq!(rng.numbers.len(), 0);
}

#[test]
fn degenerate_range_yields_once() {
    assert_eq!(drain_i64(vec![Number::Range(5, 1, 5)]), vec![5]);
    assert_eq!(drain_i64(vec![Number::Range(5, -1, 5)]), vec![5]);
    assert_eq!(drain_i64(vec![Number::Range(5, 100, 5)]), vec![5]);
    assert_eq!(drain_i64(vec![Number::Range(5, 0, 5)]), Vec::<i64>::new());
}

#[test]
fn end_of_sequence_is_repeatable() {
    let mut rng = NumberRange::<i64>::default().parse_str("1:2").unwrap();
    assert_eq!(rng.next(), Some(1));
    assert_eq!(rng.next(), Some(2));
    for _ in 0..5 {
        assert_eq!(rng.next(), None);
        assert_eq!(rng.numbers.len(), 0);
        assert_eq!(rng.to_string(), "");
    }
    let mut empty = NumberRange::<u32>::default();
    assert_eq!(empty.next(), None);
    assert_eq!(empty.next(), None);
}

#[test]
fn pulling_resumes_after_a_push() {
    let mut rng = NumberRange::<i64>::default().parse_str("1").unwrap();
    assert_eq!(rng.next(), Some(1));
    assert_eq!(rng.next(), None);
    rng.numbers.push_back(Number::Range(10, 5, 20));
    rng.numbers.push_front(Number::Single(-1));
    assert_eq!(rng.next(), Some(-1));
    assert_eq!(rng.next(), Some(10));
    assert_eq!(rng.next(), Some(15));
    assert_eq!(rng.next(), Some(20));
    assert_eq!(rng.next(), None);
}

#[test]
fn pull_keeps_options_and_text() {
    let mut rng = NumberRangeOptions::<i64>::new()
        .with_list_sep(';')
        .parse("1;2")
        .unwrap();
    rng.next();
    assert_eq!(rng.options.list_sep, ';');
    assert_eq!(rng.original(), "1;2");
}

#[test]
fn collect_after_some_pulls_gives_the_rest() {
    let mut rng = NumberRange::<i64>::default()
        .parse_str("1:3,10:-5:0")
        .unwrap();
    assert_eq!(rng.next(), Some(1));
    assert_eq!(rng.next(), Some(2));
    assert_eq!(rng.collect(), vec![3, 10, 5, 0]);
}

#[test]
fn count_of_a_stepped_range() {
    let up: Vec<i64> = drain_i64(vec![Number::Range(0, 7, 100)]);
    assert_eq!(up.len(), 15);
    assert_eq!(up[14], 98);
    let down: Vec<i64> = drain_i64(vec![Number::Range(100, -7, -3)]);
    assert_eq!(down.len(), 15);
    assert_eq!(down[14], 2);
    let exact: Vec<i64> = drain_i64(vec![Number::Range(-10, 5, 10)]);
    assert_eq!(exact, vec![-10, -5, 0, 5, 10]);
}
