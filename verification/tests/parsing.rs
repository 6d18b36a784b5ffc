use number_range::{Number, NumberRange, NumberRangeOptions, ParseErrorKind};

fn default_i64(numstr: &str) -> Vec<i64> {
    NumberRange::<i64>::default()
        .parse_str(numstr)
        .unwrap()
        .collect()
}

fn default_usize_values(numstr: &str) -> Vec<usize> {
    NumberRange::<usize>::default()
        .parse_str(numstr)
        .unwrap()
        .collect()
}

fn not_a_number(kind: ParseErrorKind, text: &str, expected: &str) {
    assert_eq!(kind, ParseErrorKind::NotANumber);
    assert_eq!(text, expected);
}

fn with_list_sep_usize(numstr: &str, sep: char) -> Vec<usize> {
    NumberRangeOptions::<usize>::new()
        .with_list_sep(sep)
        .parse(numstr)
        .unwrap()
        .collect()
}

fn with_range_sep_usize(numstr: &str, sep: char) -> Vec<usize> {
    NumberRangeOptions::<usize>::new()
        .with_range_sep(sep)
        .parse(numstr)
        .unwrap()
        .collect()
}

fn with_range_sep_i64(numstr: &str, sep: char) -> Vec<i64> {
    NumberRangeOptions::<i64>::new()
        .with_range_sep(sep)
        .parse(numstr)
        .unwrap()
        .collect()
}

#[test]
fn comma_default_int_single() {
    assert_eq!(default_i64("200"), vec![200]);
}

#[test]
fn comma_default_int_negative() {
    assert_eq!(default_i64("-200"), vec![-200]);
}

#[test]
fn comma_default_int_list() {
    assert_eq!(default_i64("1,4"), vec![1, 4]);
}

#[test]
fn comma_default_int_list_with_space() {
    assert_eq!(default_i64("1, -4"), vec![1, -4]);
}

#[test]
fn comma_default_int_decimal_point() {
    let err = NumberRange::<i64>::default()
        .parse_str("1.0, 2")
        .unwrap_err();
    not_a_number(err.kind, &err.text, "1.0");
}

#[test]
fn comma_default_int_range_with_space() {
    assert_eq!(default_i64("1: 3"), vec![1, 2, 3]);
}

#[test]
fn comma_default_int_range_from_negative() {
    assert_eq!(
        default_i64(" -1:10"),
        vec![-1, 0, 1, 2, 3, 4, 5, 6, 7, 8, 9, 10]
    );
}

#[test]
fn comma_default_int_single_and_range() {
    assert_eq!(default_i64("3 , 5:10"), vec![3, 5, 6, 7, 8, 9, 10]);
}

#[test]
fn limits_test() {
    let nr1: Vec<usize> = NumberRangeOptions::<usize>::new()
        .with_range_sep('-')
        .with_default_start(0)
        .parse("-2")
        .unwrap()
        .collect();
    assert_eq!(nr1, vec![0, 1, 2]);
    let nr1: Vec<usize> = NumberRangeOptions::<usize>::new()
        .with_range_sep('-')
        .with_default_end(5)
        .parse("2-")
        .unwrap()
        .collect();
    assert_eq!(nr1, vec![2, 3, 4, 5]);
    let nr1: Vec<usize> = NumberRangeOptions::<usize>::new()
        .with_range_sep('-')
        .with_default_start(0)
        .with_default_end(5)
        .parse("-")
        .unwrap()
        .collect();
    assert_eq!(nr1, vec![0, 1, 2, 3, 4, 5]);
}

#[test]
fn default_usize_single() {
    assert_eq!(default_usize_values("200"), vec![200]);
}

#[test]
fn default_usize_list() {
    assert_eq!(default_usize_values("1,4"), vec![1, 4]);
}

#[test]
fn default_usize_negative() {
    let err = NumberRange::<usize>::default()
        .parse_str("1,-4")
        .unwrap_err();
    not_a_number(err.kind, &err.text, "-4");
}

#[test]
fn default_usize_empty_first() {
    let err = NumberRange::<usize>::default()
        .parse_str(",4")
        .unwrap_err();
    not_a_number(err.kind, &err.text, "");
}

#[test]
fn default_usize_empty_middle() {
    let err = NumberRange::<usize>::default()
        .parse_str("1,,4")
        .unwrap_err();
    not_a_number(err.kind, &err.text, "");
}

#[test]
fn default_usize_empty_last() {
    let err = NumberRange::<usize>::default()
        .parse_str("1,4,")
        .unwrap_err();
    not_a_number(err.kind, &err.text, "");
}

#[test]
fn default_usize_decimal_point() {
    let err = NumberRange::<usize>::default()
        .parse_str("1,4.0")
        .unwrap_err();
    not_a_number(err.kind, &err.text, "4.0");
}

#[test]
fn default_usize_short_range() {
    assert_eq!(default_usize_values("1:3"), vec![1, 2, 3]);
}

#[test]
fn default_usize_long_range() {
    assert_eq!(
        default_usize_values("1:10"),
        vec![1, 2, 3, 4, 5, 6, 7, 8, 9, 10]
    );
}

#[test]
fn comma_test_sep_usize_single() {
    assert_eq!(with_list_sep_usize("200", ','), vec![200]);
}

#[test]
fn comma_test_sep_usize_comma() {
    assert_eq!(with_list_sep_usize("1,4", ','), vec![1, 4]);
}

#[test]
fn comma_test_sep_usize_colon() {
    assert_eq!(with_list_sep_usize("1:4", ':'), vec![1, 4]);
}

#[test]
fn comma_test_sep_usize_colon_three() {
    assert_eq!(with_list_sep_usize("1:4:4", ':'), vec![1, 4, 4]);
}

#[test]
fn comma_test_sep_usize_slash() {
    assert_eq!(with_list_sep_usize("1/4", '/'), vec![1, 4]);
}

#[test]
fn comma_test_sep_usize_double_dash() {
    let err = NumberRangeOptions::<usize>::new()
        .with_list_sep('-')
        .parse("1--4")
        .unwrap_err();
    not_a_number(err.kind, &err.text, "");
}

#[test]
fn comma_test_sep_usize_negative() {
    let err = NumberRangeOptions::<usize>::new()
        .with_list_sep(':')
        .parse("1,-4")
        .unwrap_err();
    not_a_number(err.kind, &err.text, "1,-4");
}

#[test]
fn comma_test_range_usize_single() {
    assert_eq!(with_range_sep_usize("200", '-'), vec![200]);
}

#[test]
fn comma_test_range_usize_dash() {
    assert_eq!(with_range_sep_usize("1-4", '-'), vec![1, 2, 3, 4]);
}

#[test]
fn comma_test_range_usize_step() {
    assert_eq!(with_range_sep_usize("1:3:4", ':'), vec![1, 4]);
}

#[test]
fn comma_test_range_usize_negative_step() {
    let err = NumberRangeOptions::<usize>::new()
        .with_range_sep(':')
        .parse("4:-3:1")
        .unwrap_err();
    not_a_number(err.kind, &err.text, "-3");
}

#[test]
fn comma_test_range_usize_double_dash() {
    // two separators: the empty step stands for 1, so the values are not none
    let values = with_range_sep_usize("1--4", '-');
    assert_ne!(values, Vec::<usize>::new());
    assert_eq!(values, vec![1, 2, 3, 4]);
}

#[test]
fn comma_test_range_i64_single() {
    assert_eq!(with_range_sep_i64("200", '-'), vec![200]);
}

#[test]
fn comma_test_range_i64_dash() {
    assert_eq!(with_range_sep_i64("1-4", '-'), vec![1, 2, 3, 4]);
}

#[test]
fn comma_test_range_i64_step() {
    assert_eq!(with_range_sep_i64("1:3:4", ':'), vec![1, 4]);
}

#[test]
fn comma_test_range_i64_negative_step() {
    assert_eq!(with_range_sep_i64("4:-3:1", ':'), vec![4, 1]);
}

#[test]
fn comma_test_range_i64_from_negative() {
    assert_eq!(with_range_sep_i64("-4:1", ':'), vec![-4, -3, -2, -1, 0, 1]);
}

#[test]
fn comma_test_range_i64_downwards_without_step() {
    assert_eq!(with_range_sep_i64("1:-4", ':'), Vec::<i64>::new());
}

#[test]
fn comma_test_empty_range() {
    assert_eq!(
        NumberRange::<i64>::default()
            .parse_str("")
            .unwrap()
            .collect(),
        Vec::<i64>::new()
    );
    // a second reading replaces the terms of the first
    let rng = NumberRange::<i64>::default().parse_str("1:10").unwrap();
    assert_eq!(rng.parse_str("").unwrap().collect(), Vec::<i64>::new());
}

#[test]
fn reparse_replaces_terms() {
    let rng = NumberRange::<i64>::default().parse_str("1:10").unwrap();
    let rng = rng.parse_str("7,8").unwrap();
    assert_eq!(rng.numbers.len(), 2);
    assert_eq!(rng.original(), "7,8");
    assert_eq!(rng.collect(), vec![7, 8]);
}

#[test]
fn single_term_yields_itself() {
    for n in [0i64, 1, -1, 42, -9000, i64::MAX, i64::MIN] {
        let text = n.to_string();
        let rng = NumberRange::<i64>::default().parse_str(&text).unwrap();
        assert_eq!(rng.numbers.len(), 1);
        assert_eq!(rng.numbers[0], Number::Single(n));
        assert_eq!(rng.collect(), vec![n]);
    }
}

#[test]
fn unit_range_counts_up() {
    assert_eq!(default_i64("3:7"), vec![3, 4, 5, 6, 7]);
    assert_eq!(default_i64("-2:2"), vec![-2, -1, 0, 1, 2]);
    assert_eq!(default_i64("5:5"), vec![5]);
}

#[test]
fn unit_range_downwards_is_empty() {
    let rng = NumberRange::<i64>::default().parse_str("4:1").unwrap();
    assert_eq!(rng.numbers.len(), 1);
    assert_eq!(rng.numbers[0], Number::Range(4, 1, 1));
    assert_eq!(rng.collect(), Vec::<i64>::new());
}

#[test]
fn explicit_negative_step_counts_down() {
    assert_eq!(default_i64("4:-1:1"), vec![4, 3, 2, 1]);
}

#[test]
fn stepped_range_stops_at_or_before_end() {
    assert_eq!(default_i64("1:4:10"), vec![1, 5, 9]);
    assert_eq!(default_i64("10:-4:4"), vec![10, 6]);
    assert_eq!(default_i64("1:3:10"), vec![1, 4, 7, 10]);
    assert_eq!(default_i64("0:100:99"), vec![0]);
}

#[test]
fn zero_step_is_read_and_yields_nothing() {
    let rng = NumberRange::<i64>::default().parse_str("1:0:5").unwrap();
    assert_eq!(rng.numbers[0], Number::Range(1, 0, 5));
    assert_eq!(rng.collect(), Vec::<i64>::new());
}

#[test]
fn empty_step_defaults_to_one() {
    let rng = NumberRangeOptions::<i64>::new()
        .with_default_start(2)
        .with_default_end(4)
        .parse("::")
        .unwrap();
    assert_eq!(rng.numbers[0], Number::Range(2, 1, 4));
    assert_eq!(rng.collect(), vec![2, 3, 4]);
    assert_eq!(default_i64("1::3"), vec![1, 2, 3]);
}

#[test]
fn empty_input_has_no_terms() {
    let rng = NumberRange::<i64>::default().parse_str("").unwrap();
    assert_eq!(rng.numbers.len(), 0);
    assert_eq!(rng.collect(), Vec::<i64>::new());
    let rng = NumberRange::<i64>::default().parse_str(" \t ").unwrap();
    assert_eq!(rng.numbers.len(), 0);
    let rng = NumberRange::<i64>::default().parse_str("_").unwrap();
    assert_eq!(rng.numbers.len(), 0);
}

#[test]
fn too_many_separators_is_an_error() {
    let err = NumberRangeOptions::<usize>::new()
        .with_range_sep('-')
        .parse("1---4")
        .unwrap_err();
    assert_eq!(err.kind, ParseErrorKind::TooManySeparators('-'));
    assert_eq!(err.text, "1---4");
    let err = NumberRange::<i64>::default()
        .parse_str("1,2:3:4:5,x")
        .unwrap_err();
    assert_eq!(err.kind, ParseErrorKind::TooManySeparators(':'));
    assert_eq!(err.text, "2:3:4:5");
}

#[test]
fn defaults_fill_empty_bounds() {
    let with_start: Vec<usize> = NumberRangeOptions::<usize>::new()
        .with_range_sep('-')
        .with_default_start(1)
        .parse("-4")
        .unwrap()
        .collect();
    assert_eq!(with_start, vec![1, 2, 3, 4]);
    let with_end: Vec<usize> = NumberRangeOptions::<usize>::new()
        .with_range_sep('-')
        .with_default_end(5)
        .parse("2-")
        .unwrap()
        .collect();
    assert_eq!(with_end, vec![2, 3, 4, 5]);
    let with_both: Vec<usize> = NumberRangeOptions::<usize>::new()
        .with_range_sep('-')
        .with_default_start(1)
        .with_default_end(5)
        .parse("-")
        .unwrap()
        .collect();
    assert_eq!(with_both, vec![1, 2, 3, 4, 5]);
    let listed: Vec<usize> = NumberRangeOptions::<usize>::new()
        .with_list_sep(',')
        .with_range_sep('-')
        .with_default_start(1)
        .parse("-4,14")
        .unwrap()
        .collect();
    assert_eq!(listed, vec![1, 2, 3, 4, 14]);
}

#[test]
fn missing_bound_without_default_is_an_error() {
    let err = NumberRangeOptions::<usize>::new()
        .with_range_sep('-')
        .with_default_start(1)
        .parse("2-")
        .unwrap_err();
    assert_eq!(err.kind, ParseErrorKind::NotANumber);
    assert_eq!(err.text, "");
    let err = NumberRange::<i64>::default().parse_str(":4").unwrap_err();
    assert_eq!(err.kind, ParseErrorKind::NotANumber);
}

#[test]
fn single_value_ignores_defaults() {
    let err = NumberRangeOptions::<usize>::new()
        .with_default_start(1)
        .with_default_end(9)
        .parse("1,,4")
        .unwrap_err();
    assert_eq!(err.kind, ParseErrorKind::NotANumber);
    assert_eq!(err.text, "");
}

#[test]
fn localized_numbers() {
    let options = NumberRangeOptions::<usize>::new()
        .with_list_sep('/')
        .with_range_sep('-')
        .with_group_sep(',')
        .with_whitespace(true);
    let rng: Vec<usize> = options.parse("1,200/1, 400, 230").unwrap().collect();
    assert_eq!(rng, vec![1200, 1400230]);
    let holder = NumberRange::from_options(options);
    assert_eq!(holder.sanitize_number("1,200"), "1200");
    assert_eq!(holder.sanitize_number("1, 400, 230"), "1400230");
}

#[test]
fn interior_whitespace_needs_the_flag() {
    let err = NumberRange::<i64>::default().parse_str("1 000").unwrap_err();
    assert_eq!(err.kind, ParseErrorKind::NotANumber);
    assert_eq!(err.text, "1 000");
    let rng: Vec<i64> = NumberRangeOptions::<i64>::new()
        .with_whitespace(true)
        .parse("1 000, - 7")
        .unwrap()
        .collect();
    assert_eq!(rng, vec![1000, -7]);
}

#[test]
fn group_separator_is_removed() {
    assert_eq!(default_i64("1_000_000,2_0"), vec![1000000, 20]);
    assert_eq!(default_i64("1___0:1_2"), vec![10, 11, 12]);
}

#[test]
fn decimal_separator_becomes_a_point() {
    let holder = NumberRange::from_options(NumberRangeOptions::<i64>::new().with_decimal_sep(';'));
    assert_eq!(holder.sanitize_number(" 1;5 "), "1.5");
    let err = NumberRangeOptions::<i64>::new()
        .with_decimal_sep(';')
        .parse("1;5")
        .unwrap_err();
    assert_eq!(err.kind, ParseErrorKind::NotANumber);
    assert_eq!(err.text, "1;5");
}

#[test]
fn sanitize_order_is_trim_group_whitespace_decimal() {
    let holder = NumberRange::from_options(
        NumberRangeOptions::<i64>::new()
            .with_group_sep(' ')
            .with_whitespace(false),
    );
    assert_eq!(holder.sanitize_number("  1 2\t3  "), "12\t3");
    let holder = NumberRange::from_options(
        NumberRangeOptions::<i64>::new()
            .with_group_sep('.')
            .with_decimal_sep('.'),
    );
    assert_eq!(holder.sanitize_number("1.000.000"), "1000000");
    let holder = NumberRange::from_options(
        NumberRangeOptions::<i64>::new()
            .with_group_sep('x')
            .with_whitespace(true)
            .with_decimal_sep(','),
    );
    assert_eq!(holder.sanitize_number("\u{a0}1x0 0\u{3000}0,5\n"), "1000.5");
}

#[test]
fn parse_number_uses_default_only_when_empty() {
    let holder = NumberRange::<i64>::default();
    assert_eq!(holder.parse_number("", &Some(7)).unwrap(), 7);
    assert_eq!(holder.parse_number(" _ ", &Some(7)).unwrap(), 7);
    assert_eq!(holder.parse_number("3", &Some(7)).unwrap(), 3);
    let err = holder.parse_number(" ", &None).unwrap_err();
    assert_eq!(err.kind, ParseErrorKind::NotANumber);
    assert_eq!(err.text, " ");
    let err = holder.parse_number("x", &Some(7)).unwrap_err();
    assert_eq!(err.text, "x");
}

#[test]
fn error_names_the_number_as_written() {
    let err = NumberRange::<i64>::default()
        .parse_str("1, 2_x :5")
        .unwrap_err();
    assert_eq!(err.kind, ParseErrorKind::NotANumber);
    assert_eq!(err.text, " 2_x ");
}

#[test]
fn first_error_wins() {
    let err = NumberRange::<i64>::default()
        .parse_str("a:b,c")
        .unwrap_err();
    assert_eq!(err.text, "a");
    let err = NumberRange::<i64>::default()
        .parse_str("1:b:c")
        .unwrap_err();
    assert_eq!(err.text, "b");
    let err = NumberRange::<i64>::default()
        .parse_str("1:2:c,d")
        .unwrap_err();
    assert_eq!(err.text, "c");
}

#[test]
fn nothing_to_parse_without_a_text() {
    let err = NumberRange::<i64>::default().parse().unwrap_err();
    assert_eq!(err.kind, ParseErrorKind::NothingToParse);
    assert_eq!(err.text, "");
    assert_eq!(err.to_string(), "Nothing to Parse");
}

#[test]
fn original_is_the_last_text() {
    let rng = NumberRange::<i64>::default();
    assert_eq!(rng.original(), "");
    let mut rng = rng.parse_str("1:3, 9").unwrap();
    assert_eq!(rng.original(), "1:3, 9");
    rng.next();
    rng.numbers.push_back(Number::Single(4));
    assert_eq!(rng.original(), "1:3, 9");
}

#[test]
fn same_separator_for_list_and_range() {
    let rng: Vec<i64> = NumberRangeOptions::<i64>::new()
        .with_list_sep(':')
        .parse("1:4")
        .unwrap()
        .collect();
    assert_eq!(rng, vec![1, 4]);
}

#[test]
fn options_are_kept_by_the_range() {
    let rng = NumberRangeOptions::<i64>::new()
        .with_list_sep(';')
        .with_range_sep('~')
        .with_group_sep('\'')
        .with_decimal_sep(',')
        .with_whitespace(true)
        .with_default_start(-3)
        .with_default_end(3)
        .parse("~")
        .unwrap();
    assert_eq!(rng.options.list_sep, ';');
    assert_eq!(rng.options.range_sep, '~');
    assert_eq!(rng.options.group_sep, '\'');
    assert_eq!(rng.options.decimal_sep, ',');
    assert!(rng.options.whitespace);
    assert_eq!(rng.options.default_start, Some(-3));
    assert_eq!(rng.options.default_end, Some(3));
    assert_eq!(rng.collect(), vec![-3, -2, -1, 0, 1, 2, 3]);
}

#[test]
fn default_options_values() {
    let options = NumberRangeOptions::<u8>::default();
    assert_eq!(options.list_sep, ',');
    assert_eq!(options.range_sep, ':');
    assert_eq!(options.decimal_sep, '.');
    assert_eq!(options.group_sep, '_');
    assert!(!options.whitespace);
    assert_eq!(options.default_start, None);
    assert_eq!(options.default_end, None);
    let fresh = NumberRangeOptions::<u8>::new();
    assert_eq!(fresh.list_sep, options.list_sep);
    assert_eq!(fresh.range_sep, options.range_sep);
}
