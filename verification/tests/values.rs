use lib::basics::{range_values, spaced_numbers, str_slice, sub_slice};
use lib::basics::{add_one, count_to_with_label, describe_number, loop_break_value, parity};
use lib::countdown::Countdown;
use lib::errors::{chain_calls, find_user, might_fail, might_fail_generic, AppError, GenericError};
use lib::generics_traits::largest;
use lib::iterators::{
    doubled, evens, find_number, find_with_predicate, first, max_of, scale, square, sum,
    sum_of_squares, tens_of_first_two_above_one,
};
use lib::modules_demo::add;
use lib::numbers::{IntErrorKind, ParseIntError};
use lib::patterns::{describe_nested, describe_pair, describe_user, range_binding, User};
use lib::shapes::{first_n, FixedBuffer, Rectangle};
use lib::collections::Scores;

#[test]
fn add_and_add_one() {
    assert_eq!(add(2, 3), 5);
    assert_eq!(add(-7, 7), 0);
    assert_eq!(add_one(5), 6);
    assert_eq!(add_one(-1), 0);
}

#[test]
fn parity_of_numbers() {
    assert_eq!(parity(7), "odd");
    assert_eq!(parity(0), "even");
    assert_eq!(parity(-3), "odd");
    assert_eq!(parity(-4), "even");
}

#[test]
fn describe_number_arms() {
    assert_eq!(describe_number(1), "one");
    assert_eq!(describe_number(3), "two or three");
    assert_eq!(describe_number(2), "two or three");
    assert_eq!(describe_number(5), "four through six");
    assert_eq!(describe_number(-5), "negative: -5");
    assert_eq!(describe_number(7), "something else");
    assert_eq!(describe_number(0), "something else");
}

#[test]
fn loops_with_break() {
    assert_eq!(loop_break_value(5), 10);
    assert_eq!(loop_break_value(1), 2);
    assert_eq!(count_to_with_label(3), 3);
    assert_eq!(count_to_with_label(0), 0);
}

#[test]
fn rectangle_square_area_and_double() {
    let rect = Rectangle { width: 30, height: 50 };
    assert_eq!(rect.area(), 1500);
    let mut sq = Rectangle::square(10);
    assert_eq!(sq, Rectangle { width: 10, height: 10 });
    sq.double();
    assert_eq!(sq.area(), 400);
}

#[test]
fn doubling_a_rectangle_quadruples_its_area() {
    let mut r = Rectangle { width: 3, height: 7 };
    let before = r.area();
    r.double();
    assert_eq!(r.area(), 4 * before);
}

#[test]
fn const_generic_helpers() {
    assert_eq!(first_n([1, 2, 3]), 1);
    assert_eq!(first_n([9]), 9);
    let buf = FixedBuffer::<16>::new();
    assert_eq!(buf.len(), 16);
    assert_eq!(FixedBuffer::<0>::new().len(), 0);
}

#[test]
fn might_fail_and_chain() {
    assert_eq!(might_fail(true).unwrap(), 42);
    assert_eq!(might_fail(false).unwrap_err().0, "something went wrong");
    assert_eq!(chain_calls().unwrap(), 84);
}

#[test]
fn find_user_outcomes() {
    assert_eq!(find_user("1").unwrap(), "Alice");
    match find_user("99") {
        Err(AppError::NotFound(id)) => assert_eq!(id, "99"),
        other => panic!("unexpected {:?}", other),
    }
    match find_user("abc") {
        Err(AppError::Parse(e)) => assert_eq!(e, ParseIntError { kind: IntErrorKind::InvalidDigit }),
        other => panic!("unexpected {:?}", other),
    }
    match find_user("") {
        Err(AppError::Parse(e)) => assert_eq!(e.kind(), IntErrorKind::Empty),
        other => panic!("unexpected {:?}", other),
    }
    assert_eq!(find_user("+1").unwrap(), "Alice");
}

#[test]
fn app_error_messages() {
    assert_eq!(find_user("99").unwrap_err().message(), "not found: 99");
    assert_eq!(find_user("abc").unwrap_err().message(), "parse error: invalid digit found in string");
    let e: AppError = ParseIntError { kind: IntErrorKind::PosOverflow }.into();
    assert_eq!(e.message(), "parse error: number too large to fit in target type");
}

#[test]
fn might_fail_generic_outcomes() {
    assert_eq!(might_fail_generic(5).unwrap(), 15);
    assert_eq!(might_fail_generic(0).unwrap(), 10);
    match might_fail_generic(-1) {
        Err(e @ GenericError::Message(_)) => assert_eq!(e.message(), "x must be non-negative"),
        other => panic!("unexpected {:?}", other),
    }
}

#[test]
fn largest_of_numbers_and_chars() {
    assert_eq!(largest(&[34, 50, 25, 100, 65]), 100);
    assert_eq!(largest(&['y', 'm', 'a', 'q']), 'y');
    assert_eq!(largest(&[-3]), -3);
    assert_eq!(largest(&[2, 2, 1]), 2);
}

#[test]
fn max_and_square() {
    assert_eq!(max_of(&[3, 7, 2, 9, 1]), 9);
    assert_eq!(max_of(&[-5]), -5);
    assert_eq!(square(5), 25);
    assert_eq!(square(-4), 16);
    assert_eq!(scale(5, 3), 15);
}

#[test]
fn iterator_pipelines() {
    let v = [1, 2, 3, 4, 5];
    assert_eq!(doubled(&v), vec![2, 4, 6, 8, 10]);
    assert_eq!(evens(&v), vec![2, 4]);
    assert_eq!(sum(&v), 15);
    assert_eq!(sum_of_squares(&v), 55);
    assert_eq!(tens_of_first_two_above_one(&v), vec![20, 30]);
    assert_eq!(tens_of_first_two_above_one(&[5, 0, -1]), vec![50]);
    assert_eq!(tens_of_first_two_above_one(&[]), Vec::<i32>::new());
    // only the values taken are multiplied
    assert_eq!(tens_of_first_two_above_one(&[2, 3, i32::MAX]), vec![20, 30]);
    assert_eq!(evens(&[-2, -1, 0]), vec![-2, 0]);
    assert_eq!(sum(&[]), 0);
}

#[test]
fn searching() {
    let numbers = [10, 20, 30];
    assert_eq!(find_number(&numbers, 20), Some(&20));
    assert_eq!(find_number(&numbers, 25), None);
    let items = [1, 4, 7, 10, 13];
    assert_eq!(find_with_predicate(&items, |x| *x > 8), Some(&10));
    assert_eq!(find_with_predicate(&items, |x| *x > 100), None);
    assert_eq!(first(10, 20), 10);
    assert_eq!(first("hello", "world"), "hello");
}

#[test]
fn countdown_yields_then_stops() {
    let mut cd = Countdown(2);
    assert_eq!(cd.next(), Some(2));
    assert_eq!(cd.next(), Some(1));
    assert_eq!(cd.next(), None);
    assert_eq!(cd.next(), None);
    assert_eq!(Countdown(5).collect_all(), vec![5, 4, 3, 2, 1]);
    assert_eq!(Countdown(0).collect_all(), Vec::<u32>::new());
}

#[test]
fn countdown_sum_and_doubled() {
    assert_eq!(Countdown(3).sum_all(), 6);
    assert_eq!(Countdown(100).sum_all(), 5050);
    assert_eq!(Countdown(3).doubled(), vec![6, 4, 2]);
}

#[test]
fn pattern_descriptions() {
    assert_eq!(range_binding(5), "got 5, in range 1..=5");
    assert_eq!(range_binding(6), "out of range");
    assert_eq!(range_binding(0), "out of range");
    assert_eq!(describe_user(User { name: "Ana".into(), age: 30 }), "Ana is a young adult");
    assert_eq!(describe_user(User { name: "Bo".into(), age: 31 }), "Bo is some other age");
    assert_eq!(describe_pair(1, -1), "1 and -1 are opposites");
    assert_eq!(describe_pair(0, 5), "first is zero, y=5");
    assert_eq!(describe_pair(4, 0), "second is zero, x=4");
    assert_eq!(describe_pair(2, 3), "no special relationship");
    assert_eq!(describe_pair(0, i32::MIN), "first is zero, y=-2147483648");
    assert_eq!(describe_nested(Some(Ok(10))), "nested ok: 10");
    assert_eq!(describe_nested(Some(Err("bad".into()))), "nested err: bad");
    assert_eq!(describe_nested(None), "nothing at all");
}

#[test]
fn scores_entry_pattern() {
    let mut scores = Scores::new();
    assert_eq!(scores.insert(String::from("Blue"), 10), None);
    assert_eq!(scores.insert(String::from("Red"), 50), None);
    assert_eq!(scores.or_insert(String::from("Blue"), 0), 10);
    scores.add_to_entry(String::from("Green"), 0, 1);
    assert_eq!(scores.get(&String::from("Blue")), Some(10));
    assert_eq!(scores.get(&String::from("Green")), Some(1));
    assert_eq!(scores.get(&String::from("Yellow")), None);
    assert_eq!(scores.len(), 3);
    scores.add_to_entry(String::from("Green"), 0, 1);
    assert_eq!(scores.get(&String::from("Green")), Some(2));
    assert_eq!(scores.insert(String::from("Red"), 7), Some(50));
    assert_eq!(scores.len(), 3);
    let (name, score) = scores.entry_at(1);
    assert_eq!((name.as_str(), score), ("Red", 7));
}

#[test]
fn countdown_gives_n_values_then_none_for_good() {
    let n = 4u32;
    let mut cd = Countdown(n);
    for k in 0..10u32 {
        let expected = if k < n { Some(n - k) } else { None };
        assert_eq!(cd.next(), expected);
    }
    assert_eq!(cd, Countdown(0));
}

#[test]
fn largest_returns_an_element_of_the_list() {
    let chars = ['y', 'm', 'a', 'q'];
    assert!(chars.contains(&largest(&chars)));
    let words = ["pear", "apple", "zoo"];
    assert_eq!(largest(&words), "zoo");
}

#[test]
fn shadowing_adds_then_doubles() {
    assert_eq!(lib::basics::shadowed(5), 12);
    assert_eq!(lib::basics::shadowed(-1), 0);
}

#[test]
fn ranges_and_spaced_lines() {
    assert_eq!(range_values(0, 5, false), vec![0, 1, 2, 3, 4]);
    assert_eq!(range_values(0, 5, true), vec![0, 1, 2, 3, 4, 5]);
    assert_eq!(range_values(3, 3, false), Vec::<i32>::new());
    assert_eq!(range_values(3, 3, true), vec![3]);
    assert_eq!(range_values(5, 0, true), Vec::<i32>::new());
    assert_eq!(range_values(i32::MAX - 1, i32::MAX, true), vec![i32::MAX - 1, i32::MAX]);
    assert_eq!(spaced_numbers(&range_values(0, 5, false)), "0 1 2 3 4 ");
    assert_eq!(spaced_numbers(&[10, 20, 30]), "10 20 30 ");
    assert_eq!(spaced_numbers(&[-7]), "-7 ");
    assert_eq!(spaced_numbers(&[]), "");
}

#[test]
fn slices_of_text_and_lists() {
    let s = "hello world";
    assert_eq!(str_slice(s, 0, 5), "hello");
    assert_eq!(str_slice(s, 6, 11), "world");
    assert_eq!(str_slice("héllo", 1, 3), "é");
    assert_eq!(str_slice("abc", 2, 2), "");
    assert_eq!(sub_slice(&[1, 2, 3, 4, 5], 1, 3), &[2, 3]);
    assert_eq!(sub_slice(&[10, 20, 30, 40, 50], 1, 4), &[20, 30, 40]);
}

#[test]
fn scores_positions_list_each_name_once() {
    let mut scores = Scores::new();
    scores.insert(String::from("Blue"), 10);
    scores.insert(String::from("Red"), 50);
    scores.insert(String::from("Blue"), 11);
    let mut names: Vec<String> = (0..scores.len()).map(|i| scores.entry_at(i).0.clone()).collect();
    names.sort();
    assert_eq!(names, vec!["Blue".to_string(), "Red".to_string()]);
}
