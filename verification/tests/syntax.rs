use quix::syntax::{find_group_end, find_groups, splice};
use quix::text::chars_of;

#[test]
fn balanced_groups_are_found_leftmost_first() {
    assert_eq!(find_groups(&chars_of("")), vec![]);
    assert_eq!(find_groups(&chars_of("abc")), vec![]);
    assert_eq!(find_groups(&chars_of("{}")), vec![(0, 2)]);
    assert_eq!(find_groups(&chars_of("a{b}c")), vec![(1, 4)]);
    assert_eq!(find_groups(&chars_of("{a{b}c}")), vec![(0, 7)]);
    assert_eq!(find_groups(&chars_of("{a}{b}")), vec![(0, 3), (3, 6)]);
    assert_eq!(find_groups(&chars_of("{ {a} x")), vec![(2, 5)]);
    assert_eq!(find_groups(&chars_of("}{")), vec![]);
    assert_eq!(find_groups(&chars_of("}{}{")), vec![(1, 3)]);
    assert_eq!(find_groups(&chars_of("{{{}}")), vec![(1, 5)]);
    assert_eq!(find_groups(&chars_of("é{ü}ö")), vec![(1, 4)]);
}

#[test]
fn group_end_is_just_after_the_matching_brace() {
    let text = chars_of("x{a{b}c}y{");
    assert_eq!(find_group_end(&text, 1), Some(8));
    assert_eq!(find_group_end(&text, 3), Some(6));
    assert_eq!(find_group_end(&text, 0), None);
    assert_eq!(find_group_end(&text, 9), None);
    assert_eq!(find_group_end(&text, 10), None);
    assert_eq!(find_group_end(&text, 99), None);
}

#[test]
fn groups_are_replaced_and_the_rest_is_kept() {
    let text = chars_of("a{b}c{d}e");
    let groups = find_groups(&text);
    let out = splice(&text, &groups, &vec!["[1]".to_string(), "".to_string()]);
    assert_eq!(out, "a[1]ce");
    let same = splice(&text, &groups, &vec!["{b}".to_string(), "{d}".to_string()]);
    assert_eq!(same, "a{b}c{d}e");
    let none = splice(&text, &Vec::new(), &Vec::new());
    assert_eq!(none, "a{b}c{d}e");
}
