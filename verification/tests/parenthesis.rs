use workbook::parenthesis::solve;

#[test]
fn test_solve() {
    let ans = solve(vec!['(', ')', '(', ')', '(', ')', '(', ')', '(', ')']);
    assert_eq!(ans, true);
}

#[test]
fn empty_string_is_balanced() {
    assert_eq!(solve(vec![]), true);
}

#[test]
fn nested_parentheses_are_balanced() {
    assert_eq!(solve(vec!['(', '(', ')', '(', ')', ')']), true);
}

#[test]
fn closing_first_is_not_balanced() {
    assert_eq!(solve(vec![')', '(']), false);
}

#[test]
fn left_open_is_not_balanced() {
    assert_eq!(solve(vec!['(', '(', ')']), false);
}

#[test]
fn other_characters_count_as_closing() {
    assert_eq!(solve(vec!['(', 'x']), true);
    assert_eq!(solve(vec!['x']), false);
}
