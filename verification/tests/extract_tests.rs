use donations::extract::{extract_raised_goal, match_ranges};

#[test]
fn two_tokens_in_document_order() {
    let page = "Raised: $250 of $1,000 goal";
    let (raised, goal) = extract_raised_goal(page);
    assert_eq!(raised, "$250");
    assert_eq!(goal, "$1,000");
}

#[test]
fn ranges_of_two_tokens() {
    let page = "Raised: $250 of $1,000 goal";
    let ranges = match_ranges(page);
    assert_eq!(ranges, vec![(8, 12), (16, 22)]);
}

#[test]
fn scan_is_deterministic_across_runs() {
    let page = "a $1 b $2.50 c $3,000 d";
    let first = match_ranges(page);
    let second = match_ranges(page);
    assert_eq!(first, second);
    let texts_first = extract_raised_goal(page);
    let texts_second = extract_raised_goal(page);
    assert_eq!(texts_first, texts_second);
}

#[test]
fn no_tokens_defaults() {
    let (raised, goal) = extract_raised_goal("no money here");
    assert_eq!(raised, "$0");
    assert_eq!(goal, "$0");
    assert_eq!(match_ranges("no money here"), vec![]);
}

#[test]
fn one_token_defaults_goal() {
    let (raised, goal) = extract_raised_goal("gimme $500 now");
    assert_eq!(raised, "$500");
    assert_eq!(goal, "$0");
}

#[test]
fn space_after_sign_is_part_of_token() {
    let (raised, goal) = extract_raised_goal("$ 500");
    assert_eq!(raised, "$ 500");
    assert_eq!(goal, "$0");
}

#[test]
fn two_spaces_after_sign_is_no_token() {
    let (raised, goal) = extract_raised_goal("$  500");
    assert_eq!(raised, "$0");
    assert_eq!(goal, "$0");
}

#[test]
fn fraction_needs_a_digit() {
    let (raised, goal) = extract_raised_goal("pay $12. now");
    assert_eq!(raised, "$12");
    assert_eq!(goal, "$0");
}

#[test]
fn second_dot_ends_the_token() {
    let (raised, goal) = extract_raised_goal("$5.5.5");
    assert_eq!(raised, "$5.5");
    assert_eq!(goal, "$0");
}

#[test]
fn comma_only_body_is_no_token() {
    // A body must hold at least one digit: "$," is no currency token,
    // so the first real token is the raised one.
    let (raised, goal) = extract_raised_goal("$, and $3");
    assert_eq!(raised, "$3");
    assert_eq!(goal, "$0");
    assert_eq!(match_ranges("$,"), vec![]);
    let (raised_alone, goal_alone) = extract_raised_goal("$,");
    assert_eq!(raised_alone, "$0");
    assert_eq!(goal_alone, "$0");
}

#[test]
fn comma_led_body_with_a_digit_is_a_token() {
    let (raised, goal) = extract_raised_goal("$,5 then $1,000");
    assert_eq!(raised, "$,5");
    assert_eq!(goal, "$1,000");
}

#[test]
fn bare_sign_is_no_token() {
    let (raised, goal) = extract_raised_goal("$ and then $7");
    assert_eq!(raised, "$7");
    assert_eq!(goal, "$0");
}

#[test]
fn multibyte_text_around_tokens() {
    let (raised, goal) = extract_raised_goal("héllo $5 œuf — $7,000.25 €");
    assert_eq!(raised, "$5");
    assert_eq!(goal, "$7,000.25");
}

#[test]
fn token_at_the_very_end() {
    let (raised, goal) = extract_raised_goal("total $9.99");
    assert_eq!(raised, "$9.99");
    assert_eq!(goal, "$0");
}

#[test]
fn sign_at_the_very_end_is_no_token() {
    let (raised, goal) = extract_raised_goal("price in $");
    assert_eq!(raised, "$0");
    assert_eq!(goal, "$0");
}

#[test]
fn tokens_do_not_overlap() {
    let ranges = match_ranges("$1$2");
    assert_eq!(ranges, vec![(0, 2), (2, 4)]);
}
