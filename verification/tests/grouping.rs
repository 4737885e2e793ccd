use zokrates_sprout::text::{join_strings, split};
use zokrates_sprout::utils::group_by;

fn strings(v: &[&str]) -> Vec<String> {
    v.iter().map(|s| s.to_string()).collect()
}

#[test]
fn group_by_doc_example() {
    let input = strings(&["a1,b1,c1 d1", "a2,b2,c2 d2"]);
    assert_eq!(group_by(input, ','), Ok("a1 a2 b1 b2 c1 d1 c2 d2".to_string()));
}

#[test]
fn group_by_empty_input_is_rejected() {
    assert_eq!(group_by(Vec::new(), ','), Err("empty array".to_string()));
}

#[test]
fn group_by_rejects_element_with_more_segments() {
    let input = strings(&["a,b", "c,d,e"]);
    assert_eq!(
        group_by(input, ','),
        Err("an element has more segments than the first element".to_string())
    );
}

#[test]
fn group_by_shorter_element_fills_first_places() {
    let input = strings(&["a,b", "c"]);
    assert_eq!(group_by(input, ','), Ok("a c b".to_string()));
}

#[test]
fn group_by_single_element_turns_commas_into_spaces() {
    let input = strings(&["1,2,3"]);
    assert_eq!(group_by(input, ','), Ok("1 2 3".to_string()));
}

#[test]
fn group_by_keeps_empty_pieces() {
    let input = strings(&["a,,b", "c,d,e"]);
    assert_eq!(group_by(input, ','), Ok("a c  d b e".to_string()));
}

#[test]
fn group_by_counts_places_with_the_separator() {
    let input = strings(&["a;b", "c;d"]);
    assert_eq!(group_by(input, ';'), Ok("a c b d".to_string()));
    let input = strings(&["x,y z", "p q"]);
    assert_eq!(group_by(input, ' '), Ok("x,y p z q".to_string()));
    let input = strings(&["x y", "p q r"]);
    assert_eq!(
        group_by(input, ' '),
        Err("an element has more segments than the first element".to_string())
    );
}

#[test]
fn group_by_many_places() {
    let input = strings(&["1,2,3,4", "5,6,7,8", "9,10,11,12"]);
    assert_eq!(group_by(input, ','), Ok("1 5 9 2 6 10 3 7 11 4 8 12".to_string()));
}

#[test]
fn split_keeps_empty_pieces_and_non_ascii() {
    assert_eq!(split("", ','), vec!["".to_string()]);
    assert_eq!(split("a,", ','), vec!["a".to_string(), "".to_string()]);
    assert_eq!(split("é,ü", ','), vec!["é".to_string(), "ü".to_string()]);
    assert_eq!(split("abc", ','), vec!["abc".to_string()]);
}

#[test]
fn join_strings_puts_separator_between() {
    assert_eq!(join_strings(&Vec::new(), " "), "".to_string());
    assert_eq!(join_strings(&strings(&["a"]), " "), "a".to_string());
    assert_eq!(join_strings(&strings(&["a", "", "b"]), ", "), "a, , b".to_string());
}

#[test]
fn split_undoes_join_for_pieces_without_separator() {
    let parts = strings(&["a1", "", "b2", "c"]);
    let joined = join_strings(&parts, " ");
    assert_eq!(joined, "a1  b2 c".to_string());
    assert_eq!(split(&joined, ' '), parts);
}

#[test]
fn group_by_single_element_with_other_separator() {
    let input = strings(&["1;2;3"]);
    assert_eq!(group_by(input, ';'), Ok("1 2 3".to_string()));
}
