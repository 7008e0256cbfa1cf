use monster_step_viewer::parsing::{parse_hash_refs, parse_step_float, preprocess_step_entities};

fn chars(s: &str) -> Vec<char> {
    s.chars().collect()
}

#[test]
fn lines_of_an_entity_are_joined() {
    assert_eq!(
        preprocess_step_entities("#1 = A(\n  'x',\r\n\r\n #2);\n#2=B();\n"),
        "#1 = A( 'x', #2);#2=B();"
    );
}

#[test]
fn references_are_read_from_left_to_right() {
    assert_eq!(parse_hash_refs("A(#12,#3,##4,# ,#18446744073709551616,#x)"), vec![12, 3, 4]);
}

#[test]
fn reals_in_step_notation_are_completed() {
    assert_eq!(parse_step_float(&chars(" 0.E+000 ")), Some("0.0E+000".to_string()));
    assert_eq!(parse_step_float(&chars("1.5e")), None);
}

#[test]
fn joining_lines_loses_only_white_space() {
    let raw = "\n  #1 = A( 'x',\r\n\t\n #2 ) ;\n#2=B();  \n";
    let joined = preprocess_step_entities(raw);
    let dense = |s: &str| s.chars().filter(|c| !c.is_whitespace()).collect::<String>();
    assert_eq!(dense(&joined), dense(raw));
    assert!(joined.len() <= raw.len());
    assert!(!joined.contains('\n'));
    assert_eq!(joined.trim(), joined);
    assert_eq!(preprocess_step_entities(&joined), joined);
}
