use proxydeck::deck::parse_decklist;
use proxydeck::error::PipelineError;

#[test]
fn one_line_expands_to_count_instances() {
    let instances = parse_decklist("4 Swamp").unwrap();
    assert_eq!(instances.len(), 4);
    assert_eq!(instances[0].prefix, "001");
    assert_eq!(instances[1].prefix, "002");
    assert_eq!(instances[2].prefix, "003");
    assert_eq!(instances[3].prefix, "004");
    for inst in &instances {
        assert_eq!(inst.name, "Swamp");
    }
}

#[test]
fn ordinals_continue_across_lines() {
    let instances = parse_decklist("4 Swamp\n1 Sol Ring").unwrap();
    assert_eq!(instances.len(), 5);
    assert_eq!(instances[3].prefix, "004");
    assert_eq!(instances[4].prefix, "005");
    assert_eq!(instances[4].name, "Sol Ring");
}

#[test]
fn malformed_line_fails_naming_it() {
    match parse_decklist("abc") {
        Err(PipelineError::Parse { line }) => assert_eq!(line, "abc"),
        _ => panic!("expected a parse error naming the line"),
    }
}

#[test]
fn malformed_line_after_valid_ones_fails_the_whole_parse() {
    match parse_decklist("4 Swamp\nSol Ring\n2 Island") {
        Err(PipelineError::Parse { line }) => assert_eq!(line, "Sol Ring"),
        _ => panic!("expected a parse error naming the line"),
    }
}

#[test]
fn blank_lines_do_not_perturb_ordinals() {
    let instances = parse_decklist("4 Swamp\n\n\n1 Sol Ring\n").unwrap();
    assert_eq!(instances.len(), 5);
    assert_eq!(instances[4].prefix, "005");
    assert_eq!(instances[4].name, "Sol Ring");
}

#[test]
fn carriage_returns_are_line_endings() {
    let instances = parse_decklist("4 Swamp\r\n1 Sol Ring\r\n").unwrap();
    assert_eq!(instances.len(), 5);
    assert_eq!(instances[0].name, "Swamp");
    assert_eq!(instances[4].name, "Sol Ring");
}

#[test]
fn names_are_trimmed_but_keep_inner_spaces() {
    let instances = parse_decklist("2   Springleaf   Drum  ").unwrap();
    assert_eq!(instances.len(), 2);
    assert_eq!(instances[0].name, "Springleaf   Drum");
}

#[test]
fn count_of_zero_is_rejected() {
    match parse_decklist("0 Swamp") {
        Err(PipelineError::Parse { line }) => assert_eq!(line, "0 Swamp"),
        _ => panic!("expected a parse error for a zero count"),
    }
}

#[test]
fn count_without_name_is_rejected() {
    match parse_decklist("4") {
        Err(PipelineError::Parse { line }) => assert_eq!(line, "4"),
        _ => panic!("expected a parse error without a name"),
    }
    match parse_decklist("4   ") {
        Err(PipelineError::Parse { line }) => assert_eq!(line, "4   "),
        _ => panic!("expected a parse error for a white-space name"),
    }
}

#[test]
fn oversized_count_is_rejected() {
    match parse_decklist("99999999999999999999999999 Swamp") {
        Err(PipelineError::Parse { line }) => {
            assert_eq!(line, "99999999999999999999999999 Swamp")
        },
        _ => panic!("expected a parse error for an oversized count"),
    }
}

#[test]
fn empty_decklist_parses_to_nothing() {
    let instances = parse_decklist("").unwrap();
    assert_eq!(instances.len(), 0);
    let instances = parse_decklist("\n\n").unwrap();
    assert_eq!(instances.len(), 0);
}

#[test]
fn ordinals_past_a_thousand_keep_their_digits() {
    let mut text = String::new();
    text.push_str("999 Swamp\n");
    text.push_str("2 Island");
    let instances = parse_decklist(&text).unwrap();
    assert_eq!(instances.len(), 1001);
    assert_eq!(instances[0].prefix, "001");
    assert_eq!(instances[998].prefix, "999");
    assert_eq!(instances[999].prefix, "1000");
    assert_eq!(instances[1000].prefix, "1001");
}

#[test]
fn parse_error_message_names_the_line() {
    let e = parse_decklist("not a line").unwrap_err();
    assert_eq!(e.message(), "Invalid card line: not a line");
}
