use discord_callsign_bot::parser::CallsignParser;

#[test]
fn test_parse_callsign_dash_name() {
    let parser = CallsignParser::new();
    let result = parser.parse("W6JSV - Jay").unwrap();
    assert_eq!(result.callsign, "W6JSV");
    assert_eq!(result.name, "Jay");
}

#[test]
fn test_parse_name_callsign() {
    let parser = CallsignParser::new();
    let result = parser.parse("Forrest KI7QCF").unwrap();
    assert_eq!(result.callsign, "KI7QCF");
    assert_eq!(result.name, "Forrest");
}

#[test]
fn test_parse_name_parens_callsign() {
    let parser = CallsignParser::new();
    let result = parser.parse("Jay (W6JSV)").unwrap();
    assert_eq!(result.callsign, "W6JSV");
    assert_eq!(result.name, "Jay");
}

#[test]
fn test_parse_callsign_only() {
    let parser = CallsignParser::new();
    let result = parser.parse("W6JSV").unwrap();
    assert_eq!(result.callsign, "W6JSV");
    assert_eq!(result.name, "W6JSV");
}

#[test]
fn test_is_callsign() {
    let parser = CallsignParser::new();
    assert!(parser.is_callsign("W6JSV"));
    assert!(parser.is_callsign("KI7QCF"));
    // a suffix of four letters is longer than the pattern admits
    assert!(!parser.is_callsign("N0CALL"));
    assert!(!parser.is_callsign("notacallsign"));
    assert!(!parser.is_callsign("123456"));
}

#[test]
fn parse_without_callsign_is_none() {
    let parser = CallsignParser::new();
    assert!(parser.parse("Just Jay").is_none());
    assert!(parser.parse("").is_none());
}

#[test]
fn lowercase_callsign_is_not_recognised() {
    let parser = CallsignParser::new();
    assert!(parser.parse("w6jsv - Jay").is_none());
    assert!(!parser.is_callsign("w6jsv"));
}

#[test]
fn leftmost_callsign_is_taken() {
    let parser = CallsignParser::new();
    let result = parser.parse("K1ABC and W6JSV").unwrap();
    assert_eq!(result.callsign, "K1ABC");
    assert_eq!(result.name, "and W6JSV");
}

#[test]
fn callsign_needs_word_boundaries() {
    let parser = CallsignParser::new();
    assert!(!parser.is_callsign("XYW6JSVQ"));
    assert!(!parser.is_callsign("W6JSV_x"));
    assert!(!parser.is_callsign("\u{c9}W6JSV"));
    assert!(parser.is_callsign("(W6JSV)"));
    assert!(parser.is_callsign("call: W6JSV!"));
}

#[test]
fn greedy_prefix_and_suffix() {
    let parser = CallsignParser::new();
    assert_eq!(parser.parse("K12ABC").unwrap().callsign, "K12ABC");
    assert!(!parser.is_callsign("KB12ABC"));
    assert!(parser.is_callsign("AB1CDE"));
    assert!(!parser.is_callsign("AB1CDEF"));
    assert_eq!(parser.parse("x 2E0ABC y").unwrap().callsign, "2E0ABC");
}

#[test]
fn separators_are_stripped() {
    let parser = CallsignParser::new();
    let result = parser.parse("Jay - Bob W6JSV").unwrap();
    assert_eq!(result.name, "Jay Bob");
    let result = parser.parse("W6JSV- Jay").unwrap();
    assert_eq!(result.name, "Jay");
    let result = parser.parse("Jay -W6JSV").unwrap();
    assert_eq!(result.name, "Jay");
    let result = parser.parse("  (W6JSV)  ").unwrap();
    assert_eq!(result.name, "W6JSV");
}
