use cce::parse::{parse_contents, parse_env_line, parse_env_output, parse_line, ParsedLine};
use cce::error::CceError;

#[test]
fn test_parse_env_line() {
    // Test basic KEY=value parsing
    let (key, value) = parse_env_line("KEY=value").unwrap();
    assert_eq!(key, "KEY");
    assert_eq!(value, "value");

    // Test value with equals sign
    let (key, value) = parse_env_line("KEY=value=with=equals").unwrap();
    assert_eq!(key, "KEY");
    assert_eq!(value, "value=with=equals");

    // Test empty line
    assert_eq!(parse_env_line(""), None);

    // Test line without equals sign
    assert_eq!(parse_env_line("INVALID_LINE"), None);
}

#[test]
fn test_parse_line_plain_and_export() {
    match parse_line("KEY=value") {
        ParsedLine::Pair(k, v) => {
            assert_eq!(k, "KEY");
            assert_eq!(v, "value");
        }
        _ => panic!("expected a pair"),
    }
    match parse_line("export KEY=value") {
        ParsedLine::Pair(k, v) => {
            assert_eq!(k, "KEY");
            assert_eq!(v, "value");
        }
        _ => panic!("expected a pair"),
    }
    match parse_line("  KEY =  value  ") {
        ParsedLine::Pair(k, v) => {
            assert_eq!(k, "KEY");
            assert_eq!(v, "value");
        }
        _ => panic!("expected a pair"),
    }
}

#[test]
fn test_parse_line_quote_stripping() {
    match parse_line("KEY=\"v\"") {
        ParsedLine::Pair(k, v) => {
            assert_eq!(k, "KEY");
            assert_eq!(v, "v");
        }
        _ => panic!("expected a pair"),
    }
    match parse_line("KEY='v'") {
        ParsedLine::Pair(k, v) => {
            assert_eq!(k, "KEY");
            assert_eq!(v, "v");
        }
        _ => panic!("expected a pair"),
    }
    // Mismatched quotes are kept.
    match parse_line("KEY=\"v'") {
        ParsedLine::Pair(k, v) => {
            assert_eq!(k, "KEY");
            assert_eq!(v, "\"v'");
        }
        _ => panic!("expected a pair"),
    }
    // No escape processing inside quotes.
    match parse_line("KEY='a\\'") {
        ParsedLine::Pair(k, v) => {
            assert_eq!(k, "KEY");
            assert_eq!(v, "a\\");
        }
        _ => panic!("expected a pair"),
    }
}

#[test]
fn test_parse_line_skips_and_errors() {
    assert!(matches!(parse_line(""), ParsedLine::Skip));
    assert!(matches!(parse_line("   "), ParsedLine::Skip));
    assert!(matches!(parse_line("# comment"), ParsedLine::Skip));
    assert!(matches!(parse_line("   # indented comment"), ParsedLine::Skip));
    assert!(matches!(parse_line("NO_EQUALS_HERE"), ParsedLine::NoEquals));
    assert!(matches!(parse_line("export NO_EQUALS"), ParsedLine::NoEquals));
}

#[test]
fn test_parse_contents_well_formed() {
    let text = "# comment\n\nANTHROPIC_BASE_URL=https://api.example.com\nexport ANTHROPIC_AUTH_TOKEN='tok123'\n";
    let m = parse_contents(text, "/cfg/a.env").unwrap();
    assert_eq!(m.len(), 2);
    assert_eq!(m.get("ANTHROPIC_BASE_URL").unwrap().as_str(), "https://api.example.com");
    assert_eq!(m.get("ANTHROPIC_AUTH_TOKEN").unwrap().as_str(), "tok123");
}

#[test]
fn test_parse_contents_last_write_wins() {
    let text = "A=1\nA=2\nB=3";
    let m = parse_contents(text, "p").unwrap();
    assert_eq!(m.len(), 2);
    assert_eq!(m.get("A").unwrap().as_str(), "2");
    assert_eq!(m.get("B").unwrap().as_str(), "3");
}

#[test]
fn test_parse_contents_invalid_format() {
    let text = "A=1\nBROKEN LINE\nB=2";
    match parse_contents(text, "/cfg/bad.env") {
        Err(CceError::InvalidFormat(p)) => assert_eq!(p, "/cfg/bad.env"),
        other => panic!("expected InvalidFormat, got {:?}", other),
    }
}

#[test]
fn test_parse_env_output_splits_on_first_equals() {
    let m = parse_env_output("KEY=value=with=equals");
    assert_eq!(m.get("KEY").unwrap().as_str(), "value=with=equals");
}

#[test]
fn test_parse_env_output_drops_lines_without_equals() {
    let m = parse_env_output("A=1\nGARBAGE\n\nB=2");
    assert_eq!(m.len(), 2);
    assert_eq!(m.get("A").unwrap().as_str(), "1");
    assert_eq!(m.get("B").unwrap().as_str(), "2");
    assert!(m.get("GARBAGE").is_none());
}

#[test]
fn test_parse_env_output_last_write_wins() {
    let m = parse_env_output("A=1\nA=2");
    assert_eq!(m.len(), 1);
    assert_eq!(m.get("A").unwrap().as_str(), "2");
}

#[test]
fn test_parse_contents_crlf_lines() {
    let m = parse_contents("A=1\r\nB=2\r\n", "p").unwrap();
    assert_eq!(m.len(), 2);
    assert_eq!(m.get("A").unwrap().as_str(), "1");
    assert_eq!(m.get("B").unwrap().as_str(), "2");
}

#[test]
fn test_parse_env_output_variable_reference_result() {
    // What the delegated shell prints for a file defining A=1 then B=$A/2.
    let m = parse_env_output("A=1\nB=1/2");
    assert_eq!(m.get("B").unwrap().as_str(), "1/2");
}
