use wowlog::{parse, parser, Log, ParseErrorType};

#[test]
fn parse_skips_bad_lines() {
    let text = "3/9 19:05:22.252  SPELL_CAST_SUCCESS,0x1,\"A\",0x0,0x2,\"B\",0x0\nthis is no record\n3/9 19:05:23.000  UNIT_DIED,0x1,\"A\",0x0,0x2,\"B\",0x0\n";
    let events = parse(text);
    assert_eq!(events.len(), 2);
    let errors = parser::parse_errors(text);
    assert_eq!(errors.len(), 1);
    assert_eq!(errors[0].0, 2);
    assert!(matches!(errors[0].1.typ(), ParseErrorType::WrongHeadLength));
    assert_eq!(errors[0].1.col(), 3);
}

#[test]
fn parse_handles_crlf_and_trailing_newline() {
    let text = "3/9 19:05:22.252  SPELL_CAST_SUCCESS,0x1,\"A\",0x0,0x2,\"B\",0x0\r\n3/9 19:05:23.000  UNIT_DIED,0x1,\"A\",0x0,0x2,\"B\",0x0\r\n";
    let events = parse(text);
    assert_eq!(events.len(), 2);
    assert!(parser::parse_errors(text).is_empty());
}

#[test]
fn parse_empty_trace() {
    assert!(parse("").is_empty());
    assert!(parser::parse_errors("").is_empty());
}

#[test]
fn log_from_str_holds_events() {
    let text = "3/9 19:05:22.252  SPELL_HEAL,0x1,\"A\",0x0,0x2,\"B\",0x0,1,\"s\",0x1,120\n3/9 19:05:23.000  UNIT_DIED,0x1,\"A\",0x0,0x2,\"B\",0x0";
    let log = Log::from_str(text);
    assert_eq!(log.events().len(), 2);
    assert_eq!(log.events()[0].amount(), Some(120));
}
