use lol_chat_parser::parse_timestamp;

#[test]
fn test_extracts_timestamp() {
    let input = "17:34 [Team] kozakSyla (Lux): hi in team chat";
    let ts = parse_timestamp(input).unwrap();
    assert_eq!(ts, "17:34");
}

#[test]
fn extracts_timestamp_with_three_groups() {
    let ts = parse_timestamp("1:02:34 something happened").unwrap();
    assert_eq!(ts, "1:02:34");
}

#[test]
fn rejects_token_without_colon() {
    assert!(parse_timestamp("1234 something happened").is_err());
}

#[test]
fn rejects_line_without_space() {
    assert!(parse_timestamp("17:34").is_err());
}

#[test]
fn rejects_malformed_clock_token() {
    assert!(parse_timestamp("17:34x stuff").is_err());
    assert!(parse_timestamp(":12 stuff").is_err());
    assert!(parse_timestamp("12: stuff").is_err());
    assert!(parse_timestamp("1::2 stuff").is_err());
}
