use pts_bot::at::parse;

fn whole(input: &str) -> Option<(String, String)> {
    Some((String::new(), input.to_owned()))
}

#[test]
fn test_at_cind() {
    let input = r#"+CIND:("service",
                           (0,
                           1)),
                           ("call",
                           (0,
                           1)),
                           ("callsetup",
                           (0-3)),
                           ("callheld",
                           (0-2)),
                           ("signal",
                           (0-5)),
                           ("roam",
                           (0-1)),
                           ("battchg",
                           (0-5))"#;
    assert_eq!(parse(input), whole(input));
}

#[test]
fn test_at_cnum() {
    let input = r#"+CNUM:,
                           "1234567",
                           129,
                           ,
                           4"#;
    assert_eq!(parse(input), whole(input));
}

#[test]
fn test_at_string() {
    let input = r#"+CBM:"service""#;
    assert_eq!(parse(input), whole(input));
}

#[test]
fn test_at_integer() {
    let input = r#"+CBM:123"#;
    assert_eq!(parse(input), whole(input));
}

#[test]
fn test_at_range() {
    let input = r#"+CBM:1-20"#;
    assert_eq!(parse(input), whole(input));
}

#[test]
fn test_at_sequence() {
    let input = r#"+CBM:,1,2,,3"#;
    assert_eq!(parse(input), whole(input));
}

#[test]
fn test_at_list() {
    let input = r#"+CBM:(1,2,3)"#;
    assert_eq!(parse(input), whole(input));
}

#[test]
fn at_unknown_command_is_refused() {
    assert_eq!(parse("+XYZ:1"), None);
    assert_eq!(parse(""), None);
}

#[test]
fn at_stops_after_parameters() {
    assert_eq!(
        parse("+CBM:1,2\" rest"),
        Some(("\" rest".to_owned(), "+CBM:1,2".to_owned()))
    );
}
