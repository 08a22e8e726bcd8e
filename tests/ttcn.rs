use pts_bot::ttcn::{flatten, parse, parse_list, Palette, TTCNValue};

fn done(v: TTCNValue) -> (String, TTCNValue) {
    (String::new(), v)
}

#[test]
fn test_identifier() {
    assert_eq!(
        parse("WORD_word"),
        done(TTCNValue::Identifier("WORD_word".to_owned()))
    );
    assert_eq!(
        parse("<word>"),
        done(TTCNValue::Identifier("<word>".to_owned()))
    );
    assert_eq!(parse("(word"), ("(word".to_owned(), TTCNValue::Empty));
}

#[test]
fn test_integer() {
    assert_eq!(parse("42"), done(TTCNValue::Integer("42".to_owned())));
}

#[test]
fn test_negative_integer() {
    assert_eq!(parse("-42"), done(TTCNValue::Integer("-42".to_owned())));
}

#[test]
fn test_bitstring() {
    assert_eq!(
        parse("'0101'B"),
        done(TTCNValue::BitString("0101".to_owned()))
    );
}

#[test]
fn test_hexstring() {
    assert_eq!(parse("'2A'H"), done(TTCNValue::HexString("2A".to_owned())));
}

#[test]
fn test_octetstring() {
    assert_eq!(
        parse("'2A'O"),
        done(TTCNValue::OctetString("2A".to_owned()))
    );
}

#[test]
fn test_charstring() {
    assert_eq!(
        parse(r#""word""#),
        done(TTCNValue::CharString("word".to_owned()))
    );
    assert_eq!(
        parse("\"wo\nrd\""),
        done(TTCNValue::CharString("wo\nrd".to_owned()))
    );
}

#[test]
fn test_at_charstring() {
    let input = r#""+CIND:("service",
                           (0,
                           1)),
                           ("call",
                           (0,
                           1)),
                           ("callsetup",
                           (0-3)),
                           ("callheld",
                           (0-2)),
                           ("signal",
                           (0-5)),
                           ("roam",
                           (0-1)),
                           ("battchg",
                           (0-5))""#;
    assert_eq!(
        parse(input),
        done(TTCNValue::CharString(input[1..input.len() - 1].to_owned()))
    );
}

#[test]
fn test_anyvalue() {
    assert_eq!(parse("?"), done(TTCNValue::AnyValue));
}

#[test]
fn test_anyoromit() {
    assert_eq!(parse("*"), done(TTCNValue::AnyOrOmit));
}

#[test]
fn ttcn_test_parse() {
    let value = r#"{
           message:"{
             1010,
             %s,
             A2DP
           }Ifnecessary,
           takeactiontoaccepttheAVDTPStartoperationinitiatedbythetester.",
           signal:CM_SIGNAL_REQUEST,
           status:CM_STATUS_OK,
           style:MMI_Style_Ok_Cancel2
         }"#;

    let result = parse(value);

    println!("{:?}", result);

    let value = r#"{
           connection_handle:'00000040'O,
           avdtp:[
             cfm:[
               start:{
                 header:{
                   transaction_label:1,
                   packet_type:AVDTP_SINGLE_PACKET,
                   message_type:AVDTP_RESPONSE_ACCEPT,
                   nosp:OMIT,
                   rfa:0,
                   signal_identifier:AVDTP_START
                 }
               }
             ]
           ],
           param:OMIT
         }"#;

    let result = parse(value);

    println!("{:?}", result);
}

#[test]
fn test_parse_comma_space() {
    let result = parse_list("   ");
    assert_eq!(result, (String::new(), vec![]));
}

#[test]
fn test_double_charstring() {
    assert_eq!(
        parse(r#"""hello world"""#),
        done(TTCNValue::CharString("\"hello world\"".to_owned()))
    );
}

#[test]
fn test_bug_239266788() {
    let value = r#"[
                           ,
                           ""+15551234567"",
                           "145",
                           ,
                           "4"
                           ]"#;
    assert_eq!(
        parse(value),
        done(TTCNValue::Array(vec![
            TTCNValue::Empty,
            TTCNValue::CharString("\"+15551234567\"".to_owned()),
            TTCNValue::CharString("145".to_owned()),
            TTCNValue::Empty,
            TTCNValue::CharString("4".to_owned())
        ]))
    );

    assert_eq!(
        parse_list("\"Received +CLIP: \"42\",129\" "),
        (
            String::new(),
            vec![TTCNValue::CharString(
                "Received +CLIP: \"42\",129".to_owned()
            )]
        )
    );
}

#[test]
fn ttcn_record_and_pdu_prefix() {
    assert_eq!(
        parse(" PDU:{ a : 1, b:'FF'O } "),
        done(TTCNValue::Record(vec![
            ("a".to_owned(), TTCNValue::Integer("1".to_owned())),
            ("b".to_owned(), TTCNValue::OctetString("FF".to_owned())),
        ]))
    );
}

#[test]
fn ttcn_list_of_values() {
    assert_eq!(
        parse_list("1, x ,\"s\""),
        (
            String::new(),
            vec![
                TTCNValue::Integer("1".to_owned()),
                TTCNValue::Identifier("x".to_owned()),
                TTCNValue::CharString("s".to_owned()),
            ]
        )
    );
}

fn plain() -> Palette {
    Palette {
        identifier: String::new(),
        integer: String::new(),
        bitstring: String::new(),
        hexstring: String::new(),
        octetstring: String::new(),
        charstring: String::new(),
        bold: String::new(),
        reset: String::new(),
    }
}

#[test]
fn ttcn_render_flattens_single_field_chains() {
    let value = TTCNValue::Record(vec![
        (
            "a".to_owned(),
            TTCNValue::Record(vec![("b".to_owned(), TTCNValue::Integer("1".to_owned()))]),
        ),
        ("c".to_owned(), TTCNValue::CharString("x\"y".to_owned())),
    ]);
    assert_eq!(value.render(&plain()), "{\n  a.b: 1,\n  c: \"x\\\"y\",\n}");
    let (key, inner) = flatten("k", &value);
    assert_eq!(key, "k");
    assert_eq!(inner, &value);
}

#[test]
fn ttcn_render_uses_palette() {
    let mut p = plain();
    p.hexstring = "<h>".to_owned();
    p.reset = "</>".to_owned();
    p.bold = "<b>".to_owned();
    assert_eq!(TTCNValue::HexString("2A".to_owned()).render(&p), "<h>0x2A</>");
    assert_eq!(TTCNValue::AnyValue.render(&p), "<b>?</>");
    assert_eq!(
        TTCNValue::Array(vec![TTCNValue::Empty]).render(&p),
        "[\n  <Empty>,\n]"
    );
    assert_eq!(TTCNValue::Record(vec![]).render(&p), "{}");
}
