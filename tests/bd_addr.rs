use pts_bot::bd_addr::{BdAddr, ParseBdAddrError};

#[test]
fn test_from_str_with_colons() {
    assert_eq!(
        "11:22:33:44:55:66".parse(),
        Ok(BdAddr::new([0x11, 0x22, 0x33, 0x44, 0x55, 0x66]))
    );
}

#[test]
fn test_from_str_without_colons() {
    assert_eq!(
        "112233445566".parse(),
        Ok(BdAddr::new([0x11, 0x22, 0x33, 0x44, 0x55, 0x66]))
    );
}

#[test]
fn address_text_round_trip() {
    let addr = BdAddr::new([0x00, 0x1a, 0xff, 0x7d, 0xc0, 0x09]);
    assert_eq!(addr.to_colon_string(), "00:1a:ff:7d:c0:09");
    assert_eq!(addr.to_plain_string(), "001AFF7DC009");
    assert_eq!(BdAddr::parse(&addr.to_colon_string()), Ok(addr));
    assert_eq!(BdAddr::parse(&addr.to_plain_string()), Ok(addr));
}

#[test]
fn address_mixed_case_digits() {
    assert_eq!(
        BdAddr::parse("aB:cD:eF:01:23:45"),
        Ok(BdAddr::new([0xab, 0xcd, 0xef, 0x01, 0x23, 0x45]))
    );
}

#[test]
fn address_invalid_byte() {
    assert_eq!(BdAddr::parse("11:22:33:44:55:6G"), Err(ParseBdAddrError::InvalidByte));
    assert_eq!(BdAddr::parse("zz2233445566"), Err(ParseBdAddrError::InvalidByte));
    assert_eq!(BdAddr::parse("+1+2+3+4+5+6"), Err(ParseBdAddrError::InvalidByte));
    assert_eq!(BdAddr::parse("+1:22:33:44:55:66"), Err(ParseBdAddrError::InvalidByte));
}

#[test]
fn address_unknown_format() {
    assert_eq!(BdAddr::parse("11-22-33-44-55-66"), Err(ParseBdAddrError::UnknownFormat));
    assert_eq!(BdAddr::parse("1122334455"), Err(ParseBdAddrError::UnknownFormat));
    assert_eq!(BdAddr::parse(""), Err(ParseBdAddrError::UnknownFormat));
}
