use pts_bot::bd_addr::BdAddr;
use pts_bot::mmi::{id_to_mmi, parse, Interaction};
use pts_bot::pts::MMIStyle;

fn parts(a: &str, b: &str, c: &str, d: &str) -> Option<(String, String, String, String)> {
    Some((a.to_owned(), b.to_owned(), c.to_owned(), d.to_owned()))
}

#[test]
fn mmi_test_parse() {
    assert_eq!(
        parse("{1002,A2DP/SNK/AS/BV-01-I,A2DP}If necessary, take action ..."),
        parts(
            "1002",
            "A2DP/SNK/AS/BV-01-I",
            "A2DP",
            "If necessary, take action ..."
        ),
    );
}

#[test]
fn test_parse_without_description() {
    assert_eq!(
        parse("{test_started,foo,bar}"),
        parts("test_started", "foo", "bar", ""),
    );
}

#[test]
fn test_id_to_mmi() {
    assert_eq!(
        id_to_mmi("A2DP", 1002),
        Some("TSC_AVDTP_mmi_iut_accept_connect")
    )
}

#[test]
fn mmi_parse_trims_names() {
    assert_eq!(parse("{7, T1 , PR }text"), parts("7", "T1", "PR", "text"));
}

#[test]
fn mmi_parse_without_braces() {
    assert_eq!(parse("1002,A2DP/SNK,A2DP"), None);
    assert_eq!(parse("{1002,A2DP/SNK,A2DP"), None);
    assert_eq!(parse("{1002}text"), None);
}

#[test]
fn interaction_explode_maps_known_ids() {
    let addr = BdAddr::new([1, 2, 3, 4, 5, 6]);
    let i = Interaction::new(addr, MMIStyle::YesNo1, "{1002, T ,A2DP}Accept?".to_owned());
    assert_eq!(
        i.explode(),
        Some((
            addr,
            MMIStyle::YesNo1,
            "TSC_AVDTP_mmi_iut_accept_connect".to_owned(),
            "A2DP".to_owned(),
            "T".to_owned(),
            "Accept?".to_owned()
        ))
    );
    let j = Interaction::new(addr, MMIStyle::OkOnly, "{test_started,T,A2DP}".to_owned());
    assert_eq!(
        j.explode(),
        Some((
            addr,
            MMIStyle::OkOnly,
            "test_started".to_owned(),
            "A2DP".to_owned(),
            "T".to_owned(),
            String::new()
        ))
    );
    let k = Interaction::new(addr, MMIStyle::OkOnly, "no braces".to_owned());
    assert_eq!(k.explode(), None);
}
