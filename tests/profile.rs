use pts_bot::bd_addr::BdAddr;
use pts_bot::ets::{Ets, Group, Profile as EtsProfile, TestCase};
use pts_bot::params::Overrides;
use pts_bot::picsx::{self, bool_from_string, Pics};
use pts_bot::pixitx::{self, Pixit};
use pts_bot::profile::Profile;
use pts_bot::text::{split_once, strip_bom};

fn case(name: &str, mapping: &str) -> TestCase {
    TestCase { name: name.to_owned(), mapping: mapping.to_owned(), description: String::new() }
}

fn pics_row(name: &str, value: bool) -> picsx::Row {
    picsx::Row { name: name.to_owned(), description: String::new(), value, mandatory: false }
}

fn pixit_row(name: &str, ty: &str, value: &str) -> pixitx::Row {
    pixitx::Row {
        name: name.to_owned(),
        description: String::new(),
        value_type: vec![ty.to_owned(), "IGNORED".to_owned()],
        value: value.to_owned(),
    }
}

fn sample() -> Profile {
    let inner = Group {
        name: "inner".to_owned(),
        groups: vec![],
        testcases: vec![case("A2DP/SRC/3", "TSPC_A OR TSPC_B")],
    };
    let outer = Group {
        name: "outer".to_owned(),
        groups: vec![inner],
        testcases: vec![case("A2DP/SRC/1", "TSPC_A"), case("A2DP/SRC/2", "TSPC_A AND TSPC_B")],
    };
    let last = Group {
        name: "last".to_owned(),
        groups: vec![],
        testcases: vec![case("A2DP/SNK/4", "TSPC_UNKNOWN"), case("A2DP/SNK/5", "TSPC_B")],
    };
    Profile {
        name: "A2DP".to_owned(),
        ets: Ets {
            version: None,
            profile: EtsProfile { name: "A2DP".to_owned(), groups: vec![outer, last] },
        },
        pics: Pics {
            rows: picsx::Rows { rows: vec![pics_row("TSPC_A", true), pics_row("TSPC_B", false)] },
        },
        pixit: Pixit {
            name: "A2DP".to_owned(),
            version: String::new(),
            rows: pixitx::Rows {
                rows: vec![
                    pixit_row("TSPX_bd_addr_iut", "OCTETSTRING", "000000000000"),
                    pixit_row("TSPX_delete_link_key", "BOOLEAN", "FALSE"),
                    pixit_row("TSPX_security_enabled", "BOOLEAN", "FALSE"),
                    pixit_row("TSPX_pin", "IA5STRING", "0000"),
                ],
            },
        },
    }
}

#[test]
fn groups_are_walked_depth_first() {
    let p = sample();
    let names: Vec<String> =
        p.ets.profile.groups[0].testcases().into_iter().map(|t| t.name).collect();
    assert_eq!(names, vec!["A2DP/SRC/1", "A2DP/SRC/2", "A2DP/SRC/3"]);
}

#[test]
fn enabled_tests_follow_mappings() {
    let p = sample();
    let overrides = Overrides::new();
    assert_eq!(p.tests(&overrides), vec!["A2DP/SRC/1", "A2DP/SRC/3"]);
}

#[test]
fn first_ics_row_of_a_name_counts() {
    let mut p = sample();
    p.pics.rows.rows.push(pics_row("TSPC_B", true));
    p.pics.rows.rows.push(pics_row("TSPC_A", false));
    let overrides = Overrides::new();
    assert_eq!(p.tests(&overrides), vec!["A2DP/SRC/1", "A2DP/SRC/3"]);
    let values = p.predicate_values(&overrides);
    assert_eq!(values, vec![("TSPC_A".to_owned(), true), ("TSPC_B".to_owned(), false)]);
}

#[test]
fn ics_overrides_take_precedence() {
    let p = sample();
    let mut overrides = Overrides::new();
    overrides.set_ics("TSPC_B", true);
    assert_eq!(p.tests(&overrides), vec!["A2DP/SRC/1", "A2DP/SRC/2", "A2DP/SRC/3", "A2DP/SNK/5"]);
    overrides.set_ics("TSPC_A", false);
    assert_eq!(p.tests(&overrides), vec!["A2DP/SRC/3", "A2DP/SNK/5"]);
}

#[test]
fn testcase_evaluation() {
    let values = vec![("X".to_owned(), true), ("Y".to_owned(), false)];
    assert_eq!(case("t", "X AND Y").is_enabled(&values), Some(false));
    assert_eq!(case("t", "X OR Y").is_enabled(&values), Some(true));
    assert_eq!(case("t", "X AND (Y OR X)").is_enabled(&values), Some(true));
    assert_eq!(case("t", "Z").is_enabled(&values), None);
    assert_eq!(case("t", "!(Y) AND X").is_enabled(&values), Some(true));
}

#[test]
fn only_plain_mappings_reach_the_evaluator() {
    let values = vec![("X".to_owned(), true)];
    assert_eq!(case("t", "str::substring(\"\u{e9}\", 1) == \"\"").is_enabled(&values), None);
    assert_eq!(case("t", "shl(1, 64) == 0").is_enabled(&values), None);
    assert_eq!(case("t", "X == X").is_enabled(&values), None);
    assert_eq!(case("t", "shl X").is_enabled(&values), None);
    assert_eq!(case("t", &"X OR ".repeat(300)).is_enabled(&values), None);
}

#[test]
fn parameters_for_the_server() {
    let p = sample();
    let mut overrides = Overrides::new();
    overrides.set_ics("TSPC_B", true);
    overrides.set_ixit("TSPX_bd_addr_iut", "dead");
    overrides.set_ixit("TSPX_pin", "1234");
    let addr = BdAddr::new([0x00, 0x1b, 0xdc, 0x07, 0x32, 0xef]);
    let triple = |a: &str, b: &str, c: &str| (a.to_owned(), b.to_owned(), c.to_owned());
    assert_eq!(
        p.parameters(&overrides, addr),
        vec![
            triple("TSPC_A", "BOOLEAN", "TRUE"),
            triple("TSPC_B", "BOOLEAN", "TRUE"),
            triple("TSPX_bd_addr_iut", "OCTETSTRING", "001BDC0732EF"),
            triple("TSPX_delete_link_key", "BOOLEAN", "TRUE"),
            triple("TSPX_security_enabled", "BOOLEAN", "FALSE"),
            triple("TSPX_pin", "IA5STRING", "1234"),
        ]
    );
}

#[test]
fn config_ics_sets_both_cases() {
    let mut overrides = Overrides::new();
    overrides.set_ics_any_case("TSPC_foo", true);
    assert_eq!(overrides.ics_value("TSPC_foo"), Some(true));
    assert_eq!(overrides.ics_value("TSPC_FOO"), Some(true));
    assert_eq!(overrides.ics_value("tspc_foo"), None);
    overrides.set_ixit("TSPX_x", "1");
    overrides.set_ixit("TSPX_x", "2");
    assert_eq!(overrides.ixit_value("TSPX_x"), Some("2".to_owned()));
}

#[test]
fn xml_helpers() {
    assert_eq!(bool_from_string("TRUE"), Some(true));
    assert_eq!(bool_from_string("FALSE"), Some(false));
    assert_eq!(bool_from_string("true"), None);
    assert_eq!(strip_bom("\u{feff}<PICS/>"), "<PICS/>");
    assert_eq!(strip_bom("<PICS/>"), "<PICS/>");
    assert_eq!(
        split_once("a=PDU:b=PDU:c", "=PDU:"),
        Some(("a".to_owned(), "b=PDU:c".to_owned()))
    );
    assert_eq!(split_once("abc", "/"), None);
}
