use port_knocking_doors::data::{
    checked_knock_seq, checked_ports, knock_seq, knock_seq_string, parse_port_list, parse_port_number,
    ports, ports_string,
    select_setting, split_commas,
};
use port_knocking_doors::pattern::{match_port_liste, re_matching_sequence, zone_listed};

#[test]
fn test_match_port_liste() {
    assert!(match_port_liste("1,2,3,5"));
}

#[test]
fn test_matching_sequence() {
    assert!(re_matching_sequence("222,3,5,97,6546,7974,14,14,41,41,41"));
    assert!(!re_matching_sequence("54,,98,897,84,654,64,654,65,4654,e,2"));
}

#[test]
fn port_list_format_edges() {
    assert!(match_port_liste("22"));
    assert!(match_port_liste("22,80,8080"));
    assert!(!match_port_liste(""));
    assert!(!match_port_liste("#####"));
    assert!(!match_port_liste("123456"));
    assert!(!match_port_liste("22,"));
    assert!(!match_port_liste("22\n"));
    // twenty numbers at most
    assert!(match_port_liste("1,2,3,4,5,6,7,8,9,10,11,12,13,14,15,16,17,18,19,20"));
    assert!(!match_port_liste("1,2,3,4,5,6,7,8,9,10,11,12,13,14,15,16,17,18,19,20,21"));
}

#[test]
fn sequence_format_edges() {
    assert!(re_matching_sequence("1,2,3,4,5"));
    assert!(!re_matching_sequence("1,2,3,4"));
    assert!(!re_matching_sequence("#####"));
    assert!(re_matching_sequence("16001,16002,16003,16004,16005"));
    assert!(re_matching_sequence("1,2,3,4,5,6,7,8,9,10,11,12,13,14,15,16,17,18,19,20"));
    assert!(!re_matching_sequence("1,2,3,4,5,6,7,8,9,10,11,12,13,14,15,16,17,18,19,20,21"));
    // `\d` takes the other Unicode decimal digits too
    assert!(re_matching_sequence("\u{661},2,3,4,5"));
}

#[test]
fn zone_listing() {
    assert!(zone_listed("knock-access\n  target: default\n"));
    assert!(!zone_listed(""));
    assert!(zone_listed("public\nknock-access\n"));
    assert!(!zone_listed("knock-access2\n"));
    assert!(!zone_listed("public\n  knock-access\n"));
}

#[test]
fn select_setting_order() {
    assert_eq!(select_setting("a", true, Some("b"), true, "c"), "a");
    assert_eq!(select_setting("a", false, Some("b"), true, "c"), "b");
    assert_eq!(select_setting("a", false, Some("b"), false, "c"), "c");
    assert_eq!(select_setting("a", false, None, true, "c"), "c");
}

#[test]
fn ports_string_sources() {
    assert_eq!(ports_string("22,80", Some("443")), "22,80");
    assert_eq!(ports_string("#####", Some("443")), "443");
    assert_eq!(ports_string("#####", Some("x")), "22");
    assert_eq!(ports_string("#####", None), "22");
}

#[test]
fn knock_seq_string_sources() {
    assert_eq!(knock_seq_string("1,2,3,4,5", None), "1,2,3,4,5");
    assert_eq!(knock_seq_string("1,2,3,4", Some("5,6,7,8,9")), "5,6,7,8,9");
    assert_eq!(knock_seq_string("#####", Some("1,2")), "16001,16002,16003,16004,16005");
}

#[test]
fn ports_values() {
    assert_eq!(ports("22,80,8080", None), vec![22, 80, 8080]);
    assert_eq!(ports("#####", None), vec![22]);
    assert_eq!(ports("#####", Some("10080")), vec![10080]);
    assert_eq!(checked_ports("22,80,8080", None), Some(vec![22, 80, 8080]));
    assert_eq!(checked_ports("#####", Some("x")), Some(vec![22]));
    // five digits that are no port: the daemon stops with "parse error"
    assert_eq!(checked_ports("99999", None), None);
    assert_eq!(checked_ports("#####", Some("99999")), None);
    // a valid argument wins even over an environment that would not parse
    assert_eq!(checked_ports("443", Some("99999")), Some(vec![443]));
    // a Unicode digit passes the format but is no port
    assert_eq!(checked_ports("\u{661}", None), None);
}

#[test]
fn knock_seq_values() {
    assert_eq!(knock_seq("#####", None), vec![16001, 16002, 16003, 16004, 16005]);
    assert_eq!(knock_seq("1,2,3,4,5,6,7", None), vec![1, 2, 3, 4, 5, 6, 7]);
    assert_eq!(checked_knock_seq("1,2,3,4,5,6,7", None), Some(vec![1, 2, 3, 4, 5, 6, 7]));
    assert_eq!(checked_knock_seq("1,2,3,4,70000", None), None);
    assert_eq!(checked_knock_seq("1,2,3,4", Some("9,8,7,6,5")), Some(vec![9, 8, 7, 6, 5]));
}

#[test]
fn parse_port_list_as_str_parse() {
    assert_eq!(parse_port_list("1,+2,003"), Some(vec![1, 2, 3]));
    assert_eq!(parse_port_list("65535"), Some(vec![65535]));
    assert_eq!(parse_port_list("65536"), None);
    assert_eq!(parse_port_list(""), None);
    assert_eq!(parse_port_list("1,,2"), None);
    assert_eq!(parse_port_list("+"), None);
    assert_eq!(parse_port_list("-1"), None);
    assert_eq!(parse_port_list(" 1"), None);
}

#[test]
fn parse_port_number_cases() {
    let f = |s: &str| s.chars().collect::<Vec<char>>();
    assert_eq!(parse_port_number(&f("0")), Some(0));
    assert_eq!(parse_port_number(&f("+80")), Some(80));
    assert_eq!(parse_port_number(&f("00000000000080")), Some(80));
    assert_eq!(parse_port_number(&f("99999999999999999999")), None);
    assert_eq!(parse_port_number(&f("8a")), None);
}

#[test]
fn split_commas_like_str_split() {
    let f = |s: &str| s.chars().collect::<Vec<char>>();
    let expected = |s: &str| s.split(',').map(|p| p.chars().collect::<Vec<char>>()).collect::<Vec<_>>();
    for s in ["", "a", "a,b", ",", "a,,b,", "12,345,6"] {
        assert_eq!(split_commas(&f(s)), expected(s));
    }
}
