use port_knocking_doors::data::parse_port_list;
use port_knocking_doors::firewall::{
    add_port_arg, checkup, close, init, is_firewall_zone_exists, open, same_text, source_rule,
    zone_command, CheckupRequest, FirewallError, FirewallType, ZoneCommand,
};

#[test]
fn identification() {
    assert_eq!(
        init("firewalld\n"),
        Ok((FirewallType::FIREWALLD, CheckupRequest { reset: true }))
    );
    assert_eq!(init("error"), Err(FirewallError::NotInstalled));
    assert_eq!(init("error\n"), Err(FirewallError::BadFirewall("error\n".to_string())));
    assert_eq!(init("iptables\n"), Err(FirewallError::BadFirewall("iptables\n".to_string())));
    assert_eq!(init("firewalld"), Err(FirewallError::BadFirewall("firewalld".to_string())));
}

fn lines(v: &[&[&str]]) -> Vec<Vec<String>> {
    v.iter().map(|l| l.iter().map(|a| a.to_string()).collect()).collect()
}

#[test]
fn checkup_plans() {
    let fd = FirewallType::FIREWALLD;
    let ports = vec![22, 8080];
    for reset in [true, false] {
        let plan = checkup(fd, reset, false, &ports).unwrap();
        assert_eq!(
            plan.commands,
            lines(&[
                &["firewall-cmd", "--new-zone=knock-access", "--permanent"],
                &["firewall-cmd", "--reload"],
                &["firewall-cmd", "--zone=knock-access", "--add-port=22/tcp"],
                &["firewall-cmd", "--zone=knock-access", "--add-port=8080/tcp"],
            ])
        );
        assert_eq!(plan.check_again, None);
    }
    let plan = checkup(fd, true, true, &ports).unwrap();
    assert_eq!(
        plan.commands,
        lines(&[
            &["firewall-cmd", "--delete-zone=knock-access", "--permanent"],
            &["firewall-cmd", "--reload"],
        ])
    );
    assert_eq!(plan.check_again, Some(CheckupRequest { reset: false }));
    let plan = checkup(fd, false, true, &ports).unwrap();
    assert!(plan.commands.is_empty());
    assert_eq!(plan.check_again, None);
    assert!(checkup(FirewallType::UNDEFINED, true, false, &ports).is_err());
    // no port: only the zone and the reload
    assert_eq!(checkup(fd, false, false, &vec![]).unwrap().commands.len(), 2);
}

#[test]
fn zone_commands() {
    let fd = FirewallType::FIREWALLD;
    assert_eq!(
        zone_command(fd, ZoneCommand::ListZones).unwrap(),
        vec!["bash", "-c", "firewall-cmd --list-all-zones | egrep \"^knock-access\""]
    );
    assert_eq!(
        zone_command(fd, ZoneCommand::CreateZone).unwrap(),
        vec!["firewall-cmd", "--new-zone=knock-access", "--permanent"]
    );
    assert_eq!(
        zone_command(fd, ZoneCommand::DeleteZone).unwrap(),
        vec!["firewall-cmd", "--delete-zone=knock-access", "--permanent"]
    );
    assert_eq!(zone_command(fd, ZoneCommand::Reload).unwrap(), vec!["firewall-cmd", "--reload"]);
    assert_eq!(
        zone_command(FirewallType::UNDEFINED, ZoneCommand::Reload),
        Err(FirewallError::NoControl)
    );
}

#[test]
fn zone_listing_check() {
    assert!(is_firewall_zone_exists("knock-access\n"));
    assert!(is_firewall_zone_exists("knock-access"));
    assert!(is_firewall_zone_exists("knock-access (active)\n"));
    assert!(is_firewall_zone_exists("knock-access2\nknock-access\n"));
    assert!(!is_firewall_zone_exists("knock-access2\n"));
    assert!(!is_firewall_zone_exists("knock-access-old\n"));
    assert!(!is_firewall_zone_exists("knock-acces"));
    assert!(!is_firewall_zone_exists(" knock-access"));
    assert!(!is_firewall_zone_exists(""));
}

#[test]
fn port_arguments() {
    assert_eq!(add_port_arg(22), "--add-port=22/tcp");
    assert_eq!(add_port_arg(0), "--add-port=0/tcp");
    assert_eq!(add_port_arg(65535), "--add-port=65535/tcp");
    assert_eq!(add_port_arg(10080), "--add-port=10080/tcp");
}

/// The IPv4-mapped form of `a.b.c.d`.
fn v4(a: u8, b: u8, c: u8, d: u8) -> u128 {
    0xffff_0000_0000u128 | (a as u128) << 24 | (b as u128) << 16 | (c as u128) << 8 | d as u128
}

#[test]
fn source_rules() {
    let fd = FirewallType::FIREWALLD;
    let ip = v4(10, 0, 0, 7);
    assert_eq!(open(fd, ip).unwrap(), vec!["--zone=knock-access", "--add-source=10.0.0.7/32"]);
    assert_eq!(close(fd, ip).unwrap(), vec!["--zone=knock-access", "--remove-source=10.0.0.7/32"]);
    assert_eq!(
        open(fd, v4(255, 0, 128, 1)).unwrap()[1],
        "--add-source=255.0.128.1/32"
    );
    assert_eq!(open(FirewallType::UNDEFINED, ip), Err(FirewallError::NoControl));
    assert_eq!(source_rule(FirewallType::UNDEFINED, ip, false), Err(FirewallError::NoControl));
}

#[test]
fn ipv6_rules_cover_one_address() {
    let fd = FirewallType::FIREWALLD;
    // ::1
    assert_eq!(open(fd, 1).unwrap()[1], "--add-source=0:0:0:0:0:0:0:1/128");
    // 2001:db8::ff00:42:8329
    let a: u128 = 0x2001_0db8_0000_0000_0000_ff00_0042_8329;
    assert_eq!(close(fd, a).unwrap()[1], "--remove-source=2001:db8:0:0:0:ff00:42:8329/128");
    // an IPv4-compatible (not mapped) address is an IPv6 address
    assert_eq!(open(fd, 0x0a00_0007).unwrap()[1], "--add-source=0:0:0:0:0:0:a00:7/128");
    // the groups read back as the address
    let text = open(fd, a).unwrap()[1].clone();
    let addr = text.strip_prefix("--add-source=").unwrap().strip_suffix("/128").unwrap();
    let back = addr.split(':').fold(0u128, |acc, g| acc << 16 | u128::from_str_radix(g, 16).unwrap());
    assert_eq!(back, a);
}

#[test]
fn text_equality() {
    assert!(same_text("abc", "abc"));
    assert!(!same_text("abc", "abd"));
    assert!(!same_text("abc", "ab"));
    assert!(same_text("", ""));
}

#[test]
fn port_argument_reads_back() {
    for port in [0u16, 7, 10, 22, 99, 100, 8080, 10080, 65535] {
        let arg = add_port_arg(port);
        let text = arg.strip_prefix("--add-port=").unwrap().strip_suffix("/tcp").unwrap();
        assert_eq!(parse_port_list(text), Some(vec![port]));
    }
}
