//! The decisions about the firewall: which firewall is there, whether its zone
//! must be created or rebuilt, and which rules let a client in or out.
//!
//! The zone of the daemon is named `knock-access`; its rules are not permanent,
//! so a restart of the firewall drops them and clients must knock again.
use crate::data::chars_of;
use vstd::prelude::*;
use vstd::string::StringExecFns;

verus! {

/// The firewalls the daemon knows how to drive.
#[allow(non_camel_case_types)]
#[derive(Debug, Clone, Copy, PartialEq, Eq, Structural)]
pub enum FirewallType {
    UNDEFINED,
    FIREWALLD,
}

/// Why the firewall cannot be driven.
#[derive(Debug, PartialEq, Eq)]
pub enum FirewallError {
    /// The probe answered `error`: firewalld must be installed.
    NotInstalled,
    /// The probe named another program, kept here.
    BadFirewall(String),
    /// No firewall was identified: it cannot be controlled.
    NoControl,
}

/// Whether `a` and `b` are the same text.
pub fn same_text(a: &str, b: &str) -> (r: bool)
    ensures
        r == (a@ == b@),
{
    let x = chars_of(a);
    let y = chars_of(b);
    if x.len() != y.len() {
        return false;
    }
    for i in 0..x.len()
        invariant
            x@ == a@,
            y@ == b@,
            x@.len() == y@.len(),
            forall|j: int| 0 <= j < i ==> x@[j] == y@[j],
    {
        if x[i] != y[i] {
            return false;
        }
    }
    assert(x@ =~= y@);
    true
}

/// A check-up of the zone to run, with or without rebuilding it.
#[derive(Debug, Clone, Copy, PartialEq, Eq, Structural)]
pub struct CheckupRequest {
    pub reset: bool,
}

/// The firewall named by `which_output`, the answer of the probe
/// `(which firewalld || which iptables || echo error) | sed 's/^.*\///'`:
/// firewalld when the answer is exactly `firewalld` and a newline, to be
/// followed by a check-up that rebuilds the zone (so that a restarted daemon
/// starts from a clean zone); otherwise an error, `NotInstalled` when the answer
/// is exactly `error`.
pub fn init(which_output: &str) -> (r: Result<(FirewallType, CheckupRequest), FirewallError>)
    ensures
        which_output@ == "firewalld\n"@ ==> r == Ok::<
            (FirewallType, CheckupRequest),
            FirewallError,
        >((FirewallType::FIREWALLD, CheckupRequest { reset: true })),
        which_output@ != "firewalld\n"@ && which_output@ == "error"@ ==> r == Err::<
            (FirewallType, CheckupRequest),
            FirewallError,
        >(FirewallError::NotInstalled),
        which_output@ != "firewalld\n"@ && which_output@ != "error"@ ==> (r matches Err(
            FirewallError::BadFirewall(s),
        ) && s@ == which_output@),
{
    if same_text(which_output, "firewalld\n") {
        Ok((FirewallType::FIREWALLD, CheckupRequest { reset: true }))
    } else if same_text(which_output, "error") {
        Err(FirewallError::NotInstalled)
    } else {
        Err(FirewallError::BadFirewall(which_output.to_owned()))
    }
}

/// The commands that look after the zone of the daemon.
#[derive(Debug, Clone, Copy, PartialEq, Eq, Structural)]
pub enum ZoneCommand {
    /// List the zones, keeping the lines that start with the zone's name.
    ListZones,
    /// Create the zone (permanent).
    CreateZone,
    /// Delete the zone (permanent).
    DeleteZone,
    /// Reload the firewall.
    Reload,
}

/// The command line (program, then arguments) of the zone command `c`.
pub open spec fn zone_command_line(c: ZoneCommand) -> Seq<Seq<char>> {
    match c {
        ZoneCommand::ListZones => seq![
            "bash"@,
            "-c"@,
            "firewall-cmd --list-all-zones | egrep \"^knock-access\""@,
        ],
        ZoneCommand::CreateZone => seq![
            "firewall-cmd"@,
            "--new-zone=knock-access"@,
            "--permanent"@,
        ],
        ZoneCommand::DeleteZone => seq![
            "firewall-cmd"@,
            "--delete-zone=knock-access"@,
            "--permanent"@,
        ],
        ZoneCommand::Reload => seq!["firewall-cmd"@, "--reload"@],
    }
}

/// The command line (program, then arguments) of the zone command `c`.
fn zone_line(c: ZoneCommand) -> (line: Vec<String>)
    ensures
        line.deep_view() == zone_command_line(c),
{
    let mut line: Vec<String> = Vec::new();
    match c {
        ZoneCommand::ListZones => {
            line.push(String::from_str("bash"));
            line.push(String::from_str("-c"));
            line.push(String::from_str("firewall-cmd --list-all-zones | egrep \"^knock-access\""));
        },
        ZoneCommand::CreateZone => {
            line.push(String::from_str("firewall-cmd"));
            line.push(String::from_str("--new-zone=knock-access"));
            line.push(String::from_str("--permanent"));
        },
        ZoneCommand::DeleteZone => {
            line.push(String::from_str("firewall-cmd"));
            line.push(String::from_str("--delete-zone=knock-access"));
            line.push(String::from_str("--permanent"));
        },
        ZoneCommand::Reload => {
            line.push(String::from_str("firewall-cmd"));
            line.push(String::from_str("--reload"));
        },
    }
    assert(line.deep_view() =~= zone_command_line(c));
    line
}

/// The command line (program, then arguments) of the zone command `c` for the
/// firewall `kind`; `NoControl` when no firewall was identified.
pub fn zone_command(kind: FirewallType, c: ZoneCommand) -> (r: Result<Vec<String>, FirewallError>)
    ensures
        kind == FirewallType::UNDEFINED ==> r == Err::<Vec<String>, FirewallError>(
            FirewallError::NoControl,
        ),
        kind == FirewallType::FIREWALLD ==> (r matches Ok(line) && line.deep_view()
            == zone_command_line(c)),
{
    match kind {
        FirewallType::UNDEFINED => Err(FirewallError::NoControl),
        FirewallType::FIREWALLD => Ok(zone_line(c)),
    }
}

/// The command line that adds the TCP port `p` to the zone:
/// `firewall-cmd --zone=knock-access --add-port=<p>/tcp`.
pub open spec fn add_port_line(p: u16) -> Seq<Seq<char>> {
    seq!["firewall-cmd"@, "--zone=knock-access"@, "--add-port="@ + decimal(p as nat) + "/tcp"@]
}

/// The command line that adds the TCP port `port` to the zone.
pub fn add_port_command(port: u16) -> (line: Vec<String>)
    ensures
        line.deep_view() == add_port_line(port),
{
    let mut line: Vec<String> = Vec::new();
    line.push(String::from_str("firewall-cmd"));
    line.push(String::from_str("--zone=knock-access"));
    line.push(add_port_arg(port));
    assert(line.deep_view() =~= add_port_line(port));
    line
}

/// The commands of a check-up, in order, once it is known whether the zone
/// exists: a missing zone is created, the firewall reloaded, and each port of
/// `ports` added to the zone in turn; an existing zone, when `reset` asks for a
/// rebuild, is deleted and the firewall reloaded; otherwise nothing.
pub open spec fn checkup_commands(reset: bool, zone_exists: bool, ports: Seq<u16>) -> Seq<
    Seq<Seq<char>>,
> {
    if !zone_exists {
        seq![zone_command_line(ZoneCommand::CreateZone), zone_command_line(ZoneCommand::Reload)]
            + ports.map_values(|p: u16| add_port_line(p))
    } else if reset {
        seq![zone_command_line(ZoneCommand::DeleteZone), zone_command_line(ZoneCommand::Reload)]
    } else {
        Seq::empty()
    }
}

/// The check-up that follows: after a rebuild's deletion, the zone is checked
/// again (listed, then created), without reset.
pub open spec fn checkup_after(reset: bool, zone_exists: bool) -> Option<CheckupRequest> {
    if zone_exists && reset {
        Some(CheckupRequest { reset: false })
    } else {
        None
    }
}

/// What a check-up does: the command lines to run in order, then the check-up
/// to run after them, if any.
pub struct CheckupPlan {
    pub commands: Vec<Vec<String>>,
    pub check_again: Option<CheckupRequest>,
}

/// The check-up of the zone of the firewall `kind` with the controlled ports
/// `ports`, once the zone listing (see `is_firewall_zone_exists`) told whether
/// the zone exists: the commands of `checkup_commands`, then the check-up of
/// `checkup_after`. Without an identified firewall nothing can be done:
/// `NoControl`.
pub fn checkup(kind: FirewallType, reset: bool, zone_exists: bool, ports: &Vec<u16>) -> (r: Result<
    CheckupPlan,
    FirewallError,
>)
    ensures
        kind == FirewallType::UNDEFINED ==> r is Err && r->Err_0 == FirewallError::NoControl,
        kind == FirewallType::FIREWALLD ==> (r matches Ok(plan) && plan.commands.deep_view()
            == checkup_commands(reset, zone_exists, ports@) && plan.check_again == checkup_after(
            reset,
            zone_exists,
        )),
{
    if kind == FirewallType::UNDEFINED {
        return Err(FirewallError::NoControl);
    }
    let mut commands: Vec<Vec<String>> = Vec::new();
    if !zone_exists {
        commands.push(zone_line(ZoneCommand::CreateZone));
        commands.push(zone_line(ZoneCommand::Reload));
        let ghost head = commands.deep_view();
        for i in 0..ports.len()
            invariant
                commands.deep_view() == head + ports@.take(i as int).map_values(
                    |p: u16| add_port_line(p),
                ),
        {
            let line = add_port_command(ports[i]);
            let ghost before = commands.deep_view();
            commands.push(line);
            assert(commands.deep_view() =~= before.push(add_port_line(ports@[i as int])));
            assert(ports@.take(i + 1).map_values(|p: u16| add_port_line(p)) =~= ports@.take(
                i as int,
            ).map_values(|p: u16| add_port_line(p)).push(add_port_line(ports@[i as int])));
        }
        assert(ports@.take(ports@.len() as int) =~= ports@);
        assert(commands.deep_view() =~= checkup_commands(reset, zone_exists, ports@));
        Ok(CheckupPlan { commands, check_again: None })
    } else if reset {
        commands.push(zone_line(ZoneCommand::DeleteZone));
        commands.push(zone_line(ZoneCommand::Reload));
        assert(commands.deep_view() =~= checkup_commands(reset, zone_exists, ports@));
        Ok(CheckupPlan { commands, check_again: Some(CheckupRequest { reset: false }) })
    } else {
        assert(commands.deep_view() =~= checkup_commands(reset, zone_exists, ports@));
        Ok(CheckupPlan { commands, check_again: None })
    }
}

/// Whether the listing of the firewall zones has a line for the zone of the
/// daemon (see `lists_zone`).
pub fn is_firewall_zone_exists(listing: &str) -> (r: bool)
    ensures
        r == crate::pattern::regex_is_match(crate::pattern::ZONE_PATTERN@, listing@),
        r ==> crate::pattern::lists_zone(listing@, false),
        crate::pattern::lists_zone(listing@, true) ==> r,
{
    crate::pattern::zone_listed(listing)
}

/// `String::push`: appends the character `c` at the end of `s`.
#[verifier::external_body]
fn push_char(s: &mut String, c: char)
    ensures
        final(s)@ == old(s)@.push(c),
{
    s.push(c)
}

/// The character of the decimal digit `d`.
pub open spec fn digit_char(d: nat) -> char {
    (48 + d) as char
}

/// `n` written in decimal, without leading zeros.
pub open spec fn decimal(n: nat) -> Seq<char>
    decreases n,
{
    if n < 10 {
        seq![digit_char(n)]
    } else {
        decimal(n / 10).push(digit_char(n % 10))
    }
}

/// Appends `n`, written in decimal, to `s`.
pub fn push_decimal(s: &mut String, n: u16)
    ensures
        final(s)@ == old(s)@ + decimal(n as nat),
    decreases n,
{
    if n >= 10 {
        push_decimal(s, n / 10);
    }
    let d: u8 = (n % 10) as u8;
    push_char(s, (48u8 + d) as char);
    assert(s@ =~= old(s)@ + decimal(n as nat));
}

/// The argument of `firewall-cmd` that adds the TCP port `port` to the zone:
/// `--add-port=<port>/tcp`.
pub fn add_port_arg(port: u16) -> (r: String)
    ensures
        r@ == "--add-port="@ + decimal(port as nat) + "/tcp"@,
{
    let mut s = String::from_str("--add-port=");
    push_decimal(&mut s, port);
    s.append("/tcp");
    s
}

/// Whether the address `ip` is an IPv4 address, kept in its IPv4-mapped IPv6
/// form `::ffff:a.b.c.d`.
pub open spec fn is_ipv4_mapped(ip: u128) -> bool {
    ip / 0x1_0000_0000 == 0xffff
}

/// The character of the hexadecimal digit `d` (lower case).
pub open spec fn hex_digit_char(d: nat) -> char {
    if d < 10 {
        (48 + d) as char
    } else {
        (87 + d) as char
    }
}

/// `n` written in lower-case hexadecimal, without leading zeros.
pub open spec fn hex(n: nat) -> Seq<char>
    decreases n,
{
    if n < 16 {
        seq![hex_digit_char(n)]
    } else {
        hex(n / 16).push(hex_digit_char(n % 16))
    }
}

/// The IPv4 address `ip` (IPv4-mapped) in dotted decimal.
pub open spec fn ipv4_text(ip: u128) -> Seq<char> {
    decimal((ip / 0x100_0000 % 256) as nat) + "."@ + decimal((ip / 0x1_0000 % 256) as nat) + "."@
        + decimal((ip / 0x100 % 256) as nat) + "."@ + decimal((ip % 256) as nat)
}

/// The IPv6 address `ip` as its eight groups of hexadecimal digits,
/// uncompressed (`0:0:0:0:0:0:0:1` where the shortened form is `::1`): both forms
/// name the same address, and `firewall-cmd` takes either.
pub open spec fn ipv6_text(ip: u128) -> Seq<char> {
    hex((ip / 0x1_0000_0000_0000_0000_0000_0000_0000 % 0x1_0000) as nat) + ":"@ + hex(
        (ip / 0x1_0000_0000_0000_0000_0000_0000 % 0x1_0000) as nat,
    ) + ":"@ + hex((ip / 0x1_0000_0000_0000_0000_0000 % 0x1_0000) as nat) + ":"@ + hex(
        (ip / 0x1_0000_0000_0000_0000 % 0x1_0000) as nat,
    ) + ":"@ + hex((ip / 0x1_0000_0000_0000 % 0x1_0000) as nat) + ":"@ + hex(
        (ip / 0x1_0000_0000 % 0x1_0000) as nat,
    ) + ":"@ + hex((ip / 0x1_0000 % 0x1_0000) as nat) + ":"@ + hex((ip % 0x1_0000) as nat)
}

/// The address `ip` followed by the length of its whole address, so that the
/// rule covers that address alone: `a.b.c.d/32` for IPv4, `x:x:x:x:x:x:x:x/128`
/// for IPv6.
pub open spec fn single_address(ip: u128) -> Seq<char> {
    if is_ipv4_mapped(ip) {
        ipv4_text(ip) + "/32"@
    } else {
        ipv6_text(ip) + "/128"@
    }
}

/// The text of the rule that lets `ip` into the zone, when `add`, or out of it.
pub open spec fn source_rule_text(ip: u128, add: bool) -> Seq<char> {
    (if add {
        "--add-source="@
    } else {
        "--remove-source="@
    }) + single_address(ip)
}

/// Whether `r` is the answer owed for the rule that lets `ip` in (when `add`) or
/// out, with the firewall `kind`: the arguments `--zone=knock-access` and the
/// rule text for firewalld; `NoControl` when no firewall was identified.
pub open spec fn is_source_rule(
    r: Result<Vec<String>, FirewallError>,
    kind: FirewallType,
    ip: u128,
    add: bool,
) -> bool {
    match kind {
        FirewallType::UNDEFINED => r == Err::<Vec<String>, FirewallError>(
            FirewallError::NoControl,
        ),
        FirewallType::FIREWALLD => r matches Ok(args) && args@.len() == 2 && args@[0]@
            == "--zone=knock-access"@ && args@[1]@ == source_rule_text(ip, add),
    }
}

/// Appends `n`, written in lower-case hexadecimal, to `s`.
pub fn push_hex(s: &mut String, n: u16)
    ensures
        final(s)@ == old(s)@ + hex(n as nat),
    decreases n,
{
    if n >= 16 {
        push_hex(s, n / 16);
    }
    let d: u8 = (n % 16) as u8;
    if d < 10 {
        push_char(s, (48u8 + d) as char);
    } else {
        push_char(s, (87u8 + d) as char);
    }
    assert(s@ =~= old(s)@ + hex(n as nat));
}

/// Appends the IPv4 address `ip` (IPv4-mapped) in dotted decimal to `s`.
fn push_ipv4(s: &mut String, ip: u128)
    ensures
        final(s)@ == old(s)@ + ipv4_text(ip),
{
    push_decimal(s, (ip / 0x100_0000 % 256) as u16);
    s.append(".");
    push_decimal(s, (ip / 0x1_0000 % 256) as u16);
    s.append(".");
    push_decimal(s, (ip / 0x100 % 256) as u16);
    s.append(".");
    push_decimal(s, (ip % 256) as u16);
    assert(s@ =~= old(s)@ + ipv4_text(ip));
}

/// Appends the IPv6 address `ip` as its eight groups to `s`.
fn push_ipv6(s: &mut String, ip: u128)
    ensures
        final(s)@ == old(s)@ + ipv6_text(ip),
{
    push_hex(s, (ip / 0x1_0000_0000_0000_0000_0000_0000_0000 % 0x1_0000) as u16);
    s.append(":");
    push_hex(s, (ip / 0x1_0000_0000_0000_0000_0000_0000 % 0x1_0000) as u16);
    s.append(":");
    push_hex(s, (ip / 0x1_0000_0000_0000_0000_0000 % 0x1_0000) as u16);
    s.append(":");
    push_hex(s, (ip / 0x1_0000_0000_0000_0000 % 0x1_0000) as u16);
    s.append(":");
    push_hex(s, (ip / 0x1_0000_0000_0000 % 0x1_0000) as u16);
    s.append(":");
    push_hex(s, (ip / 0x1_0000_0000 % 0x1_0000) as u16);
    s.append(":");
    push_hex(s, (ip / 0x1_0000 % 0x1_0000) as u16);
    s.append(":");
    push_hex(s, (ip % 0x1_0000) as u16);
    assert(s@ =~= old(s)@ + ipv6_text(ip));
}

/// Appends the address `ip` and the length of its whole address (see
/// `single_address`) to `s`.
pub fn push_single_address(s: &mut String, ip: u128)
    ensures
        final(s)@ == old(s)@ + single_address(ip),
{
    if ip / 0x1_0000_0000 == 0xffff {
        push_ipv4(s, ip);
        s.append("/32");
    } else {
        push_ipv6(s, ip);
        s.append("/128");
    }
    assert(s@ =~= old(s)@ + single_address(ip));
}

/// The arguments of `firewall-cmd` that let the address `ip` into the zone,
/// when `add`, or out of it; the rule covers that address alone.
pub fn source_rule(kind: FirewallType, ip: u128, add: bool) -> (r: Result<
    Vec<String>,
    FirewallError,
>)
    ensures
        is_source_rule(r, kind, ip, add),
{
    match kind {
        FirewallType::UNDEFINED => Err(FirewallError::NoControl),
        FirewallType::FIREWALLD => {
            let mut rule = if add {
                String::from_str("--add-source=")
            } else {
                String::from_str("--remove-source=")
            };
            push_single_address(&mut rule, ip);
            let mut args: Vec<String> = Vec::new();
            args.push(String::from_str("--zone=knock-access"));
            args.push(rule);
            Ok(args)
        },
    }
}

/// The arguments of `firewall-cmd` that open the door to `ip`.
pub fn open(kind: FirewallType, ip: u128) -> (r: Result<Vec<String>, FirewallError>)
    ensures
        is_source_rule(r, kind, ip, true),
{
    source_rule(kind, ip, true)
}

/// The arguments of `firewall-cmd` that close the door to `ip`.
pub fn close(kind: FirewallType, ip: u128) -> (r: Result<Vec<String>, FirewallError>)
    ensures
        is_source_rule(r, kind, ip, false),
{
    source_rule(kind, ip, false)
}

/// The check-up ends: a check-up asks for at most one more, which does not
/// rebuild; a missing zone is always created, then filled with the ports in
/// their order; a zone that exists is left alone without reset.
pub proof fn law_checkup_rebuilds_at_most_once(zone_exists: bool, reset: bool, ports: Seq<u16>)
    ensures
        checkup_after(reset, zone_exists) is Some ==> checkup_after(reset, zone_exists)->0
            == (CheckupRequest { reset: false }),
        checkup_after(false, zone_exists) is None,
        !zone_exists ==> checkup_commands(reset, zone_exists, ports).len() == ports.len() + 2
            && checkup_commands(reset, zone_exists, ports)[0] == zone_command_line(
            ZoneCommand::CreateZone,
        ) && checkup_commands(reset, zone_exists, ports)[1] == zone_command_line(
            ZoneCommand::Reload,
        ) && forall|i: int|
            0 <= i < ports.len() ==> #[trigger] checkup_commands(reset, zone_exists, ports)[i
                + 2] == add_port_line(ports[i]),
        zone_exists && !reset ==> checkup_commands(reset, zone_exists, ports).len() == 0,
{
}

proof fn lemma_decimal(n: nat)
    ensures
        decimal(n).len() > 0,
        decimal(n)[0] != '+',
        forall|i: int|
            0 <= i < decimal(n).len() ==> crate::data::is_ascii_digit(#[trigger] decimal(n)[i]),
        crate::data::digits_value(decimal(n)) == n,
    decreases n,
{
    let d = decimal(n);
    assert(digit_char(n % 10) as nat == 48 + n % 10);
    if n >= 10 {
        let m: nat = n / 10;
        lemma_decimal(m);
        assert(d.drop_last() =~= decimal(m));
        assert(d.last() == digit_char(n % 10));
        assert(crate::data::digits_value(d.drop_last()) == m);
        assert(crate::data::digits_value(d) == m * 10 + (d.last() as nat - '0' as nat) as nat);
        assert((d.last() as nat - '0' as nat) as nat == n % 10);
        assert(crate::data::digits_value(d) == n);
        assert forall|i: int| 0 <= i < d.len() implies crate::data::is_ascii_digit(
            #[trigger] d[i],
        ) by {
            if i < d.len() - 1 {
                assert(d[i] == decimal(m)[i]);
            }
        }
    } else {
        assert(d.drop_last() =~= Seq::<char>::empty());
        assert(d.last() == digit_char(n));
        assert(crate::data::digits_value(d.drop_last()) == 0);
        assert(crate::data::digits_value(d) == (d.last() as nat - '0' as nat) as nat);
        assert((d.last() as nat - '0' as nat) as nat == n);
    }
}

/// A port written in a rule reads back as the same port: the decimal text of a
/// `u16` is read by `u16::from_str` (see `parse_u16`) as that number.
pub proof fn law_decimal_reads_back(port: u16)
    ensures
        crate::data::parse_u16(decimal(port as nat)) == Some(port),
{
    lemma_decimal(port as nat);
    assert(crate::data::unsigned_part(decimal(port as nat)) == decimal(port as nat));
}

/// A door lets in its client alone, and closing it takes out what opening it let
/// in: both rules name the same address with the length of the whole address
/// (32 bits for IPv4, 128 for IPv6).
pub proof fn law_rules_cover_the_client_alone(ip: u128)
    ensures
        source_rule_text(ip, true) == "--add-source="@ + single_address(ip),
        source_rule_text(ip, false) == "--remove-source="@ + single_address(ip),
        is_ipv4_mapped(ip) ==> single_address(ip) == ipv4_text(ip) + "/32"@,
        !is_ipv4_mapped(ip) ==> single_address(ip) == ipv6_text(ip) + "/128"@,
{
}

} // verus!

verus! {

/// `s` cut at each `sep`, as `str::split(sep)` cuts it: `n` separators give
/// `n + 1` pieces, some of them possibly empty.
pub open spec fn split_at_char(s: Seq<char>, sep: char) -> Seq<Seq<char>>
    decreases s.len(),
{
    if s.len() == 0 {
        seq![Seq::empty()]
    } else {
        let prev = split_at_char(s.drop_last(), sep);
        if s.last() == sep {
            prev.push(Seq::empty())
        } else {
            prev.update(prev.len() - 1, prev.last().push(s.last()))
        }
    }
}

proof fn lemma_split_not_empty(s: Seq<char>, sep: char)
    ensures
        split_at_char(s, sep).len() >= 1,
    decreases s.len(),
{
    if s.len() > 0 {
        lemma_split_not_empty(s.drop_last(), sep);
    }
}

proof fn lemma_split_without_sep(s: Seq<char>, sep: char)
    requires
        forall|i: int| 0 <= i < s.len() ==> s[i] != sep,
    ensures
        split_at_char(s, sep) == seq![s],
    decreases s.len(),
{
    if s.len() == 0 {
        assert(s =~= Seq::<char>::empty());
        assert(split_at_char(s, sep) =~= seq![s]);
    } else {
        lemma_split_without_sep(s.drop_last(), sep);
        assert(s.last() != sep);
        let prev = split_at_char(s.drop_last(), sep);
        assert(prev.len() == 1 && prev.last() == s.drop_last());
        assert(s.drop_last().push(s.last()) =~= s);
        assert(split_at_char(s, sep) == prev.update(prev.len() - 1, prev.last().push(s.last())));
        assert(prev.update(0, prev.last().push(s.last())) =~= seq![s]);
    }
}

proof fn lemma_split_concat(x: Seq<char>, y: Seq<char>, sep: char)
    ensures
        split_at_char(x + seq![sep] + y, sep) == split_at_char(x, sep) + split_at_char(y, sep),
    decreases y.len(),
{
    let z = x + seq![sep] + y;
    if y.len() == 0 {
        assert(z == x.push(sep));
        assert(z.drop_last() == x);
        assert(split_at_char(z, sep) =~= split_at_char(x, sep) + split_at_char(y, sep));
    } else {
        let y1 = y.drop_last();
        lemma_split_concat(x, y1, sep);
        lemma_split_not_empty(y1, sep);
        assert(z.drop_last() == x + seq![sep] + y1);
        assert(z.last() == y.last());
        let a = split_at_char(x, sep);
        let b = split_at_char(y1, sep);
        if y.last() == sep {
            assert(split_at_char(z, sep) =~= a + b.push(Seq::empty()));
        } else {
            assert((a + b).last() == b.last());
            assert((a + b).update((a + b).len() - 1, (a + b).last().push(y.last())) =~= a
                + b.update(b.len() - 1, b.last().push(y.last())));
        }
        assert(split_at_char(z, sep) =~= split_at_char(x, sep) + split_at_char(y, sep));
    }
}

proof fn lemma_decimal_field(n: nat)
    requires
        n <= u16::MAX,
    ensures
        split_at_char(decimal(n), '.') == seq![decimal(n)],
        crate::data::parse_u16(decimal(n)) == Some(n as u16),
{
    lemma_decimal(n);
    assert forall|i: int| 0 <= i < decimal(n).len() implies decimal(n)[i] != '.' by {
        assert(crate::data::is_ascii_digit(decimal(n)[i]));
    }
    lemma_split_without_sep(decimal(n), '.');
    law_decimal_reads_back(n as u16);
}

/// The IPv4 address of a rule reads back as the client's address: for an
/// IPv4-mapped address, the rule text is the verb, then four dot-separated
/// decimal numbers below 256 that give back the address's four low bytes from
/// the highest to the lowest, then `/32`.
pub proof fn law_ipv4_rule_names_the_client(ip: u128, add: bool)
    requires
        is_ipv4_mapped(ip),
    ensures
        ({
            let verb = if add {
                "--add-source="@
            } else {
                "--remove-source="@
            };
            let t = source_rule_text(ip, add);
            let address = t.subrange(verb.len() as int, t.len() - 3);
            let f = split_at_char(address, '.');
            &&& t.len() >= verb.len() + 3
            &&& t.take(verb.len() as int) == verb
            &&& t.skip(t.len() - 3) == "/32"@
            &&& f.len() == 4
            &&& forall|i: int|
                0 <= i < 4 ==> #[trigger] crate::data::parse_u16(f[i]) is Some
                    && crate::data::parse_u16(f[i])->0 < 256
            &&& crate::data::parse_u16(f[0])->0 * 0x100_0000 + crate::data::parse_u16(f[1])->0
                * 0x1_0000 + crate::data::parse_u16(f[2])->0 * 0x100 + crate::data::parse_u16(
                f[3],
            )->0 == ip % 0x1_0000_0000
        }),
{
    let verb = if add {
        "--add-source="@
    } else {
        "--remove-source="@
    };
    let a: nat = (ip / 0x100_0000 % 256) as nat;
    let b: nat = (ip / 0x1_0000 % 256) as nat;
    let c: nat = (ip / 0x100 % 256) as nat;
    let d: nat = (ip % 256) as nat;
    reveal_strlit(".");
    reveal_strlit("/32");
    assert("."@ == seq!['.']);
    lemma_decimal_field(a);
    lemma_decimal_field(b);
    lemma_decimal_field(c);
    lemma_decimal_field(d);
    let x1 = decimal(a);
    let x2 = x1 + seq!['.'] + decimal(b);
    let x3 = x2 + seq!['.'] + decimal(c);
    let x4 = x3 + seq!['.'] + decimal(d);
    lemma_split_concat(x1, decimal(b), '.');
    lemma_split_concat(x2, decimal(c), '.');
    lemma_split_concat(x3, decimal(d), '.');
    assert(ipv4_text(ip) == x4);
    let t = source_rule_text(ip, add);
    assert(t == verb + x4 + "/32"@);
    assert(t.subrange(verb.len() as int, t.len() - 3) =~= x4);
    assert(t.take(verb.len() as int) =~= verb);
    assert(t.skip(t.len() - 3) =~= "/32"@);
    let f = split_at_char(x4, '.');
    assert(f =~= seq![decimal(a), decimal(b), decimal(c), decimal(d)]);
    assert(a * 0x100_0000 + b * 0x1_0000 + c * 0x100 + d == ip % 0x1_0000_0000) by (nonlinear_arith)
        requires
            a == ip / 0x100_0000 % 256,
            b == ip / 0x1_0000 % 256,
            c == ip / 0x100 % 256,
            d == ip % 256,
    ;
}

/// Whether `c` is a lower-case hexadecimal digit.
pub open spec fn is_hex_digit(c: char) -> bool {
    ('0' <= c <= '9') || ('a' <= c <= 'f')
}

/// The value of the lower-case hexadecimal digit `c`.
pub open spec fn hex_digit_value(c: char) -> nat {
    if c <= '9' {
        (c as nat - '0' as nat) as nat
    } else {
        (c as nat - 'a' as nat + 10) as nat
    }
}

/// The number written in hexadecimal with the digits `d`.
pub open spec fn hex_value(d: Seq<char>) -> nat
    decreases d.len(),
{
    if d.len() == 0 {
        0
    } else {
        hex_value(d.drop_last()) * 16 + hex_digit_value(d.last())
    }
}

proof fn lemma_hex(n: nat)
    ensures
        hex(n).len() > 0,
        forall|i: int| 0 <= i < hex(n).len() ==> is_hex_digit(#[trigger] hex(n)[i]),
        hex_value(hex(n)) == n,
    decreases n,
{
    let d = hex(n);
    let r: nat = n % 16;
    assert(r < 10 ==> hex_digit_char(r) as nat == 48 + r);
    assert(r >= 10 ==> hex_digit_char(r) as nat == 87 + r);
    assert(hex_digit_value(hex_digit_char(r)) == r);
    assert(is_hex_digit(hex_digit_char(r)));
    if n >= 16 {
        let m: nat = n / 16;
        lemma_hex(m);
        assert(d.drop_last() =~= hex(m));
        assert(d.last() == hex_digit_char(r));
        assert(hex_value(d) == m * 16 + r);
        assert forall|i: int| 0 <= i < d.len() implies is_hex_digit(#[trigger] d[i]) by {
            if i < d.len() - 1 {
                assert(d[i] == hex(m)[i]);
            }
        }
    } else {
        assert(d.drop_last() =~= Seq::<char>::empty());
        assert(d.last() == hex_digit_char(r));
        assert(hex_value(d.drop_last()) == 0);
    }
}

proof fn lemma_hex_field(n: nat)
    ensures
        split_at_char(hex(n), ':') == seq![hex(n)],
        hex(n).len() > 0,
        forall|i: int| 0 <= i < hex(n).len() ==> is_hex_digit(#[trigger] hex(n)[i]),
        hex_value(hex(n)) == n,
{
    lemma_hex(n);
    assert forall|i: int| 0 <= i < hex(n).len() implies hex(n)[i] != ':' by {
        assert(is_hex_digit(hex(n)[i]));
    }
    lemma_split_without_sep(hex(n), ':');
}

proof fn lemma_groups(ip: u128)
    ensures
        ({
            let g0: nat = (ip % 0x1_0000) as nat;
            let g1: nat = (ip / 0x1_0000 % 0x1_0000) as nat;
            let g2: nat = (ip / 0x1_0000_0000 % 0x1_0000) as nat;
            let g3: nat = (ip / 0x1_0000_0000_0000 % 0x1_0000) as nat;
            let g4: nat = (ip / 0x1_0000_0000_0000_0000 % 0x1_0000) as nat;
            let g5: nat = (ip / 0x1_0000_0000_0000_0000_0000 % 0x1_0000) as nat;
            let g6: nat = (ip / 0x1_0000_0000_0000_0000_0000_0000 % 0x1_0000) as nat;
            let g7: nat = (ip / 0x1_0000_0000_0000_0000_0000_0000_0000 % 0x1_0000) as nat;
            g7 * 0x1_0000_0000_0000_0000_0000_0000_0000 + g6 * 0x1_0000_0000_0000_0000_0000_0000
            + g5 * 0x1_0000_0000_0000_0000_0000 + g4 * 0x1_0000_0000_0000_0000 + g3
            * 0x1_0000_0000_0000 + g2 * 0x1_0000_0000 + g1 * 0x1_0000 + g0 == ip
        }),
{
    let x: int = ip as int;
    let h: int = 0x1_0000;
    let q1: int = x / 0x1_0000;
    let q2: int = x / 0x1_0000_0000;
    let q3: int = x / 0x1_0000_0000_0000;
    let q4: int = x / 0x1_0000_0000_0000_0000;
    let q5: int = x / 0x1_0000_0000_0000_0000_0000;
    let q6: int = x / 0x1_0000_0000_0000_0000_0000_0000;
    let q7: int = x / 0x1_0000_0000_0000_0000_0000_0000_0000;
    let g0: nat = (ip % 0x1_0000) as nat;
    let g1: nat = (ip / 0x1_0000 % 0x1_0000) as nat;
    let g2: nat = (ip / 0x1_0000_0000 % 0x1_0000) as nat;
    let g3: nat = (ip / 0x1_0000_0000_0000 % 0x1_0000) as nat;
    let g4: nat = (ip / 0x1_0000_0000_0000_0000 % 0x1_0000) as nat;
    let g5: nat = (ip / 0x1_0000_0000_0000_0000_0000 % 0x1_0000) as nat;
    let g6: nat = (ip / 0x1_0000_0000_0000_0000_0000_0000 % 0x1_0000) as nat;
    let g7: nat = (ip / 0x1_0000_0000_0000_0000_0000_0000_0000 % 0x1_0000) as nat;
    vstd::arithmetic::div_mod::lemma_div_denominator(x, 0x1_0000, h);
    vstd::arithmetic::div_mod::lemma_div_denominator(x, 0x1_0000_0000, h);
    vstd::arithmetic::div_mod::lemma_div_denominator(x, 0x1_0000_0000_0000, h);
    vstd::arithmetic::div_mod::lemma_div_denominator(x, 0x1_0000_0000_0000_0000, h);
    vstd::arithmetic::div_mod::lemma_div_denominator(x, 0x1_0000_0000_0000_0000_0000, h);
    vstd::arithmetic::div_mod::lemma_div_denominator(x, 0x1_0000_0000_0000_0000_0000_0000, h);
    assert(q2 == q1 / h);
    assert(q3 == q2 / h);
    assert(q4 == q3 / h);
    assert(q5 == q4 / h);
    assert(q6 == q5 / h);
    assert(q7 == q6 / h);
    assert(x == q1 * h + g0);
    assert(q1 == q2 * h + g1);
    assert(q2 == q3 * h + g2);
    assert(q3 == q4 * h + g3);
    assert(q4 == q5 * h + g4);
    assert(q5 == q6 * h + g5);
    assert(q6 == q7 * h + g6);
    assert(q7 == g7);
    assert(g7 * 0x1_0000_0000_0000_0000_0000_0000_0000 + g6 * 0x1_0000_0000_0000_0000_0000_0000
        + g5 * 0x1_0000_0000_0000_0000_0000 + g4 * 0x1_0000_0000_0000_0000 + g3
        * 0x1_0000_0000_0000 + g2 * 0x1_0000_0000 + g1 * 0x1_0000 + g0 == ip);
}

proof fn lemma_ipv6_fields(ip: u128)
    ensures
        ({
            let g0: nat = (ip % 0x1_0000) as nat;
            let g1: nat = (ip / 0x1_0000 % 0x1_0000) as nat;
            let g2: nat = (ip / 0x1_0000_0000 % 0x1_0000) as nat;
            let g3: nat = (ip / 0x1_0000_0000_0000 % 0x1_0000) as nat;
            let g4: nat = (ip / 0x1_0000_0000_0000_0000 % 0x1_0000) as nat;
            let g5: nat = (ip / 0x1_0000_0000_0000_0000_0000 % 0x1_0000) as nat;
            let g6: nat = (ip / 0x1_0000_0000_0000_0000_0000_0000 % 0x1_0000) as nat;
            let g7: nat = (ip / 0x1_0000_0000_0000_0000_0000_0000_0000 % 0x1_0000) as nat;
            split_at_char(ipv6_text(ip), ':') == seq![
                hex(g7),
                hex(g6),
                hex(g5),
                hex(g4),
                hex(g3),
                hex(g2),
                hex(g1),
                hex(g0),
            ]
        }),
{
    let g0: nat = (ip % 0x1_0000) as nat;
    let g1: nat = (ip / 0x1_0000 % 0x1_0000) as nat;
    let g2: nat = (ip / 0x1_0000_0000 % 0x1_0000) as nat;
    let g3: nat = (ip / 0x1_0000_0000_0000 % 0x1_0000) as nat;
    let g4: nat = (ip / 0x1_0000_0000_0000_0000 % 0x1_0000) as nat;
    let g5: nat = (ip / 0x1_0000_0000_0000_0000_0000 % 0x1_0000) as nat;
    let g6: nat = (ip / 0x1_0000_0000_0000_0000_0000_0000 % 0x1_0000) as nat;
    let g7: nat = (ip / 0x1_0000_0000_0000_0000_0000_0000_0000 % 0x1_0000) as nat;
    reveal_strlit(":");
    assert(":"@ == seq![':']);
    lemma_hex_field(g7);
    lemma_hex_field(g6);
    lemma_hex_field(g5);
    lemma_hex_field(g4);
    lemma_hex_field(g3);
    lemma_hex_field(g2);
    lemma_hex_field(g1);
    lemma_hex_field(g0);
    let y1 = hex(g7);
    let y2 = y1 + seq![':'] + hex(g6);
    let y3 = y2 + seq![':'] + hex(g5);
    let y4 = y3 + seq![':'] + hex(g4);
    let y5 = y4 + seq![':'] + hex(g3);
    let y6 = y5 + seq![':'] + hex(g2);
    let y7 = y6 + seq![':'] + hex(g1);
    let y8 = y7 + seq![':'] + hex(g0);
    lemma_split_concat(y1, hex(g6), ':');
    lemma_split_concat(y2, hex(g5), ':');
    lemma_split_concat(y3, hex(g4), ':');
    lemma_split_concat(y4, hex(g3), ':');
    lemma_split_concat(y5, hex(g2), ':');
    lemma_split_concat(y6, hex(g1), ':');
    lemma_split_concat(y7, hex(g0), ':');
    assert(ipv6_text(ip) == y8);
    assert(split_at_char(y8, ':') =~= seq![
        hex(g7),
        hex(g6),
        hex(g5),
        hex(g4),
        hex(g3),
        hex(g2),
        hex(g1),
        hex(g0),
    ]);
}

/// The IPv6 address of a rule reads back as the client's address: for an address
/// that is not IPv4-mapped, the rule text is the verb, then eight colon-separated
/// groups of lower-case hexadecimal digits, each below `0x1_0000`, that give back
/// the address's eight 16-bit groups from the highest to the lowest, then `/128`.
pub proof fn law_ipv6_rule_names_the_client(ip: u128, add: bool)
    requires
        !is_ipv4_mapped(ip),
    ensures
        ({
            let verb = if add {
                "--add-source="@
            } else {
                "--remove-source="@
            };
            let t = source_rule_text(ip, add);
            let address = t.subrange(verb.len() as int, t.len() - 4);
            let f = split_at_char(address, ':');
            &&& t.len() >= verb.len() + 4
            &&& t.take(verb.len() as int) == verb
            &&& t.skip(t.len() - 4) == "/128"@
            &&& f.len() == 8
            &&& forall|i: int|
                0 <= i < 8 ==> #[trigger] f[i].len() > 0 && hex_value(f[i]) < 0x1_0000 && (
                forall|j: int| 0 <= j < f[i].len() ==> is_hex_digit(#[trigger] f[i][j]))
            &&& hex_value(f[0]) * 0x1_0000_0000_0000_0000_0000_0000_0000 + hex_value(f[1])
                * 0x1_0000_0000_0000_0000_0000_0000 + hex_value(f[2])
                * 0x1_0000_0000_0000_0000_0000 + hex_value(f[3]) * 0x1_0000_0000_0000_0000
                + hex_value(f[4]) * 0x1_0000_0000_0000 + hex_value(f[5]) * 0x1_0000_0000
                + hex_value(f[6]) * 0x1_0000 + hex_value(f[7]) == ip
        }),
{
    let verb = if add {
        "--add-source="@
    } else {
        "--remove-source="@
    };
    let g0: nat = (ip % 0x1_0000) as nat;
    let g1: nat = (ip / 0x1_0000 % 0x1_0000) as nat;
    let g2: nat = (ip / 0x1_0000_0000 % 0x1_0000) as nat;
    let g3: nat = (ip / 0x1_0000_0000_0000 % 0x1_0000) as nat;
    let g4: nat = (ip / 0x1_0000_0000_0000_0000 % 0x1_0000) as nat;
    let g5: nat = (ip / 0x1_0000_0000_0000_0000_0000 % 0x1_0000) as nat;
    let g6: nat = (ip / 0x1_0000_0000_0000_0000_0000_0000 % 0x1_0000) as nat;
    let g7: nat = (ip / 0x1_0000_0000_0000_0000_0000_0000_0000 % 0x1_0000) as nat;
    lemma_groups(ip);
    lemma_ipv6_fields(ip);
    lemma_hex_field(g7);
    lemma_hex_field(g6);
    lemma_hex_field(g5);
    lemma_hex_field(g4);
    lemma_hex_field(g3);
    lemma_hex_field(g2);
    lemma_hex_field(g1);
    lemma_hex_field(g0);
    reveal_strlit("/128");
    let t = source_rule_text(ip, add);
    let y8 = ipv6_text(ip);
    assert(t == verb + y8 + "/128"@);
    assert(t.subrange(verb.len() as int, t.len() - 4) =~= y8);
    assert(t.take(verb.len() as int) =~= verb);
    assert(t.skip(t.len() - 4) =~= "/128"@);
}

} // verus!
