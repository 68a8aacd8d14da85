use port_knocking_doors::firewall::CheckupRequest;
use port_knocking_doors::args::Args;
use port_knocking_doors::config::{default_config, load_conf, Config};
use port_knocking_doors::knock::Knock;
use port_knocking_doors::knockers::MAX_KNOCKER_LIVE_TIME;
use port_knocking_doors::workflow::{Chores, Housekeeping, Msg, Workflow};

#[test]
fn knocks_and_quit() {
    let mut w = Workflow::new(vec![1, 2]);
    assert_eq!(w.treat_message(Msg::KNOCK(Knock::new(9, 1, 0)), 0), None);
    assert_eq!(w.treat_message(Msg::KNOCK(Knock::new(9, 2, 1)), 1), Some(9));
    assert!(!w.want_to_quit());
    assert_eq!(w.treat_message(Msg::QUIT, 2), None);
    assert!(w.want_to_quit());
}

#[test]
fn workflow_clean_up_forgets_progress() {
    let mut w = Workflow::new(vec![1, 2]);
    w.treat_message(Msg::KNOCK(Knock::new(9, 1, 0)), 0);
    w.clean_up(MAX_KNOCKER_LIVE_TIME + 1);
    // the client starts over: its next knock on 2 is wrong
    assert_eq!(w.treat_message(Msg::KNOCK(Knock::new(9, 2, MAX_KNOCKER_LIVE_TIME + 2)), MAX_KNOCKER_LIVE_TIME + 2), None);
}

#[test]
fn housekeeping_periods() {
    let mut h = Housekeeping::new(0, 10, 100);
    assert_eq!(h.tick(10), Chores { clean_knockers: false, clean_doors: false, check_firewall: None });
    assert_eq!(h.tick(11), Chores { clean_knockers: false, clean_doors: true, check_firewall: None });
    assert_eq!(h.tick(21), Chores { clean_knockers: false, clean_doors: false, check_firewall: None });
    assert_eq!(h.tick(101), Chores { clean_knockers: false, clean_doors: true, check_firewall: Some(CheckupRequest { reset: false }) });
    let t = MAX_KNOCKER_LIVE_TIME + 1;
    let c = h.tick(t);
    assert!(c.clean_knockers && c.clean_doors && c.check_firewall.is_some());
    assert_eq!(h.last_knock_cleanup, t);
}

#[test]
fn config_search_order() {
    let c = |p: u16| Config { ports_to_controls: vec![p], opening_sequence: vec![1, 2, 3, 4, 5] };
    assert_eq!(load_conf(Some(c(1)), Some(c(2)), Some(c(3))).ports_to_controls, vec![1]);
    assert_eq!(load_conf(None, Some(c(2)), Some(c(3))).ports_to_controls, vec![2]);
    assert_eq!(load_conf(None, None, Some(c(3))).ports_to_controls, vec![3]);
    let d = load_conf(None, None, None);
    assert_eq!(d.ports_to_controls, vec![22]);
    assert_eq!(d.opening_sequence, vec![16001, 16002, 16003, 16004, 16005]);
    assert_eq!(default_config().ports_to_controls, vec![22]);
}

#[test]
fn args_defaults() {
    let a = Args::default();
    assert_eq!(a.magic_seq, "#####");
    assert_eq!(a.ports, "#####");
    assert_eq!(a.conf, "");
}

#[test]
fn chores_spaced_over_many_turns() {
    let step = 100_000_000u64;
    let mut h = Housekeeping::new(0, 1_000_000_000, 60_000_000_000);
    let mut last: [Option<u64>; 3] = [None, None, None];
    let periods = [MAX_KNOCKER_LIVE_TIME, 1_000_000_000, 60_000_000_000];
    let mut counts = [0; 3];
    for i in 1..2000u64 {
        let now = i * step;
        let c = h.tick(now);
        for (k, done) in [c.clean_knockers, c.clean_doors, c.check_firewall.is_some()].iter().enumerate() {
            if *done {
                if let Some(prev) = last[k] {
                    assert!(now - prev > periods[k]);
                }
                last[k] = Some(now);
                counts[k] += 1;
            }
        }
    }
    assert_eq!(counts, [6, 181, 3]);
}

#[test]
fn chores_spaced_even_if_the_clock_goes_back() {
    let mut h = Housekeeping::new(1_000, 10, 10);
    assert!(h.tick(1_011).clean_doors);
    // an earlier instant does not make the chore due again
    assert!(!h.tick(500).clean_doors);
    assert!(!h.tick(1_021).clean_doors);
    assert!(h.tick(1_022).clean_doors);
}
