use port_knocking_doors::knock::Knock;
use port_knocking_doors::knockers::{
    elapsed_between, Knocker, Knockers, IGNORING_TIME_AFTER_ERROR, MAX_KNOCKER_LIVE_TIME,
};

const S: u64 = 1_000_000_000;

fn seq() -> Vec<u16> {
    vec![16001, 16002, 16003, 16004, 16005]
}

#[test]
fn knock_new_keeps_its_fields() {
    let k = Knock::new(7, 16001, 42);
    assert_eq!(k, Knock { ip: 7, port: 16001, when: 42 });
}

#[test]
fn elapsed_saturates() {
    assert_eq!(elapsed_between(10, 3), 7);
    assert_eq!(elapsed_between(3, 10), 0);
}

#[test]
fn whole_sequence_opens_on_last_knock() {
    let mut ks = Knockers::new(seq());
    let mut opened = vec![];
    for (i, p) in seq().into_iter().enumerate() {
        let t = i as u64 * S;
        opened.push(ks.event(Knock::new(1, p, t), t));
    }
    assert_eq!(opened, vec![false, false, false, false, true]);
    assert_eq!(ks.knocker(1), Some(Knocker { next_step: 5, last_knock: 4 * S, error: false }));
}

#[test]
fn sequence_can_be_redone_after_completion() {
    let mut ks = Knockers::new(seq());
    for p in seq() {
        ks.event(Knock::new(1, p, 0), 0);
    }
    let mut opened = vec![];
    for p in seq() {
        opened.push(ks.event(Knock::new(1, p, S), S));
    }
    assert_eq!(opened, vec![false, false, false, false, true]);
}

#[test]
fn single_port_sequence() {
    let mut ks = Knockers::new(vec![9]);
    assert!(ks.event(Knock::new(1, 9, 0), 0));
    assert!(ks.event(Knock::new(1, 9, 1), 1));
}

#[test]
fn wrong_port_bans_for_a_while() {
    let mut ks = Knockers::new(seq());
    assert!(!ks.event(Knock::new(1, 16001, 0), 0));
    assert!(!ks.event(Knock::new(1, 12345, 1 * S), 1 * S));
    assert_eq!(ks.knocker(1), Some(Knocker { next_step: 0, last_knock: 1 * S, error: true }));
    // within the ban: ignored, and the ban starts again
    assert!(!ks.event(Knock::new(1, 16001, 3 * S), 3 * S));
    assert_eq!(ks.knocker(1), Some(Knocker { next_step: 0, last_knock: 3 * S, error: true }));
    // still within the ban counted from the ignored knock
    assert!(!ks.event(Knock::new(1, 16001, 7 * S), 7 * S));
    assert_eq!(ks.knocker(1).unwrap().next_step, 0);
    // after the ban the sequence works again
    let start = 7 * S + IGNORING_TIME_AFTER_ERROR;
    let mut opened = vec![];
    for (i, p) in seq().into_iter().enumerate() {
        let t = start + i as u64;
        opened.push(ks.event(Knock::new(1, p, t), t));
    }
    assert_eq!(opened, vec![false, false, false, false, true]);
}

#[test]
fn other_clients_do_not_interfere() {
    let mut ks = Knockers::new(seq());
    let s = seq();
    assert!(!ks.event(Knock::new(1, s[0], 0), 0));
    assert!(!ks.event(Knock::new(2, 1, 0), 0));
    assert!(!ks.event(Knock::new(1, s[1], 0), 0));
    assert!(!ks.event(Knock::new(2, s[0], 0), 0));
    assert!(!ks.event(Knock::new(1, s[2], 0), 0));
    assert!(!ks.event(Knock::new(1, s[3], 0), 0));
    assert!(ks.event(Knock::new(1, s[4], 0), 0));
    assert_eq!(ks.len(), 2);
    assert_eq!(ks.knocker(2).unwrap().error, true);
}

#[test]
fn out_of_order_never_opens() {
    let mut ks = Knockers::new(seq());
    let order = [16002, 16001, 16003, 16004, 16005];
    for (i, p) in order.iter().enumerate() {
        let t = i as u64 * 10 * S;
        assert!(!ks.event(Knock::new(3, *p, t), t));
    }
}

#[test]
fn clean_up_forgets_stale_clients() {
    let mut ks = Knockers::new(seq());
    ks.event(Knock::new(1, 16001, 0), 0);
    ks.event(Knock::new(2, 16001, 10 * S), 10 * S);
    ks.clean_up(MAX_KNOCKER_LIVE_TIME + 1);
    assert_eq!(ks.knocker(1), None);
    assert!(ks.knocker(2).is_some());
    // exactly MAX_KNOCKER_LIVE_TIME is not stale
    ks.clean_up(10 * S + MAX_KNOCKER_LIVE_TIME);
    assert!(ks.knocker(2).is_some());
    ks.clean_up(10 * S + MAX_KNOCKER_LIVE_TIME + 1);
    assert_eq!(ks.len(), 0);
}
