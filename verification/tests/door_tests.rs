use port_knocking_doors::door::{is_knock_datagram, Door, Doors};

#[test]
fn new_door_needs_the_firewall() {
    let mut d = Doors::new();
    assert!(d.open_the_door(5, 100));
    assert_eq!(d.door(5), None);
    d.opened(5, 100);
    assert_eq!(d.door(5), Some(Door { ip: 5, opened_instant: 100 }));
}

#[test]
fn open_door_is_refreshed() {
    let mut d = Doors::new();
    d.opened(5, 100);
    assert!(!d.open_the_door(5, 250));
    assert_eq!(d.door(5), Some(Door { ip: 5, opened_instant: 250 }));
}

#[test]
fn cleanup_names_stale_doors_and_closed_forgets_them() {
    let mut d = Doors::new();
    d.opened(1, 0);
    d.opened(2, 50);
    d.opened(3, 100);
    let mut stale = d.cleanup(150, 60);
    stale.sort();
    assert_eq!(stale, vec![1, 2]);
    let mut stale = d.cleanup(150, 100);
    stale.sort();
    assert_eq!(stale, vec![1]);
    let mut stale = d.cleanup(200, 100);
    stale.sort();
    assert_eq!(stale, vec![1, 2]);
    for ip in stale {
        d.closed(ip);
    }
    assert_eq!(d.door(1), None);
    assert_eq!(d.door(2), None);
    assert_eq!(d.door(3), Some(Door { ip: 3, opened_instant: 100 }));
    assert!(d.cleanup(0, 0).is_empty());
}

#[test]
fn knock_datagrams() {
    assert!(is_knock_datagram(b"knock\n"));
    assert!(is_knock_datagram(b"knockX"));
    assert!(!is_knock_datagram(b"knock"));
    assert!(!is_knock_datagram(b"knock\n\n"));
    assert!(!is_knock_datagram(b"Knock\n"));
    assert!(!is_knock_datagram(b""));
}
