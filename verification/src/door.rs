//! The doors: the client addresses for which the controlled ports are open, each
//! with the instant its door was last opened or kept open.
use crate::knockers::{elapsed, elapsed_between};
use std::collections::HashMap;
use vstd::prelude::*;
use vstd::std_specs::iter::IteratorSpec;

verus! {

/// The door opened to `ip`, last opened or kept open at `opened_instant`
/// (nanoseconds on the daemon's monotonic clock).
#[derive(Debug, Clone, Copy, PartialEq, Eq, Structural)]
pub struct Door {
    pub ip: u128,
    pub opened_instant: u64,
}

/// Whether the door `d` has been open for more than `max_open` at `now`.
pub open spec fn door_expired(d: Door, now: u64, max_open: u64) -> bool {
    elapsed(now, d.opened_instant) > max_open
}

/// The open doors, by client address.
pub struct Doors {
    l: HashMap<u128, Door>,
}

impl Doors {
    /// The open doors, by client address.
    pub closed spec fn doors(self) -> Map<u128, Door> {
        self.l@
    }

    #[verifier::type_invariant]
    closed spec fn wf(self) -> bool {
        forall|ip: u128| #[trigger] self.l@.contains_key(ip) ==> self.l@[ip].ip == ip
    }

    /// No door open.
    pub fn new() -> (ds: Doors)
        ensures
            ds.doors() == Map::<u128, Door>::empty(),
    {
        Doors { l: HashMap::new() }
    }

    /// A client completed the sequence at `now`. A door already open to it stays
    /// open from `now` on; otherwise the answer is `true`: the firewall is to
    /// let `ip` in, and `opened` records the door once it does.
    pub fn open_the_door(&mut self, ip: u128, now: u64) -> (needs_firewall: bool)
        ensures
            needs_firewall == !old(self).doors().contains_key(ip),
            needs_firewall ==> final(self).doors() == old(self).doors(),
            !needs_firewall ==> final(self).doors() == old(self).doors().insert(
                ip,
                Door { ip, opened_instant: now },
            ),
    {
        proof {
            use_type_invariant(&*self);
        }
        if self.l.contains_key(&ip) {
            let mut l: HashMap<u128, Door> = HashMap::new();
            std::mem::swap(&mut l, &mut self.l);
            l.insert(ip, Door { ip, opened_instant: now });
            self.l = l;
            false
        } else {
            true
        }
    }

    /// Records the door that the firewall opened to `ip` at `now`.
    pub fn opened(&mut self, ip: u128, now: u64)
        ensures
            final(self).doors() == old(self).doors().insert(ip, Door { ip, opened_instant: now }),
    {
        proof {
            use_type_invariant(&*self);
        }
        let mut l: HashMap<u128, Door> = HashMap::new();
        std::mem::swap(&mut l, &mut self.l);
        l.insert(ip, Door { ip, opened_instant: now });
        self.l = l;
    }

    /// The addresses whose doors have been open for more than `max_open` at
    /// `now`, each once: the doors to close.
    pub fn cleanup(&self, now: u64, max_open: u64) -> (to_close: Vec<u128>)
        ensures
            to_close@.no_duplicates(),
            forall|ip: u128|
                to_close@.contains(ip) <==> (self.doors().contains_key(ip) && door_expired(
                    self.doors()[ip],
                    now,
                    max_open,
                )),
            forall|ip: u128|
                to_close@.contains(ip) <==> (self.doors().contains_key(ip) && now
                    >= self.doors()[ip].opened_instant && now - self.doors()[ip].opened_instant
                    > max_open),
    {
        proof {
            use_type_invariant(self);
        }
        let ghost m = self.l@;
        let ghost mut seen: Set<u128> = Set::empty();
        let mut to_close: Vec<u128> = Vec::new();
        let keys = self.l.keys();
        assert(keys.remaining().unref().to_set() == m.dom());
        assert(keys.remaining().unref().no_duplicates());
        for ip in it: keys
            invariant
                self.l@ == m,
                it.seq().unref().to_set() == m.dom(),
                it.seq().unref().no_duplicates(),
                seen == it.seq().unref().take(it.index() as int).to_set(),
                it.index() == it.seq().len() ==> seen == m.dom(),
                to_close@.no_duplicates(),
                forall|x: u128| #[trigger]
                    to_close@.contains(x) ==> seen.contains(x) && m.contains_key(x)
                        && door_expired(m[x], now, max_open),
                forall|x: u128|
                    #[trigger] seen.contains(x) && door_expired(m[x], now, max_open)
                        ==> to_close@.contains(x),
        {
            let ghost before = to_close@;
            assert(!seen.contains(*ip)) by {
                if seen.contains(*ip) {
                    let j = choose|j: int|
                        0 <= j < it.index() && it.seq().unref()[j] == *ip;
                    assert(it.seq().unref()[it.index()] == *ip);
                }
            }
            let d: Door = *self.l.get(ip).unwrap();
            if elapsed_between(now, d.opened_instant) > max_open {
                assert(!before.contains(*ip));
                to_close.push(*ip);
                assert(to_close@[before.len() as int] == *ip);
                assert forall|a: int, b: int|
                    0 <= a < b < to_close@.len() implies to_close@[a] != to_close@[b] by {
                    if b == before.len() {
                        assert(before[a] == to_close@[a]);
                    } else {
                        assert(before[a] != before[b]);
                    }
                }
                assert forall|x: u128| before.contains(x) implies to_close@.contains(x) by {
                    let j = choose|j: int| 0 <= j < before.len() && before[j] == x;
                    assert(to_close@[j] == x);
                }
                assert forall|x: u128| #[trigger] to_close@.contains(x) implies x == *ip
                    || before.contains(x) by {
                    let j = choose|j: int| 0 <= j < to_close@.len() && to_close@[j] == x;
                    if j < before.len() {
                        assert(before[j] == x);
                    }
                }
            }
            proof {
                seen = seen.insert(*ip);
                assert(it.seq().unref().take(it.index() + 1) == it.seq().unref().take(
                    it.index() as int,
                ).push(*ip));
                it.seq().unref().take(it.index() as int).lemma_push_to_set_commute(*ip);
                assert(it.index() + 1 == it.seq().len() ==> it.seq().unref().take(it.index() + 1)
                    =~= it.seq().unref());
            }
        }
        to_close
    }

    /// The door open to `ip`, if there is one.
    pub fn door(&self, ip: u128) -> (r: Option<Door>)
        ensures
            r == self.doors().get(ip),
    {
        match self.l.get(&ip) {
            Some(d) => Some(*d),
            None => None,
        }
    }

    /// Forgets the door of `ip`, once the firewall closed it.
    pub fn closed(&mut self, ip: u128)
        ensures
            final(self).doors() == old(self).doors().remove(ip),
    {
        proof {
            use_type_invariant(&*self);
        }
        let mut l: HashMap<u128, Door> = HashMap::new();
        std::mem::swap(&mut l, &mut self.l);
        l.remove(&ip);
        self.l = l;
    }
}

/// Whether the datagram `received` is a knock: six bytes, the first five being
/// `knock`.
pub fn is_knock_datagram(received: &[u8]) -> (r: bool)
    ensures
        r == (received@.len() == 6 && received@[0] == 107u8 && received@[1] == 110u8
            && received@[2] == 111u8 && received@[3] == 99u8 && received@[4] == 107u8),
{
    received.len() == 6 && received[0] == 107u8 && received[1] == 110u8 && received[2] == 111u8
        && received[3] == 99u8 && received[4] == 107u8
}

/// The doors of `m` once the doors of `to_close` are closed, one after the other.
pub open spec fn close_all(m: Map<u128, Door>, to_close: Seq<u128>) -> Map<u128, Door>
    decreases to_close.len(),
{
    if to_close.len() == 0 {
        m
    } else {
        close_all(m, to_close.drop_last()).remove(to_close.last())
    }
}

proof fn lemma_close_all(m: Map<u128, Door>, to_close: Seq<u128>)
    ensures
        close_all(m, to_close) == m.remove_keys(to_close.to_set()),
    decreases to_close.len(),
{
    if to_close.len() == 0 {
        assert(m.remove_keys(to_close.to_set()) =~= m);
    } else {
        lemma_close_all(m, to_close.drop_last());
        to_close.drop_last().lemma_push_to_set_commute(to_close.last());
        assert(to_close.drop_last().push(to_close.last()) == to_close);
        assert(close_all(m, to_close) =~= m.remove_keys(to_close.to_set()));
    }
}

/// Closing the doors that the clean-up names leaves exactly the doors open for
/// at most `max_open` at `now`, each as it was.
pub proof fn law_cleanup_closes_exactly_the_stale_doors(
    m: Map<u128, Door>,
    now: u64,
    max_open: u64,
    to_close: Seq<u128>,
)
    requires
        forall|ip: u128|
            to_close.contains(ip) <==> (m.contains_key(ip) && door_expired(m[ip], now, max_open)),
    ensures
        close_all(m, to_close) == m.filter_keys(|ip: u128| !door_expired(m[ip], now, max_open)),
{
    lemma_close_all(m, to_close);
    assert(close_all(m, to_close) =~= m.filter_keys(
        |ip: u128| !door_expired(m[ip], now, max_open),
    ));
}

/// A client that completes the sequence again while its door is open restarts
/// the door's time: the door refreshed at `now` is not closed by a clean-up at
/// any instant up to `max_open` after `now`.
pub proof fn law_redone_sequence_restarts_the_door(
    m: Map<u128, Door>,
    ip: u128,
    now: u64,
    later: u64,
    max_open: u64,
)
    requires
        m.contains_key(ip),
        elapsed(later, now) <= max_open,
    ensures
        !door_expired(m.insert(ip, Door { ip, opened_instant: now })[ip], later, max_open),
{
}

/// A door expires exactly when it has been open for more than `max_open`: when
/// `now` is more than `max_open` after the instant it was opened (an instant
/// before its opening never expires it).
pub proof fn law_door_expires_after_max_open(d: Door, now: u64, max_open: u64)
    ensures
        door_expired(d, now, max_open) <==> (now >= d.opened_instant && now - d.opened_instant
            > max_open),
{
}

} // verus!
