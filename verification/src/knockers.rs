//! Knockers are the clients who knock: each one moves along the knock sequence,
//! one correct port at a time; a wrong port sends it back to the start and bans
//! it for a short while.
use crate::knock::Knock;
use std::collections::HashMap;
use vstd::std_specs::iter::IteratorSpec;
use vstd::prelude::*;

verus! {

/// How long (in nanoseconds) the knocks of a client are ignored after it knocked
/// on a wrong port; each ignored knock starts the wait again.
pub const IGNORING_TIME_AFTER_ERROR: u64 = 5_000_000_000;

/// How long (in nanoseconds) a client is remembered after its last knock.
pub const MAX_KNOCKER_LIVE_TIME: u64 = 30_000_000_000;

/// The time from `earlier` to `later`, zero when `later` comes first.
pub open spec fn elapsed(later: u64, earlier: u64) -> int {
    if later >= earlier {
        later - earlier
    } else {
        0
    }
}

/// The time from `earlier` to `later`, zero when `later` comes first.
pub fn elapsed_between(later: u64, earlier: u64) -> (d: u64)
    ensures
        d == elapsed(later, earlier),
{
    if later >= earlier {
        later - earlier
    } else {
        0
    }
}

/// Where a client stands: the index in the sequence of the port it must knock on
/// next, the instant of its last knock, and whether its last knock was wrong.
#[derive(Debug, Clone, Copy, PartialEq, Eq, Structural)]
pub struct Knocker {
    pub next_step: usize,
    pub last_knock: u64,
    pub error: bool,
}

/// A client seen for the first time with the knock `k`.
pub open spec fn fresh_knocker(k: Knock) -> Knocker {
    Knocker { next_step: 0, last_knock: k.when, error: false }
}

/// What the knock `k`, received at `now`, makes of the client that stood at
/// `prev` (`None` for an unknown client), with the sequence `seq`; and whether
/// that knock completes the sequence, which opens the door.
///
/// A banned client (its last knock was wrong, less than
/// `IGNORING_TIME_AFTER_ERROR` ago) is ignored, and its ban starts again.
/// Otherwise a client that had completed the sequence starts over; a knock on the
/// expected port moves it one step on, any other port sends it back to the start
/// and bans it.
pub open spec fn knocker_after(seq: Seq<u16>, prev: Option<Knocker>, k: Knock, now: u64) -> (
    Knocker,
    bool,
) {
    let kn = match prev {
        Some(p) => p,
        None => fresh_knocker(k),
    };
    if kn.error && elapsed(now, kn.last_knock) < IGNORING_TIME_AFTER_ERROR {
        (Knocker { next_step: kn.next_step, last_knock: now, error: true }, false)
    } else {
        let step: int = if kn.next_step >= seq.len() {
            0
        } else {
            kn.next_step as int
        };
        if seq[step] == k.port {
            (Knocker { next_step: (step + 1) as usize, last_knock: k.when, error: false }, step + 1
                == seq.len())
        } else {
            (Knocker { next_step: 0, last_knock: k.when, error: true }, false)
        }
    }
}

/// The clients after the knock `k` received at `now`, and whether the door opens
/// for `k.ip`: only the entry of `k.ip` changes.
pub open spec fn step(seq: Seq<u16>, m: Map<u128, Knocker>, k: Knock, now: u64) -> (Map<
    u128,
    Knocker,
>, bool) {
    let (kn, open) = knocker_after(seq, m.get(k.ip), k, now);
    (m.insert(k.ip, kn), open)
}

/// The clients after the knocks of `events`, in order, each with the instant at
/// which it is taken into account.
pub open spec fn run(seq: Seq<u16>, m: Map<u128, Knocker>, events: Seq<(Knock, u64)>) -> Map<
    u128,
    Knocker,
>
    decreases events.len(),
{
    if events.len() == 0 {
        m
    } else {
        step(seq, run(seq, m, events.drop_last()), events.last().0, events.last().1).0
    }
}

/// Whether the knock `events[t]` opens the door, the knocks before it having been
/// taken into account from the clients `m`.
pub open spec fn opens_at(seq: Seq<u16>, m: Map<u128, Knocker>, events: Seq<(Knock, u64)>, t: int) -> bool {
    step(seq, run(seq, m, events.take(t)), events[t].0, events[t].1).1
}

/// The ports that `ip` knocked on in `events`, in order.
pub open spec fn ports_from(events: Seq<(Knock, u64)>, ip: u128) -> Seq<u16>
    decreases events.len(),
{
    if events.len() == 0 {
        Seq::empty()
    } else if events.last().0.ip == ip {
        ports_from(events.drop_last(), ip).push(events.last().0.port)
    } else {
        ports_from(events.drop_last(), ip)
    }
}

/// Whether `s` ends with `suffix`.
pub open spec fn ends_with(s: Seq<u16>, suffix: Seq<u16>) -> bool {
    suffix.len() <= s.len() && s.subrange(s.len() - suffix.len(), s.len() as int) == suffix
}

/// Whether the client `ip` of `m` starts the sequence afresh with a knock at
/// `now`: it is unknown, or not banned at `now` and not in the middle of the
/// sequence.
pub open spec fn ready_to_start(seq: Seq<u16>, m: Map<u128, Knocker>, ip: u128, now: u64) -> bool {
    m.contains_key(ip) ==> {
        &&& m[ip].next_step == 0 || m[ip].next_step >= seq.len()
        &&& !(m[ip].error && elapsed(now, m[ip].last_knock) < IGNORING_TIME_AFTER_ERROR)
    }
}

/// Whether a client whose last knock was at `kn.last_knock` is forgotten at `now`.
pub open spec fn knocker_expired(kn: Knocker, now: u64) -> bool {
    elapsed(now, kn.last_knock) > MAX_KNOCKER_LIVE_TIME
}

/// The clients of `m` that are still remembered at `now`.
pub open spec fn live_knockers(m: Map<u128, Knocker>, now: u64) -> Map<u128, Knocker> {
    m.filter_keys(|ip: u128| !knocker_expired(m[ip], now))
}

/// The clients and where each one stands, with the knock sequence.
pub struct Knockers {
    list: HashMap<u128, Knocker>,
    sequence: Vec<u16>,
}

impl Knockers {
    /// The clients known, by address.
    pub closed spec fn knockers(self) -> Map<u128, Knocker> {
        self.list@
    }

    /// The knock sequence.
    pub closed spec fn sequence(self) -> Seq<u16> {
        self.sequence@
    }

    #[verifier::type_invariant]
    closed spec fn wf(self) -> bool {
        0 < self.sequence@.len() <= usize::MAX
    }

    /// No client known yet, with the knock sequence `sequence`.
    pub fn new(sequence: Vec<u16>) -> (ks: Knockers)
        requires
            sequence@.len() > 0,
        ensures
            ks.knockers() == Map::<u128, Knocker>::empty(),
            ks.sequence() == sequence@,
            0 < ks.sequence().len() <= usize::MAX,
    {
        // the length of a vector is a `usize`
        let _length: usize = sequence.len();
        Knockers { list: HashMap::new(), sequence }
    }

    /// Takes the knock `k` into account, at the instant `now`; returns whether it
    /// completes the sequence, in which case the door is to be opened for `k.ip`.
    pub fn event(&mut self, k: Knock, now: u64) -> (open: bool)
        ensures
            final(self).sequence() == old(self).sequence(),
            0 < final(self).sequence().len() <= usize::MAX,
            (final(self).knockers(), open) == step(old(self).sequence(), old(self).knockers(), k, now),
    {
        proof {
            use_type_invariant(&*self);
        }
        let sequence_size: usize = self.sequence.len();
        let existing: Knocker = match self.list.get(&k.ip) {
            Some(kn) => *kn,
            None => Knocker { next_step: 0, last_knock: k.when, error: false },
        };
        let mut next = existing;
        let mut open = false;
        if existing.error && elapsed_between(now, existing.last_knock)
            < IGNORING_TIME_AFTER_ERROR {
            next.last_knock = now;
        } else {
            let step: usize = if existing.next_step >= sequence_size {
                0
            } else {
                existing.next_step
            };
            let expected_port: u16 = self.sequence[step];
            next.last_knock = k.when;
            if expected_port == k.port {
                next.next_step = step + 1;
                next.error = false;
                open = next.next_step == sequence_size;
            } else {
                next.error = true;
                next.next_step = 0;
            }
        }
        let mut list: HashMap<u128, Knocker> = HashMap::new();
        std::mem::swap(&mut list, &mut self.list);
        list.insert(k.ip, next);
        self.list = list;
        open
    }

    /// Where the client `ip` stands, if it is known.
    pub fn knocker(&self, ip: u128) -> (r: Option<Knocker>)
        ensures
            r == self.knockers().get(ip),
            0 < self.sequence().len() <= usize::MAX,
    {
        proof {
            use_type_invariant(self);
        }
        match self.list.get(&ip) {
            Some(kn) => Some(*kn),
            None => None,
        }
    }

    /// How many clients are known.
    pub fn len(&self) -> (n: usize)
        ensures
            n == self.knockers().len(),
    {
        self.list.len()
    }

    /// Forgets the clients whose last knock is more than `MAX_KNOCKER_LIVE_TIME`
    /// before `now`.
    pub fn clean_up(&mut self, now: u64)
        ensures
            final(self).sequence() == old(self).sequence(),
            0 < final(self).sequence().len() <= usize::MAX,
            final(self).knockers() == live_knockers(old(self).knockers(), now),
    {
        proof {
            use_type_invariant(&*self);
        }
        let ghost m = self.list@;
        let ghost mut seen: Set<u128> = Set::empty();
        let mut to_be_deleted: Vec<u128> = Vec::new();
        let keys = self.list.keys();
        assert(keys.remaining().unref().to_set() == m.dom());
        for ip in it: keys
            invariant
                self.list@ == m,
                it.seq().unref().to_set() == m.dom(),
                seen == it.seq().unref().take(it.index() as int).to_set(),
                it.index() == it.seq().len() ==> seen == m.dom(),
                forall|j: int|
                    0 <= j < to_be_deleted@.len() ==> #[trigger] m.contains_key(to_be_deleted@[j])
                        && knocker_expired(m[to_be_deleted@[j]], now),
                forall|ip: u128|
                    #[trigger] seen.contains(ip) && knocker_expired(m[ip], now)
                        ==> to_be_deleted@.contains(ip),
        {
            let ghost before = to_be_deleted@;
            let kn: Knocker = *self.list.get(ip).unwrap();
            if elapsed_between(now, kn.last_knock) > MAX_KNOCKER_LIVE_TIME {
                to_be_deleted.push(*ip);
                assert(to_be_deleted@[before.len() as int] == *ip);
                assert forall|x: u128| before.contains(x) implies to_be_deleted@.contains(x) by {
                    let j = choose|j: int| 0 <= j < before.len() && before[j] == x;
                    assert(to_be_deleted@[j] == x);
                }
            }
            proof {
                seen = seen.insert(*ip);
                assert(it.seq().unref().take(it.index() + 1) == it.seq().unref().take(
                    it.index() as int,
                ).push(*ip));
                it.seq().unref().take(it.index() as int).lemma_push_to_set_commute(*ip);
                assert(it.index() + 1 == it.seq().len() ==> it.seq().unref().take(it.index() + 1)
                    =~= it.seq().unref());
            }
        }
        let mut list: HashMap<u128, Knocker> = HashMap::new();
        std::mem::swap(&mut list, &mut self.list);
        for i in 0..to_be_deleted.len()
            invariant
                list@ == m.remove_keys(to_be_deleted@.take(i as int).to_set()),
        {
            list.remove(&to_be_deleted[i]);
            proof {
                assert(to_be_deleted@.take(i + 1) == to_be_deleted@.take(i as int).push(
                    to_be_deleted@[i as int],
                ));
                to_be_deleted@.take(i as int).lemma_push_to_set_commute(to_be_deleted@[i as int]);
                assert(list@ =~= m.remove_keys(to_be_deleted@.take(i + 1).to_set()));
            }
        }
        proof {
            assert(to_be_deleted@.take(to_be_deleted@.len() as int) == to_be_deleted@);
            assert(list@ =~= live_knockers(m, now));
        }
        self.list = list;
    }
}

/// Whether the client `kn`, whose knocks so far are `ports`, stands where those
/// knocks put it: at most at the end of the sequence, at its start when its last
/// knock was wrong, and after as many knocks that follow the sequence.
pub open spec fn consistent(seq: Seq<u16>, kn: Knocker, ports: Seq<u16>) -> bool {
    &&& kn.next_step <= seq.len()
    &&& kn.error ==> kn.next_step == 0
    &&& ends_with(ports, seq.take(kn.next_step as int))
}

proof fn lemma_ends_with_push(s: Seq<u16>, suffix: Seq<u16>, a: u16)
    requires
        ends_with(s, suffix),
    ensures
        ends_with(s.push(a), suffix.push(a)),
{
    assert(s.push(a).subrange(s.len() - suffix.len(), s.len() + 1int) =~= suffix.push(a));
}

proof fn lemma_take_prefix(events: Seq<(Knock, u64)>, t: int)
    requires
        0 <= t < events.len(),
    ensures
        events.take(t + 1).drop_last() == events.take(t),
        events.take(t + 1).last() == events[t],
{
    assert(events.take(t + 1).drop_last() =~= events.take(t));
}

/// From no client at all, every client stands where its own knocks put it.
proof fn lemma_run_consistent(seq: Seq<u16>, events: Seq<(Knock, u64)>)
    requires
        0 < seq.len() <= usize::MAX,
    ensures
        forall|ip: u128| #[trigger]
            run(seq, Map::empty(), events).contains_key(ip) ==> consistent(
                seq,
                run(seq, Map::empty(), events)[ip],
                ports_from(events, ip),
            ),
    decreases events.len(),
{
    if events.len() > 0 {
        let prev = events.drop_last();
        lemma_run_consistent(seq, prev);
        let m = run(seq, Map::empty(), prev);
        let (k, now) = events.last();
        let (kn, open) = knocker_after(seq, m.get(k.ip), k, now);
        assert forall|ip: u128| #[trigger]
            run(seq, Map::empty(), events).contains_key(ip) implies consistent(
            seq,
            run(seq, Map::empty(), events)[ip],
            ports_from(events, ip),
        ) by {
            if ip == k.ip {
                let ps = ports_from(prev, ip);
                assert(ports_from(events, ip) == ps.push(k.port));
                if m.contains_key(ip) && m[ip].error && elapsed(now, m[ip].last_knock)
                    < IGNORING_TIME_AFTER_ERROR {
                    assert(kn.next_step == 0);
                    assert(ps.push(k.port).subrange(ps.len() + 1int, ps.len() + 1int) =~= seq.take(0));
                } else {
                    let old_step: int = if m.contains_key(ip) {
                        m[ip].next_step as int
                    } else {
                        0
                    };
                    let st: int = if old_step >= seq.len() {
                        0
                    } else {
                        old_step
                    };
                    if seq[st] == k.port {
                        if st == 0 {
                            assert(ps.push(k.port).subrange(ps.len() as int, ps.len() + 1int)
                                =~= seq.take(1));
                        } else {
                            lemma_ends_with_push(ps, seq.take(st), k.port);
                            assert(seq.take(st).push(seq[st]) =~= seq.take(st + 1));
                        }
                    } else {
                        assert(ps.push(k.port).subrange(ps.len() + 1int, ps.len() + 1int)
                            =~= seq.take(0));
                    }
                }
            } else {
                assert(ports_from(events, ip) == ports_from(prev, ip));
            }
        }
    }
}

/// A door opens only on the knock that ends the sequence: when, from no client
/// at all, the knock `events[t]` opens the door for its address, the ports that
/// address knocked on up to that knock end with the whole sequence, in order.
pub proof fn law_door_opens_only_after_the_sequence(
    seq: Seq<u16>,
    events: Seq<(Knock, u64)>,
    t: int,
)
    requires
        0 < seq.len() <= usize::MAX,
        0 <= t < events.len(),
        opens_at(seq, Map::empty(), events, t),
    ensures
        ends_with(ports_from(events.take(t + 1), events[t].0.ip), seq),
{
    let ip = events[t].0.ip;
    lemma_take_prefix(events, t);
    lemma_run_consistent(seq, events.take(t + 1));
    let after = run(seq, Map::empty(), events.take(t + 1));
    assert(after.contains_key(ip));
    assert(after[ip].next_step == seq.len());
    assert(seq.take(seq.len() as int) =~= seq);
}

proof fn lemma_ports_from_step(events: Seq<(Knock, u64)>, ip: u128, i: int)
    requires
        0 <= i < events.len(),
    ensures
        ports_from(events.take(i + 1), ip) == (if events[i].0.ip == ip {
            ports_from(events.take(i), ip).push(events[i].0.port)
        } else {
            ports_from(events.take(i), ip)
        }),
{
    lemma_take_prefix(events, i);
}

proof fn lemma_ports_from_prefix(events: Seq<(Knock, u64)>, ip: u128, i: int)
    requires
        0 <= i <= events.len(),
    ensures
        ports_from(events.take(i), ip).len() <= ports_from(events, ip).len(),
        ports_from(events, ip).take(ports_from(events.take(i), ip).len() as int) == ports_from(
            events.take(i),
            ip,
        ),
    decreases events.len(),
{
    if i == events.len() {
        assert(events.take(i) == events);
        assert(ports_from(events, ip).take(ports_from(events, ip).len() as int) =~= ports_from(
            events,
            ip,
        ));
    } else {
        let prev = events.drop_last();
        lemma_ports_from_prefix(prev, ip, i);
        assert(prev.take(i) == events.take(i));
        let p = ports_from(prev, ip);
        let c = ports_from(events.take(i), ip).len() as int;
        if events.last().0.ip == ip {
            assert(p.push(events.last().0.port).take(c) =~= p.take(c));
        }
    }
}

proof fn lemma_walk(
    seq: Seq<u16>,
    m: Map<u128, Knocker>,
    ip: u128,
    events: Seq<(Knock, u64)>,
    i: int,
)
    requires
        0 < seq.len() <= usize::MAX,
        ports_from(events, ip) == seq,
        forall|t: int|
            0 <= t < events.len() && (#[trigger] events[t]).0.ip == ip && ports_from(
                events.take(t),
                ip,
            ).len() == 0 ==> ready_to_start(seq, m, ip, events[t].1),
        0 <= i <= events.len(),
    ensures
        ({
            let c = ports_from(events.take(i), ip).len();
            &&& c <= seq.len()
            &&& ports_from(events.take(i), ip) == seq.take(c as int)
            &&& c == 0 ==> run(seq, m, events.take(i)).get(ip) == m.get(ip)
            &&& c > 0 ==> run(seq, m, events.take(i)).contains_key(ip)
                && run(seq, m, events.take(i))[ip].next_step == c && !run(
                seq,
                m,
                events.take(i),
            )[ip].error
        }),
        forall|t: int|
            0 <= t < i && (#[trigger] events[t]).0.ip == ip ==> (opens_at(seq, m, events, t)
                <==> ports_from(events.take(t + 1), ip).len() == seq.len()),
    decreases i,
{
    lemma_ports_from_prefix(events, ip, i);
    if i == 0 {
        assert(events.take(0) =~= Seq::<(Knock, u64)>::empty());
        assert(seq.take(0) =~= Seq::<u16>::empty());
    } else {
        let j = i - 1;
        lemma_walk(seq, m, ip, events, j);
        lemma_take_prefix(events, j);
        lemma_ports_from_step(events, ip, j);
        let pre = run(seq, m, events.take(j));
        let (k, now) = events[j];
        assert(run(seq, m, events.take(i)) == step(seq, pre, k, now).0);
        let c = ports_from(events.take(j), ip).len();
        if k.ip == ip {
            let ps = ports_from(events.take(i), ip);
            assert(ps == seq.take(ps.len() as int));
            assert(ps.len() == c + 1);
            assert(ps[c as int] == k.port);
            assert(seq.take(c + 1int)[c as int] == seq[c as int]);
            assert(k.port == seq[c as int]);
            let (kn, open) = knocker_after(seq, pre.get(ip), k, now);
            if c > 0 {
                assert(pre.get(ip) == Some(pre[ip]));
            }
            assert(kn.next_step == c + 1);
            assert(open == (c + 1 == seq.len()));
        } else {
            assert(step(seq, pre, k, now).0.get(ip) == pre.get(ip));
        }
    }
}

/// Knocking the whole sequence opens the door: a client that starts afresh and
/// knocks on the ports of the sequence, in order, gets its door opened on its
/// last knock and on none of its earlier ones, whatever other clients knock in
/// between.
pub proof fn law_sequence_opens_the_door(
    seq: Seq<u16>,
    m: Map<u128, Knocker>,
    ip: u128,
    events: Seq<(Knock, u64)>,
)
    requires
        0 < seq.len() <= usize::MAX,
        ports_from(events, ip) == seq,
        forall|t: int|
            0 <= t < events.len() && (#[trigger] events[t]).0.ip == ip && ports_from(
                events.take(t),
                ip,
            ).len() == 0 ==> ready_to_start(seq, m, ip, events[t].1),
    ensures
        forall|t: int|
            0 <= t < events.len() && (#[trigger] events[t]).0.ip == ip ==> (opens_at(
                seq,
                m,
                events,
                t,
            ) <==> ports_from(events.take(t + 1), ip).len() == seq.len()),
{
    lemma_walk(seq, m, ip, events, events.len() as int);
}

/// A banned client is ignored: while its last knock was wrong and less than
/// `IGNORING_TIME_AFTER_ERROR` ago, a knock of it opens nothing, keeps it at the
/// start of the sequence and starts the ban again.
pub proof fn law_banned_client_is_ignored(seq: Seq<u16>, m: Map<u128, Knocker>, k: Knock, now: u64)
    requires
        m.contains_key(k.ip),
        m[k.ip].error,
        elapsed(now, m[k.ip].last_knock) < IGNORING_TIME_AFTER_ERROR,
    ensures
        !step(seq, m, k, now).1,
        step(seq, m, k, now).0[k.ip] == (Knocker {
            next_step: m[k.ip].next_step,
            last_knock: now,
            error: true,
        }),
{
}

/// A wrong port sends the client back to the start and bans it: a client that is
/// not banned and knocks on another port than the one it must knock on next opens
/// nothing and is marked in error at the start of the sequence.
pub proof fn law_wrong_port_bans(seq: Seq<u16>, m: Map<u128, Knocker>, k: Knock, now: u64)
    requires
        0 < seq.len(),
        ready_to_start(seq, m, k.ip, now) || (m.contains_key(k.ip) && !m[k.ip].error
            && m[k.ip].next_step < seq.len()),
        k.port != seq[if m.contains_key(k.ip) && m[k.ip].next_step < seq.len() {
            m[k.ip].next_step as int
        } else {
            0
        }],
    ensures
        !step(seq, m, k, now).1,
        step(seq, m, k, now).0[k.ip] == (Knocker { next_step: 0, last_knock: k.when, error: true }),
{
}

/// A knock concerns its own client only: every other client stays as it was.
pub proof fn law_other_clients_untouched(
    seq: Seq<u16>,
    m: Map<u128, Knocker>,
    k: Knock,
    now: u64,
    ip: u128,
)
    requires
        ip != k.ip,
    ensures
        step(seq, m, k, now).0.get(ip) == m.get(ip),
{
}

/// The clean-up forgets exactly the stale clients: every client left knocked at
/// most `MAX_KNOCKER_LIVE_TIME` before `now`, and every such client is left as it was.
pub proof fn law_clean_up_forgets_stale_clients(m: Map<u128, Knocker>, now: u64, ip: u128)
    ensures
        live_knockers(m, now).contains_key(ip) <==> (m.contains_key(ip) && elapsed(
            now,
            m[ip].last_knock,
        ) <= MAX_KNOCKER_LIVE_TIME),
        live_knockers(m, now).contains_key(ip) ==> live_knockers(m, now)[ip] == m[ip],
{
}

} // verus!
