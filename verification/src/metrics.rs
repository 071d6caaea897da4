//! The metrics aggregation state: per-hostname counters fed by connection
//! lifecycle events.

use vstd::prelude::*;

use crate::client::{bytes_eq, Hostname};
use crate::packets::State;

verus! {

/// One lifecycle event of a connection, from the aggregator's view.
#[derive(Debug, Clone, Copy, PartialEq, Eq, Structural)]
pub enum EventType {
    Connect,
    BandwidthReport { serverbound: u64, clientbound: u64 },
    Disconnect,
}

/// An event with the connection's identity: its hostname bucket and the
/// state it asked for.
#[derive(Debug)]
pub struct Event {
    pub hostname: Hostname,
    pub state: State,
    pub event_type: EventType,
}

/// The per-hostname aggregate.
#[derive(Debug, Clone, Copy, PartialEq, Eq, Structural)]
pub struct HostnameCounter {
    pub total_pings: u64,
    pub total_game: u64,
    pub open_connections: u64,
    pub serverbound_traffic: u64,
    pub clientbound_traffic: u64,
}

impl Default for HostnameCounter {
    /// All counters start at zero.
    fn default() -> (r: HostnameCounter)
        ensures
            r == HostnameCounter::zero(),
    {
        HostnameCounter {
            total_pings: 0,
            total_game: 0,
            open_connections: 0,
            serverbound_traffic: 0,
            clientbound_traffic: 0,
        }
    }
}

impl HostnameCounter {
    /// The all-zero counter.
    pub open spec fn zero() -> HostnameCounter {
        HostnameCounter {
            total_pings: 0,
            total_game: 0,
            open_connections: 0,
            serverbound_traffic: 0,
            clientbound_traffic: 0,
        }
    }

    /// The counter after one event: a connect counts the ping or the login
    /// and opens a connection, a disconnect closes one, a bandwidth report
    /// adds its totals with wrapping semantics.
    pub open spec fn after_event(self, state: State, ev: EventType) -> HostnameCounter {
        match ev {
            EventType::Connect => HostnameCounter {
                total_pings: if state is Status {
                    self.total_pings.wrapping_add(1)
                } else {
                    self.total_pings
                },
                total_game: if state is Login {
                    self.total_game.wrapping_add(1)
                } else {
                    self.total_game
                },
                open_connections: (self.open_connections + 1) as u64,
                ..self
            },
            EventType::BandwidthReport { serverbound, clientbound } => HostnameCounter {
                serverbound_traffic: self.serverbound_traffic.wrapping_add(serverbound),
                clientbound_traffic: self.clientbound_traffic.wrapping_add(clientbound),
                ..self
            },
            EventType::Disconnect => HostnameCounter {
                open_connections: (self.open_connections - 1) as u64,
                ..self
            },
        }
    }

    /// Applies one event. Opening a connection past `u64::MAX` and closing
    /// one that is not open are programming errors, excluded up front.
    pub fn apply_event(&mut self, event: &Event)
        requires
            event.event_type is Connect ==> old(self).open_connections < u64::MAX,
            event.event_type is Disconnect ==> old(self).open_connections >= 1,
        ensures
            *final(self) == old(self).after_event(event.state, event.event_type),
    {
        match &event.event_type {
            EventType::Connect => {
                match event.state {
                    State::Login => {
                        self.total_game = self.total_game.wrapping_add(1);
                    },
                    State::Status => {
                        self.total_pings = self.total_pings.wrapping_add(1);
                    },
                }
                self.open_connections = self.open_connections + 1;
            },
            EventType::BandwidthReport { serverbound, clientbound } => {
                self.clientbound_traffic = self.clientbound_traffic.wrapping_add(*clientbound);
                self.serverbound_traffic = self.serverbound_traffic.wrapping_add(*serverbound);
            },
            EventType::Disconnect => {
                self.open_connections = self.open_connections - 1;
            },
        }
    }
}

/// The per-hostname counters, owned by the aggregator alone.
#[derive(Debug)]
pub struct Counters {
    pub entries: Vec<(Hostname, HostnameCounter)>,
}

/// The counter recorded for `host`, scanning from the front.
pub open spec fn counters_lookup(entries: Seq<(Hostname, HostnameCounter)>, host: Seq<u8>) -> Option<
    HostnameCounter,
>
    decreases entries.len(),
{
    if entries.len() == 0 {
        None
    } else if entries[0].0@ == host {
        Some(entries[0].1)
    } else {
        counters_lookup(entries.drop_first(), host)
    }
}

impl Counters {
    pub fn new() -> (r: Counters)
        ensures
            r.entries@.len() == 0,
    {
        Counters { entries: Vec::new() }
    }

    /// The counter of `host`, as the aggregator sees it.
    pub open spec fn lookup(self, host: Seq<u8>) -> Option<HostnameCounter> {
        counters_lookup(self.entries@, host)
    }

    /// Looks up the event's hostname, inserting a zero counter when absent,
    /// and applies the event to it. Every other hostname keeps its counter.
    pub fn apply_event(&mut self, event: &Event)
        requires
            event.event_type is Connect ==> match old(self).lookup(event.hostname@) {
                Some(c) => c.open_connections < u64::MAX,
                None => true,
            },
            event.event_type is Disconnect ==> match old(self).lookup(event.hostname@) {
                Some(c) => c.open_connections >= 1,
                None => false,
            },
        ensures
            final(self).lookup(event.hostname@) == Some(
                match old(self).lookup(event.hostname@) {
                    Some(c) => c,
                    None => HostnameCounter::zero(),
                }.after_event(event.state, event.event_type),
            ),
            forall|h: Seq<u8>| h != event.hostname@ ==> final(self).lookup(h) == old(
                self,
            ).lookup(h),
    {
        let ghost all = self.entries@;
        let mut k: usize = 0;
        proof {
            assert(all.skip(0) =~= all);
        }
        while k < self.entries.len()
            invariant
                k <= self.entries@.len(),
                all == self.entries@,
                all == old(self).entries@,
                forall|j: int| 0 <= j < k ==> (#[trigger] all[j]).0@ != event.hostname@,
                event.event_type is Connect ==> match counters_lookup(all, event.hostname@) {
                    Some(c) => c.open_connections < u64::MAX,
                    None => true,
                },
                event.event_type is Disconnect ==> match counters_lookup(
                    all,
                    event.hostname@,
                ) {
                    Some(c) => c.open_connections >= 1,
                    None => false,
                },
            decreases self.entries@.len() - k,
        {
            let hit = bytes_eq(
                self.entries[k].0.bytes.as_slice(),
                event.hostname.bytes.as_slice(),
            );
            if hit {
                let mut counter = self.entries[k].1;
                proof {
                    lemma_counters_lookup_at(all, event.hostname@, k as int);
                }
                counter.apply_event(event);
                let key = Hostname {
                    bytes: vstd::slice::slice_to_vec(self.entries[k].0.bytes.as_slice()),
                };
                self.entries.set(k, (key, counter));
                proof {
                    lemma_counters_lookup_at(self.entries@, event.hostname@, k as int);
                    assert forall|h: Seq<u8>| h != event.hostname@ implies counters_lookup(
                        self.entries@,
                        h,
                    ) == counters_lookup(all, h) by {
                        lemma_counters_lookup_update_other(all, self.entries@, k as int, h);
                    }
                }
                return ;
            }
            k = k + 1;
        }
        let mut counter = HostnameCounter::new_zero();
        proof {
            lemma_counters_lookup_absent(all, event.hostname@);
        }
        counter.apply_event(event);
        let key = Hostname {
            bytes: vstd::slice::slice_to_vec(event.hostname.bytes.as_slice()),
        };
        self.entries.push((key, counter));
        proof {
            lemma_counters_lookup_push(all, event.hostname@, counter);
            assert forall|h: Seq<u8>| h != event.hostname@ implies counters_lookup(
                self.entries@,
                h,
            ) == counters_lookup(all, h) by {
                lemma_counters_lookup_push_other(all, event.hostname@, counter, h);
            }
        }
    }
}

impl HostnameCounter {
    /// The zero counter, as a value.
    pub fn new_zero() -> (r: HostnameCounter)
        ensures
            r == HostnameCounter::zero(),
    {
        HostnameCounter {
            total_pings: 0,
            total_game: 0,
            open_connections: 0,
            serverbound_traffic: 0,
            clientbound_traffic: 0,
        }
    }
}

/// A key present at `k`, with no earlier occurrence, is what lookup finds.
proof fn lemma_counters_lookup_at(
    entries: Seq<(Hostname, HostnameCounter)>,
    host: Seq<u8>,
    k: int,
)
    requires
        0 <= k < entries.len(),
        entries[k].0@ == host,
        forall|j: int| 0 <= j < k ==> (#[trigger] entries[j]).0@ != host,
    ensures
        counters_lookup(entries, host) == Some(entries[k].1),
    decreases k,
{
    if k > 0 {
        lemma_counters_lookup_at(entries.drop_first(), host, k - 1);
    }
}

/// Updating index `k` leaves every other key's lookup unchanged, provided
/// the key at `k` is the same in both.
proof fn lemma_counters_lookup_update_other(
    before: Seq<(Hostname, HostnameCounter)>,
    after: Seq<(Hostname, HostnameCounter)>,
    k: int,
    h: Seq<u8>,
)
    requires
        0 <= k < before.len(),
        after.len() == before.len(),
        forall|j: int| 0 <= j < before.len() && j != k ==> after[j] == before[j],
        after[k].0@ == before[k].0@,
        h != before[k].0@,
    ensures
        counters_lookup(after, h) == counters_lookup(before, h),
    decreases k,
{
    if before.len() > 0 {
        if k == 0 {
            assert(after.drop_first() =~= before.drop_first());
        } else {
            assert(after[0] == before[0]);
            if before[0].0@ != h {
                lemma_counters_lookup_update_other(
                    before.drop_first(),
                    after.drop_first(),
                    k - 1,
                    h,
                );
            }
        }
    }
}

/// A key that occurs nowhere in the entries looks up to nothing.
proof fn lemma_counters_lookup_absent(entries: Seq<(Hostname, HostnameCounter)>, host: Seq<u8>)
    requires
        forall|j: int| 0 <= j < entries.len() ==> (#[trigger] entries[j]).0@ != host,
    ensures
        counters_lookup(entries, host) is None,
    decreases entries.len(),
{
    if entries.len() > 0 {
        lemma_counters_lookup_absent(entries.drop_first(), host);
    }
}

/// Pushing a fresh key makes it found, with its counter.
proof fn lemma_counters_lookup_push(
    entries: Seq<(Hostname, HostnameCounter)>,
    host: Seq<u8>,
    c: HostnameCounter,
)
    requires
        forall|j: int| 0 <= j < entries.len() ==> (#[trigger] entries[j]).0@ != host,
    ensures
        forall|key: Hostname, cc: HostnameCounter|
            key@ == host && cc == c ==> counters_lookup(entries.push((key, cc)), host) == Some(c),
    decreases entries.len(),
{
    assert forall|key: Hostname, cc: HostnameCounter|
        key@ == host && cc == c implies counters_lookup(entries.push((key, cc)), host) == Some(
        c,
    ) by {
        lemma_counters_lookup_push_found(entries, host, key, cc);
    }
}

proof fn lemma_counters_lookup_push_found(
    entries: Seq<(Hostname, HostnameCounter)>,
    host: Seq<u8>,
    key: Hostname,
    c: HostnameCounter,
)
    requires
        forall|j: int| 0 <= j < entries.len() ==> (#[trigger] entries[j]).0@ != host,
        key@ == host,
    ensures
        counters_lookup(entries.push((key, c)), host) == Some(c),
    decreases entries.len(),
{
    if entries.len() == 0 {
        assert(entries.push((key, c))[0] == (key, c));
    } else {
        assert(entries.push((key, c))[0] == entries[0]);
        assert(entries.push((key, c)).drop_first() =~= entries.drop_first().push((key, c)));
        lemma_counters_lookup_push_found(entries.drop_first(), host, key, c);
    }
}

/// Pushing an entry leaves every other key's lookup unchanged.
proof fn lemma_counters_lookup_push_other(
    entries: Seq<(Hostname, HostnameCounter)>,
    host: Seq<u8>,
    c: HostnameCounter,
    h: Seq<u8>,
)
    requires
        h != host,
    ensures
        forall|key: Hostname, cc: HostnameCounter|
            key@ == host && cc == c ==> counters_lookup(entries.push((key, cc)), h)
                == counters_lookup(entries, h),
    decreases entries.len(),
{
    assert forall|key: Hostname, cc: HostnameCounter|
        key@ == host && cc == c implies counters_lookup(entries.push((key, cc)), h)
        == counters_lookup(entries, h) by {
        lemma_counters_lookup_push_other_one(entries, key, cc, h);
    }
}

proof fn lemma_counters_lookup_push_other_one(
    entries: Seq<(Hostname, HostnameCounter)>,
    key: Hostname,
    c: HostnameCounter,
    h: Seq<u8>,
)
    requires
        h != key@,
    ensures
        counters_lookup(entries.push((key, c)), h) == counters_lookup(entries, h),
    decreases entries.len(),
{
    if entries.len() == 0 {
        assert(entries.push((key, c))[0] == (key, c));
    } else {
        assert(entries.push((key, c))[0] == entries[0]);
        assert(entries.push((key, c)).drop_first() =~= entries.drop_first().push((key, c)));
        lemma_counters_lookup_push_other_one(entries.drop_first(), key, c, h);
    }
}

/// The change an event makes to `open_connections`.
pub open spec fn open_delta(ev: EventType) -> int {
    match ev {
        EventType::Connect => 1,
        EventType::Disconnect => -1,
        EventType::BandwidthReport { .. } => 0,
    }
}

/// One event moves `open_connections` by exactly its delta, whenever the
/// move neither overflows nor underflows.
pub proof fn lemma_counter_open_step(c: HostnameCounter, st: State, ev: EventType)
    requires
        ev is Connect ==> c.open_connections < u64::MAX,
        ev is Disconnect ==> c.open_connections >= 1,
    ensures
        c.after_event(st, ev).open_connections == c.open_connections + open_delta(ev),
{
}

/// Connect events in a sequence.
pub open spec fn count_connects(events: Seq<EventType>) -> int
    decreases events.len(),
{
    if events.len() == 0 {
        0
    } else {
        (if events[0] is Connect {
            1int
        } else {
            0int
        }) + count_connects(events.drop_first())
    }
}

/// Disconnect events in a sequence.
pub open spec fn count_disconnects(events: Seq<EventType>) -> int
    decreases events.len(),
{
    if events.len() == 0 {
        0
    } else {
        (if events[0] is Disconnect {
            1int
        } else {
            0int
        }) + count_disconnects(events.drop_first())
    }
}

/// The open-connection count after replaying a sequence of events from
/// `start`.
pub open spec fn replay_open(events: Seq<EventType>, start: int) -> int
    decreases events.len(),
{
    if events.len() == 0 {
        start
    } else {
        replay_open(events.drop_first(), start + open_delta(events[0]))
    }
}

proof fn lemma_replay_counts(events: Seq<EventType>, start: int)
    ensures
        replay_open(events, start) == start + count_connects(events) - count_disconnects(
            events,
        ),
    decreases events.len(),
{
    if events.len() > 0 {
        lemma_replay_counts(events.drop_first(), start + open_delta(events[0]));
    }
}

/// Over any run of one hostname's events in which no prefix closes more
/// connections than it opened, the open count never drops below zero, it
/// always equals connects minus disconnects, and it ends at zero exactly
/// when every connect was matched by a disconnect.
pub proof fn lemma_open_connections_balance(events: Seq<EventType>)
    requires
        forall|i: int|
            0 <= i <= events.len() ==> count_disconnects(#[trigger] events.take(i))
                <= count_connects(events.take(i)),
    ensures
        forall|i: int| 0 <= i <= events.len() ==> replay_open(#[trigger] events.take(i), 0) >= 0,
        replay_open(events, 0) == count_connects(events) - count_disconnects(events),
        count_connects(events) == count_disconnects(events) ==> replay_open(events, 0) == 0,
{
    assert forall|i: int| 0 <= i <= events.len() implies replay_open(
        #[trigger] events.take(i),
        0,
    ) >= 0 by {
        lemma_replay_counts(events.take(i), 0);
    }
    assert(events.take(events.len() as int) == events);
    lemma_replay_counts(events, 0);
}

/// Operator-facing metrics configuration: the InfluxDB sink's parameters,
/// as plain values. Building the actual sink happens outside the library.
#[derive(Debug)]
pub enum MetricsConfig {
    Influx {
        /// InfluxDB access url.
        url: String,
        /// Reporting hostname; the system hostname when absent.
        hostname: Option<String>,
        organization: String,
        bucket: String,
        token: String,
    },
}

/// An injector that drops every snapshot: used when no sink is configured.
#[derive(Debug)]
pub struct EmptyInjector;

impl EmptyInjector {
    /// Accepts a snapshot and does nothing; it never fails.
    pub fn log(&self, counters: &Counters) -> (r: Result<(), crate::error::MetricsError>)
        ensures
            r is Ok,
    {
        let _ = counters;
        Ok(())
    }
}

} // verus!
