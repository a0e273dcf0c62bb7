use vstd::prelude::*;

use crate::types::Channel;

verus! {

/// Largest value of a 64-bit counter.
pub const COUNTER_MAX: u64 = 0xffff_ffff_ffff_ffff;

/// Sum of two counters, clamped at the largest counter value.
pub open spec fn sat_add(a: u64, b: u64) -> u64 {
    if a + b > COUNTER_MAX {
        COUNTER_MAX
    } else {
        (a + b) as u64
    }
}

/// Bytes and messages seen in one direction.
#[derive(Clone, Copy, Debug, PartialEq, Eq, Structural)]
pub struct Traffic {
    pub size: u64,
    pub count: u64,
}

impl Traffic {
    pub open spec fn zero() -> Traffic {
        Traffic { size: 0, count: 0 }
    }

    pub open spec fn spec_increment(self, val: u64, count: u64) -> Traffic {
        Traffic { size: sat_add(self.size, val), count: sat_add(self.count, count) }
    }

    /// Adds `val` bytes and `count` messages, clamping at the counters' maximum.
    #[inline]
    pub fn increment(&mut self, val: u64, count: u64)
        ensures
            *final(self) == old(self).spec_increment(val, count),
    {
        self.size = self.size.saturating_add(val);
        self.count = self.count.saturating_add(count);
    }

    #[inline]
    pub fn size(&self) -> (r: u64)
        ensures
            r == self.size,
    {
        self.size
    }

    #[inline]
    pub fn count(&self) -> (r: u64)
        ensures
            r == self.count,
    {
        self.count
    }
}

/// The counters of one aggregation key: bytes and messages per direction.
#[derive(Clone, Copy, Debug, PartialEq, Eq, Structural)]
pub struct Metrics {
    pub rx: Traffic,
    pub tx: Traffic,
}

impl Metrics {
    pub open spec fn zero() -> Metrics {
        Metrics { rx: Traffic::zero(), tx: Traffic::zero() }
    }

    pub fn new() -> (r: Metrics)
        ensures
            r == Metrics::zero(),
    {
        Metrics { rx: Traffic { size: 0, count: 0 }, tx: Traffic { size: 0, count: 0 } }
    }

    pub open spec fn spec_with_channel(self, channel: Channel) -> Traffic {
        match channel {
            Channel::Rx => self.rx,
            Channel::Tx => self.tx,
        }
    }

    /// The metrics after `val` bytes in `count` messages on `channel`.
    pub open spec fn spec_increment(self, channel: Channel, val: u64, count: u64) -> Metrics {
        match channel {
            Channel::Rx => Metrics { rx: self.rx.spec_increment(val, count), ..self },
            Channel::Tx => Metrics { tx: self.tx.spec_increment(val, count), ..self },
        }
    }

    #[inline]
    pub fn with_channel(&self, channel: Channel) -> (r: &Traffic)
        ensures
            *r == self.spec_with_channel(channel),
    {
        match channel {
            Channel::Rx => &self.rx,
            Channel::Tx => &self.tx,
        }
    }

    #[inline]
    pub fn increment(&mut self, channel: Channel, val: u64, count: u64)
        ensures
            *final(self) == old(self).spec_increment(channel, val, count),
    {
        match channel {
            Channel::Rx => self.rx.increment(val, count),
            Channel::Tx => self.tx.increment(val, count),
        }
    }

    pub open spec fn spec_packet_count(self) -> u64 {
        sat_add(self.tx.count, self.rx.count)
    }

    /// Messages in both directions.
    #[inline]
    pub fn packet_count(&self) -> (r: u64)
        ensures
            r == self.spec_packet_count(),
    {
        self.tx.count().saturating_add(self.rx.count())
    }

    #[inline]
    pub fn rx(&self) -> (r: u64)
        ensures
            r == self.rx.size,
    {
        self.rx.size()
    }

    #[inline]
    pub fn tx(&self) -> (r: u64)
        ensures
            r == self.tx.size,
    {
        self.tx.size()
    }

    /// Bytes on one channel, or on both when none is given.
    pub open spec fn spec_get(self, channel: Option<Channel>) -> u64 {
        match channel {
            None => sat_add(self.tx.size, self.rx.size),
            Some(Channel::Rx) => self.rx.size,
            Some(Channel::Tx) => self.tx.size,
        }
    }

    pub fn get(&self, channel: Option<Channel>) -> (r: u64)
        ensures
            r == self.spec_get(channel),
    {
        match channel {
            None => self.tx().saturating_add(self.rx()),
            Some(Channel::Rx) => self.rx(),
            Some(Channel::Tx) => self.tx(),
        }
    }

    pub open spec fn spec_stat(self) -> Stat {
        Stat {
            rx: self.rx.size,
            rx_packet_count: self.rx.count,
            tx: self.tx.size,
            tx_packet_count: self.tx.count,
        }
    }

    /// A snapshot of the counters.
    pub fn stat(&self) -> (r: Stat)
        ensures
            r == self.spec_stat(),
    {
        Stat {
            rx: self.rx.size(),
            rx_packet_count: self.rx.count(),
            tx: self.tx.size(),
            tx_packet_count: self.tx.count(),
        }
    }
}

/// A snapshot of [Metrics].
#[derive(Clone, Copy, Debug, PartialEq, Eq, Structural)]
pub struct Stat {
    pub rx: u64,
    pub rx_packet_count: u64,
    pub tx: u64,
    pub tx_packet_count: u64,
}

impl Default for Stat {
    fn default() -> (r: Self)
        ensures
            r == Stat::zero(),
    {
        Stat { rx: 0, rx_packet_count: 0, tx: 0, tx_packet_count: 0 }
    }
}

impl Stat {
    pub open spec fn zero() -> Stat {
        Stat { rx: 0, rx_packet_count: 0, tx: 0, tx_packet_count: 0 }
    }

    pub open spec fn spec_total(self) -> u64 {
        sat_add(self.rx, self.tx)
    }

    /// Componentwise sum, each counter clamped at its maximum.
    pub open spec fn spec_merge(self, other: Stat) -> Stat {
        Stat {
            rx: sat_add(self.rx, other.rx),
            rx_packet_count: sat_add(self.rx_packet_count, other.rx_packet_count),
            tx: sat_add(self.tx, other.tx),
            tx_packet_count: sat_add(self.tx_packet_count, other.tx_packet_count),
        }
    }

    /// Bytes in both directions.
    pub fn total(&self) -> (r: u64)
        ensures
            r == self.spec_total(),
    {
        self.rx.saturating_add(self.tx)
    }

    pub fn merge(&mut self, other: &Self)
        ensures
            *final(self) == old(self).spec_merge(*other),
    {
        *self = Stat {
            rx: self.rx.saturating_add(other.rx),
            rx_packet_count: self.rx_packet_count.saturating_add(other.rx_packet_count),
            tx: self.tx.saturating_add(other.tx),
            tx_packet_count: self.tx_packet_count.saturating_add(other.tx_packet_count),
        };
    }
}

/// Merging snapshots does not depend on their order.
pub proof fn lemma_merge_commutative(a: Stat, b: Stat)
    ensures
        a.spec_merge(b) == b.spec_merge(a),
{
}

/// Merging snapshots does not depend on how they are grouped.
pub proof fn lemma_merge_associative(a: Stat, b: Stat, c: Stat)
    ensures
        a.spec_merge(b).spec_merge(c) == a.spec_merge(b.spec_merge(c)),
{
}

/// The default snapshot leaves any snapshot unchanged when merged, on either side.
pub proof fn lemma_merge_identity(a: Stat)
    ensures
        a.spec_merge(Stat::zero()) == a,
        Stat::zero().spec_merge(a) == a,
{
}

} // verus!
