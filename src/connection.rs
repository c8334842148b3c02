//! Where a connection goes, and how a pool is filled: each slot is tried a
//! bounded number of times and skipped when every try fails.
use vstd::prelude::*;
use crate::pool::TcpConnectionsPool;

verus! {

/// How many times a slot's connection is tried before the slot is skipped.
pub const CONNECT_ATTEMPTS: usize = 3;

/// The peer to connect to: a numeric address, a name, and a port.
pub struct ConnectTarget {
    pub ip: Option<String>,
    pub host: Option<String>,
    pub port: u16,
}

/// The text is present and not empty.
pub open spec fn given(s: Option<String>) -> bool {
    s matches Some(t) && t@.len() > 0
}

impl ConnectTarget {
    /// The address to connect to: the numeric address where there is one,
    /// else the name, with the port; `None` where there is neither.
    pub fn address(&self) -> (r: Option<(String, u16)>)
        ensures
            r is None <==> !given(self.ip) && !given(self.host),
            r matches Some((a, p)) ==> p == self.port && if given(self.ip) {
                a@ == self.ip->Some_0@
            } else {
                a@ == self.host->Some_0@
            },
    {
        if let Some(ip) = &self.ip {
            if !ip.as_str().is_empty() {
                return Some((ip.clone(), self.port));
            }
        }
        if let Some(host) = &self.host {
            if !host.as_str().is_empty() {
                return Some((host.clone(), self.port));
            }
        }
        None
    }
}

/// Fills a pool slot by slot: a slot gets the first connection that one of
/// its tries yields, and is skipped after `CONNECT_ATTEMPTS` failures.
pub struct PoolBuilder<T> {
    pub connections: Vec<T>,
    pub slot: usize,
    pub attempt: usize,
    pub max_connections: usize,
}

impl<T> PoolBuilder<T> {
    /// The slot and try counters are in range.
    pub open spec fn wf(&self) -> bool {
        &&& self.slot <= self.max_connections
        &&& self.attempt < CONNECT_ATTEMPTS
        &&& (self.slot == self.max_connections ==> self.attempt == 0)
        &&& self.connections@.len() <= self.slot
    }

    /// How many more tries can be asked for, at most.
    pub open spec fn tries_left(&self) -> int {
        (self.max_connections - self.slot) * CONNECT_ATTEMPTS - self.attempt
    }

    /// A builder for `max_connections` slots, none tried yet.
    pub fn new(max_connections: usize) -> (r: Self)
        ensures
            r.wf(),
            r.connections@.len() == 0,
            r.slot == 0,
            r.attempt == 0,
            r.max_connections == max_connections,
    {
        PoolBuilder { connections: Vec::new(), slot: 0, attempt: 0, max_connections }
    }

    /// The slot to try next (counted from zero), or `None` when every slot
    /// has been dealt with.
    pub fn next_slot(&self) -> (r: Option<usize>)
        requires
            self.wf(),
        ensures
            r is None <==> self.slot == self.max_connections,
            r matches Some(s) ==> s == self.slot,
    {
        if self.slot < self.max_connections {
            Some(self.slot)
        } else {
            None
        }
    }

    /// Records the outcome of one try on the current slot: a connection is
    /// kept and the next slot comes; a failure counts, and the slot is
    /// skipped once all its tries failed.
    pub fn on_attempt(&mut self, outcome: Option<T>)
        requires
            old(self).wf(),
            old(self).slot < old(self).max_connections,
        ensures
            final(self).wf(),
            final(self).max_connections == old(self).max_connections,
            final(self).tries_left() < old(self).tries_left(),
            match outcome {
                Some(c) => final(self).connections@ == old(self).connections@.push(c)
                    && final(self).slot == old(self).slot + 1 && final(self).attempt == 0,
                None => final(self).connections@ == old(self).connections@ && if old(self).attempt
                    + 1 == CONNECT_ATTEMPTS {
                    final(self).slot == old(self).slot + 1 && final(self).attempt == 0
                } else {
                    final(self).slot == old(self).slot && final(self).attempt == old(self).attempt
                        + 1
                },
            },
    {
        let ghost s0 = self.slot as int;
        let ghost a0 = self.attempt as int;
        let ghost m = self.max_connections as int;
        match outcome {
            Some(c) => {
                self.connections.push(c);
                self.slot = self.slot + 1;
                self.attempt = 0;
            },
            None => {
                if self.attempt + 1 == CONNECT_ATTEMPTS {
                    self.slot = self.slot + 1;
                    self.attempt = 0;
                } else {
                    self.attempt = self.attempt + 1;
                }
            },
        }
        let ghost s1 = self.slot as int;
        let ghost a1 = self.attempt as int;
        assert((m - s1) * 3 - a1 < (m - s0) * 3 - a0) by (nonlinear_arith)
            requires
                (s1 == s0 + 1 && a1 == 0 && a0 < 3) || (s1 == s0 && a1 == a0 + 1),
        ;
    }

    /// The pool of the connections that were made, in slot order.
    pub fn finish(self) -> (r: TcpConnectionsPool<T>)
        ensures
            r.wf(),
            r.connections@ == self.connections@,
            r.next_connection == 0,
    {
        TcpConnectionsPool::new(self.connections)
    }
}

} // verus!
