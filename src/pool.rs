//! The pool of connection slots and its round-robin cursor.
use vstd::prelude::*;
use crate::errors::ConnectionsError;

verus! {

/// The cursor that follows `cursor` in a pool of `len` slots.
pub open spec fn next_cursor(cursor: nat, len: nat) -> nat {
    if len == 0 {
        0
    } else {
        ((cursor + 1) % len) as nat
    }
}

/// The cursor after `k` acquisitions, starting from `cursor`.
pub open spec fn cursor_after(cursor: nat, len: nat, k: nat) -> nat
    decreases k,
{
    if k == 0 {
        cursor
    } else {
        next_cursor(cursor_after(cursor, len, (k - 1) as nat), len)
    }
}

/// Which of `len` consecutive acquisitions from cursor `c` lands on slot `i`.
pub open spec fn visit_number(c: nat, len: nat, i: nat) -> nat {
    ((i + len - c) % (len as int)) as nat
}

/// An ordered set of connection slots, handed out one after another.
///
/// The slots hold whatever stands for a live connection; the pool only decides
/// which one serves the next exchange.
pub struct TcpConnectionsPool<T> {
    pub connections: Vec<T>,
    pub next_connection: usize,
}

impl<T> TcpConnectionsPool<T> {
    /// The cursor names a slot, or is zero in an empty pool.
    pub open spec fn wf(&self) -> bool {
        if self.connections.len() == 0 {
            self.next_connection == 0
        } else {
            self.next_connection < self.connections.len()
        }
    }

    /// A pool over the connections that were established; the first one
    /// serves first. An empty vector gives an empty (but valid) pool.
    pub fn new(connections: Vec<T>) -> (r: Self)
        ensures
            r.wf(),
            r.connections@ == connections@,
            r.next_connection == 0,
    {
        TcpConnectionsPool { connections, next_connection: 0 }
    }

    /// The number of slots.
    pub fn len(&self) -> (r: usize)
        ensures
            r == self.connections.len(),
    {
        self.connections.len()
    }

    /// The slot at `index`.
    pub fn slot(&self, index: usize) -> (r: &T)
        requires
            index < self.connections.len(),
        ensures
            *r == self.connections@[index as int],
    {
        &self.connections[index]
    }

    /// Picks the slot for the next exchange and moves the cursor on by one,
    /// wrapping after the last slot. Fails exactly when the pool is empty.
    pub fn get_connection(&mut self) -> (r: Result<usize, ConnectionsError>)
        requires
            old(self).wf(),
        ensures
            final(self).wf(),
            final(self).connections@ == old(self).connections@,
            old(self).connections.len() == 0 ==> r == Err::<usize, ConnectionsError>(
                ConnectionsError::ThereIsNoTcpConnectionValid,
            ) && final(self).next_connection == old(self).next_connection,
            old(self).connections.len() > 0 ==> r == Ok::<usize, ConnectionsError>(
                old(self).next_connection,
            ),
            final(self).next_connection as nat == next_cursor(
                old(self).next_connection as nat,
                old(self).connections.len() as nat,
            ),
    {
        let len = self.connections.len();
        if len == 0 {
            return Err(ConnectionsError::ThereIsNoTcpConnectionValid);
        }
        let index = self.next_connection;
        proof {
            if index + 1 == len {
                vstd::arithmetic::div_mod::lemma_mod_self_0(len as int);
            } else {
                vstd::arithmetic::div_mod::lemma_small_mod((index + 1) as nat, len as nat);
            }
        }
        self.next_connection = if index + 1 == len { 0 } else { index + 1 };
        Ok(index)
    }
}

/// After `k` acquisitions from cursor `c` in a pool of `len` slots, the
/// cursor stands at `(c + k) % len`.
pub proof fn lemma_cursor_after(c: nat, len: nat, k: nat)
    requires
        len > 0,
        c < len,
    ensures
        cursor_after(c, len, k) == (c + k) % len,
    decreases k,
{
    if k == 0 {
        vstd::arithmetic::div_mod::lemma_small_mod(c, len);
    } else {
        lemma_cursor_after(c, len, (k - 1) as nat);
        let p = cursor_after(c, len, (k - 1) as nat);
        vstd::arithmetic::div_mod::lemma_add_mod_noop(c + k - 1, 1, len as int);
        if len == 1 {
            vstd::arithmetic::div_mod::lemma_mod_self_0(1);
            assert((p + 1) % 1 == 0 && (c + k) % 1 == 0) by (nonlinear_arith);
        } else {
            vstd::arithmetic::div_mod::lemma_small_mod(1, len);
        }
    }
}

/// A fresh pool (cursor 0) of `len > 0` slots hands out slot `k % len` on
/// its `k`-th acquisition (counted from zero), and its cursor then stands at
/// `(k + 1) % len`.
pub proof fn lemma_fresh_pool_order(len: nat, k: nat)
    requires
        len > 0,
    ensures
        cursor_after(0, len, k) == k % len,
        next_cursor(cursor_after(0, len, k), len) == (k + 1) % len,
{
    lemma_cursor_after(0, len, k);
    lemma_cursor_after(0, len, k + 1);
}

/// Round-robin coverage: in a valid pool of `len > 0` slots, `len` consecutive
/// acquisitions starting at any cursor visit every slot exactly once, in slot
/// order from the cursor, and the cursor then stands where it started.
pub proof fn lemma_round_robin_coverage(c: nat, len: nat)
    requires
        len > 0,
        c < len,
    ensures
        forall|k: nat| k < len ==> #[trigger] cursor_after(c, len, k) == (c + k) % len,
        forall|k1: nat, k2: nat|
            #![trigger cursor_after(c, len, k1), cursor_after(c, len, k2)]
            k1 < len && k2 < len && k1 != k2 ==> cursor_after(c, len, k1) != cursor_after(c, len, k2),
        forall|i: nat|
            i < len ==> #[trigger] visit_number(c, len, i) < len && cursor_after(
                c,
                len,
                visit_number(c, len, i),
            ) == i,
        cursor_after(c, len, len) == c,
{
    assert forall|k: nat| k < len implies #[trigger] cursor_after(c, len, k) == (c + k) % len by {
        lemma_cursor_after(c, len, k);
    }
    assert forall|k1: nat, k2: nat|
        #![trigger cursor_after(c, len, k1), cursor_after(c, len, k2)]
        k1 < len && k2 < len && k1 != k2 implies cursor_after(c, len, k1) != cursor_after(c, len, k2) by {
        lemma_cursor_after(c, len, k1);
        lemma_cursor_after(c, len, k2);
        let a = c + k1;
        let b = c + k2;
        if a < len && b < len {
            vstd::arithmetic::div_mod::lemma_small_mod(a, len);
            vstd::arithmetic::div_mod::lemma_small_mod(b, len);
        } else if a >= len && b >= len {
            vstd::arithmetic::div_mod::lemma_small_mod((a - len) as nat, len);
            vstd::arithmetic::div_mod::lemma_small_mod((b - len) as nat, len);
            vstd::arithmetic::div_mod::lemma_mod_sub_multiples_vanish(a as int, len as int);
            vstd::arithmetic::div_mod::lemma_mod_sub_multiples_vanish(b as int, len as int);
        } else if a < len {
            vstd::arithmetic::div_mod::lemma_small_mod(a, len);
            vstd::arithmetic::div_mod::lemma_small_mod((b - len) as nat, len);
            vstd::arithmetic::div_mod::lemma_mod_sub_multiples_vanish(b as int, len as int);
        } else {
            vstd::arithmetic::div_mod::lemma_small_mod(b, len);
            vstd::arithmetic::div_mod::lemma_small_mod((a - len) as nat, len);
            vstd::arithmetic::div_mod::lemma_mod_sub_multiples_vanish(a as int, len as int);
        }
    }
    assert forall|i: nat| i < len implies #[trigger] visit_number(c, len, i) < len && cursor_after(
        c,
        len,
        visit_number(c, len, i),
    ) == i by {
        let k: nat = if i >= c { (i - c) as nat } else { (i + len - c) as nat };
        if i >= c {
            vstd::arithmetic::div_mod::lemma_mod_add_multiples_vanish((i - c) as int, len as int);
            vstd::arithmetic::div_mod::lemma_small_mod(k, len);
        } else {
            vstd::arithmetic::div_mod::lemma_small_mod(k, len);
        }
        assert(visit_number(c, len, i) == k);
        lemma_cursor_after(c, len, k);
        if i >= c {
            vstd::arithmetic::div_mod::lemma_small_mod(i, len);
        } else {
            vstd::arithmetic::div_mod::lemma_small_mod(i, len);
            vstd::arithmetic::div_mod::lemma_mod_sub_multiples_vanish((i + len) as int, len as int);
        }
        assert(cursor_after(c, len, k) == i);
    }
    lemma_cursor_after(c, len, len);
    vstd::arithmetic::div_mod::lemma_small_mod(c, len);
    vstd::arithmetic::div_mod::lemma_mod_sub_multiples_vanish((c + len) as int, len as int);
}

} // verus!
