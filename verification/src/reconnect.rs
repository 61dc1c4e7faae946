//! Connections to the edge: which address comes next, and how long to wait.

use vstd::prelude::*;

verus! {

/// How many seconds to wait after the first failure.
pub const FIRST_BACKOFF: u64 = 1;

/// How many seconds to wait at most.
pub const MAX_BACKOFF: u64 = 64;

/// The connections to the edge so far.
#[derive(Debug)]
pub struct Reconnect {
    count: usize,
    next: usize,
    backoff: u64,
}

/// The wait after one failure more.
pub open spec fn longer(backoff: u64) -> u64 {
    if 2 * backoff <= MAX_BACKOFF {
        (2 * backoff) as u64
    } else {
        MAX_BACKOFF
    }
}

impl Reconnect {
    /// How many addresses there are.
    pub closed spec fn addresses(self) -> nat {
        self.count as nat
    }

    /// The address that comes next.
    pub closed spec fn upcoming(self) -> nat {
        self.next as nat
    }

    /// How many seconds to wait after a failure now.
    pub closed spec fn wait(self) -> u64 {
        self.backoff
    }

    /// Whether there is an address that comes next, and the wait is within its
    /// bounds.
    pub open spec fn well_formed(self) -> bool {
        &&& self.upcoming() < self.addresses()
        &&& FIRST_BACKOFF <= self.wait() <= MAX_BACKOFF
    }

    /// No connections yet, with `count` addresses.
    pub fn new(count: usize) -> (r: Self)
        requires
            count > 0,
        ensures
            r.well_formed(),
            r.addresses() == count,
            r.upcoming() == 0,
            r.wait() == FIRST_BACKOFF,
    {
        Reconnect { count, next: 0, backoff: FIRST_BACKOFF }
    }

    /// Takes the address that comes next; behind the last comes the first.
    pub fn next_address(&mut self) -> (i: usize)
        requires
            old(self).well_formed(),
        ensures
            final(self).well_formed(),
            i == old(self).upcoming(),
            i < old(self).addresses(),
            final(self).upcoming() == (old(self).upcoming() + 1) % old(self).addresses(),
            final(self).addresses() == old(self).addresses(),
            final(self).wait() == old(self).wait(),
    {
        let i = self.next;
        let n = i + 1;
        self.next = if n == self.count {
            0
        } else {
            n
        };
        proof {
            if n == self.count {
                assert(n as int % self.count as int == 0) by (nonlinear_arith)
                    requires
                        n == self.count,
                        self.count > 0,
                ;
            } else {
                vstd::arithmetic::div_mod::lemma_small_mod(n as nat, self.count as nat);
            }
        }
        i
    }

    /// Notes that a connection failed, and says how many seconds to wait.
    pub fn failed(&mut self) -> (wait: u64)
        requires
            old(self).well_formed(),
        ensures
            final(self).well_formed(),
            wait == old(self).wait(),
            final(self).wait() == longer(old(self).wait()),
            final(self).upcoming() == old(self).upcoming(),
            final(self).addresses() == old(self).addresses(),
    {
        let wait = self.backoff;
        let double = 2 * wait;
        self.backoff = if double <= MAX_BACKOFF {
            double
        } else {
            MAX_BACKOFF
        };
        wait
    }

    /// Notes that a connection came to its end without failure.
    pub fn ended(&mut self)
        requires
            old(self).well_formed(),
        ensures
            final(self).well_formed(),
            final(self).wait() == FIRST_BACKOFF,
            final(self).upcoming() == old(self).upcoming(),
            final(self).addresses() == old(self).addresses(),
    {
        self.backoff = FIRST_BACKOFF;
    }
}

/// The wait after so many failures in a row.
pub open spec fn wait_after(failures: nat) -> u64
    decreases failures,
{
    if failures == 0 {
        FIRST_BACKOFF
    } else {
        longer(wait_after((failures - 1) as nat))
    }
}

/// With each failure in a row the wait doubles, until it is 64 seconds.
pub proof fn law_wait_doubles(failures: nat)
    ensures
        failures <= 6 ==> wait_after(failures) == vstd::arithmetic::power2::pow2(failures),
        failures >= 6 ==> wait_after(failures) == 64,
    decreases failures,
{
    vstd::arithmetic::power2::lemma2_to64();
    if failures > 0 {
        law_wait_doubles((failures - 1) as nat);
        if failures <= 6 {
            vstd::arithmetic::power2::lemma_pow2_unfold(failures);
        }
    }
}

/// A failure makes the wait twice as long, but never longer than 64 seconds.
pub proof fn law_longer(backoff: u64)
    ensures
        backoff <= 32 ==> longer(backoff) == 2 * backoff,
        backoff >= 32 ==> longer(backoff) == 64,
        FIRST_BACKOFF == 1,
{
}

/// How a connection ended.
pub ghost enum Outcome {
    Failed,
    Ended,
}

/// The wait after connections that ended in these ways.
pub open spec fn wait_of(history: Seq<Outcome>) -> u64
    decreases history.len(),
{
    if history.len() == 0 {
        FIRST_BACKOFF
    } else {
        match history.last() {
            Outcome::Failed => longer(wait_of(history.drop_last())),
            Outcome::Ended => FIRST_BACKOFF,
        }
    }
}

/// How many connections failed since one ended without failure.
pub open spec fn failures_in_a_row(history: Seq<Outcome>) -> nat
    decreases history.len(),
{
    if history.len() == 0 {
        0
    } else {
        match history.last() {
            Outcome::Failed => failures_in_a_row(history.drop_last()) + 1,
            Outcome::Ended => 0,
        }
    }
}

/// Only the failures in a row count for the wait: what came before the last
/// connection that ended without failure is forgotten.
pub proof fn law_wait_starts_over(history: Seq<Outcome>)
    ensures
        wait_of(history) == wait_after(failures_in_a_row(history)),
    decreases history.len(),
{
    if history.len() > 0 {
        law_wait_starts_over(history.drop_last());
    }
}

/// The address that comes next after so many connections.
pub open spec fn address_after(connections: nat, addresses: nat) -> nat
    decreases connections,
{
    if connections == 0 {
        0
    } else {
        (address_after((connections - 1) as nat, addresses) + 1) % addresses
    }
}

/// The addresses are taken in turn.
pub proof fn law_addresses_in_turn(connections: nat, addresses: nat)
    requires
        addresses > 0,
    ensures
        address_after(connections, addresses) == connections % addresses,
    decreases connections,
{
    if connections == 0 {
        vstd::arithmetic::div_mod::lemma_small_mod(0, addresses);
    } else {
        let before = (connections - 1) as nat;
        law_addresses_in_turn(before, addresses);
        vstd::arithmetic::div_mod::lemma_add_mod_noop(before as int, 1, addresses as int);
        vstd::arithmetic::div_mod::lemma_add_mod_noop(
            before as int % addresses as int,
            1,
            addresses as int,
        );
        vstd::arithmetic::div_mod::lemma_mod_twice(before as int, addresses as int);
    }
}

} // verus!
