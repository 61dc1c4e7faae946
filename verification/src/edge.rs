//! The edge: where to connect to.

use rand::seq::SliceRandom;
use vstd::prelude::*;
use vstd::string::*;
use crate::urls;

verus! {

/// The host name that is looked up first.
pub const EDGE_HOST_1: &'static str = "region1.v2.argotunnel.com";

/// The host name that is looked up where the first has no addresses.
pub const EDGE_HOST_2: &'static str = "region2.v2.argotunnel.com";

/// The port of the edge.
pub const EDGE_PORT: u16 = 7844;

/// The name that the edge goes by in TLS.
pub const EDGE_SNI: &'static str = "h2.cftunnel.com";

/// An address of the edge.
#[derive(Debug, Clone, Copy, PartialEq, Eq)]
pub enum EdgeAddr {
    V4 { ip: [u8; 4], port: u16 },
    V6 { ip: [u8; 16], port: u16, flow: u32, scope: u32 },
}

/// How many host names there are to look up.
pub const EDGE_HOSTS: usize = 2;

/// The host name that is looked up after `n` others.
pub open spec fn edge_host(n: nat) -> Seq<char> {
    if n == 0 {
        EDGE_HOST_1@
    } else {
        EDGE_HOST_2@
    }
}

/// Whether these are the addresses that are used where none was found.
pub open spec fn is_fallback(addrs: Seq<EdgeAddr>) -> bool {
    &&& addrs.len() == 4
    &&& is_v4(addrs[0], 198, 41, 192, 167)
    &&& is_v4(addrs[1], 198, 41, 192, 67)
    &&& is_v4(addrs[2], 198, 41, 192, 57)
    &&& is_v4(addrs[3], 198, 41, 200, 13)
}

/// Whether this is the address with these four bytes and the port of the edge.
pub open spec fn is_v4(addr: EdgeAddr, a: u8, b: u8, c: u8, d: u8) -> bool {
    addr matches EdgeAddr::V4 { ip, port } && ip@ == seq![a, b, c, d] && port == EDGE_PORT
}

/// The addresses that are used where none was found.
pub fn fallback_addrs() -> (addrs: Vec<EdgeAddr>)
    ensures
        is_fallback(addrs@),
{
    let mut addrs: Vec<EdgeAddr> = Vec::new();
    addrs.push(EdgeAddr::V4 { ip: [198, 41, 192, 167], port: EDGE_PORT });
    addrs.push(EdgeAddr::V4 { ip: [198, 41, 192, 67], port: EDGE_PORT });
    addrs.push(EdgeAddr::V4 { ip: [198, 41, 192, 57], port: EDGE_PORT });
    addrs.push(EdgeAddr::V4 { ip: [198, 41, 200, 13], port: EDGE_PORT });
    addrs
}

/// Calls `SliceRandom::shuffle` with the random numbers of the thread, which
/// puts the elements into some order. Which order is left to chance.
#[verifier::external_body]
fn shuffle(addrs: &mut Vec<EdgeAddr>)
    ensures
        final(addrs)@.to_multiset() == old(addrs)@.to_multiset(),
{
    addrs.shuffle(&mut rand::thread_rng())
}

/// What the search for the edge comes to.
#[derive(Debug)]
pub enum EdgeStep {
    /// Look up the addresses of this host and port.
    Lookup(String),
    /// Use these addresses, one after the other.
    Found(Vec<EdgeAddr>),
}

/// Whether answer `i` is the first that has addresses. A lookup that failed
/// has no answer.
pub open spec fn first_found(answers: Seq<Option<Vec<EdgeAddr>>>, i: int) -> bool {
    &&& 0 <= i < answers.len()
    &&& has_addrs(answers[i])
    &&& forall|j: int| 0 <= j < i ==> !has_addrs(#[trigger] answers[j])
}

/// Whether an answer has addresses.
pub open spec fn has_addrs(answer: Option<Vec<EdgeAddr>>) -> bool {
    answer matches Some(addrs) && addrs@.len() > 0
}

/// Whether no answer has addresses.
pub open spec fn none_found(answers: Seq<Option<Vec<EdgeAddr>>>) -> bool {
    forall|i: int| 0 <= i < answers.len() ==> !has_addrs(#[trigger] answers[i])
}

/// Whether `r` is what to do next, from the answers to the lookups that were made.
pub open spec fn is_edge_step(answers: Seq<Option<Vec<EdgeAddr>>>, r: EdgeStep) -> bool {
    match r {
        EdgeStep::Lookup(host) => {
            &&& none_found(answers)
            &&& answers.len() < EDGE_HOSTS
            &&& host@ == urls::address_text(edge_host(answers.len()), EDGE_PORT)
        },
        EdgeStep::Found(addrs) => {
            &&& addrs@.len() > 0
            &&& if none_found(answers) {
                answers.len() >= EDGE_HOSTS && exists|all: Seq<EdgeAddr>| #[trigger]
                    is_fallback(all) && addrs@.to_multiset() == all.to_multiset()
            } else {
                exists|i: int| #[trigger]
                    first_found(answers, i) && addrs@.to_multiset()
                        == answers[i].unwrap()@.to_multiset()
            }
        },
    }
}

/// Decides, from the answers to the lookups that were made, what to do next:
/// the first answer with addresses is used; while there is none, the next host
/// is looked up; where no host is left, the addresses that are always there are
/// used. The addresses are in some order.
pub fn resolve_edge_addrs(answers: &Vec<Option<Vec<EdgeAddr>>>) -> (r: EdgeStep)
    ensures
        is_edge_step(answers@, r),
{
    let n = answers.len();
    let mut i: usize = 0;
    while i < n
        invariant
            i <= n,
            n == answers@.len(),
            forall|k: int| 0 <= k < i ==> !has_addrs(#[trigger] answers@[k]),
        decreases n - i,
    {
        match &answers[i] {
            Some(found) => {
                if found.len() > 0 {
                    let mut addrs = copy_addrs(found);
                    shuffle(&mut addrs);
                    proof {
                        lemma_same_len(addrs@, found@);
                        assert(first_found(answers@, i as int));
                        assert(has_addrs(answers@[i as int]));
                    }
                    return EdgeStep::Found(addrs);
                }
            },
            None => {},
        }
        i = i + 1;
    }
    if n == 0 {
        return EdgeStep::Lookup(urls::address(EDGE_HOST_1, EDGE_PORT));
    }
    if n < EDGE_HOSTS {
        return EdgeStep::Lookup(urls::address(EDGE_HOST_2, EDGE_PORT));
    }
    let mut addrs = fallback_addrs();
    let ghost found = addrs@;
    shuffle(&mut addrs);
    proof {
        lemma_same_len(addrs@, found);
    }
    EdgeStep::Found(addrs)
}

/// Copies addresses.
fn copy_addrs(addrs: &Vec<EdgeAddr>) -> (r: Vec<EdgeAddr>)
    ensures
        r@ == addrs@,
{
    let n = addrs.len();
    let mut r: Vec<EdgeAddr> = Vec::new();
    let mut i: usize = 0;
    while i < n
        invariant
            i <= n,
            n == addrs@.len(),
            r@ == addrs@.take(i as int),
        decreases n - i,
    {
        r.push(addrs[i]);
        i = i + 1;
        assert(r@ =~= addrs@.take(i as int));
    }
    assert(r@ =~= addrs@);
    r
}

/// The same elements in another order are as many.
proof fn lemma_same_len(a: Seq<EdgeAddr>, b: Seq<EdgeAddr>)
    requires
        a.to_multiset() == b.to_multiset(),
    ensures
        a.len() == b.len(),
{
    a.to_multiset_ensures();
    b.to_multiset_ensures();
}

} // verus!
