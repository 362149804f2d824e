//! The fan-out server's client set and its decision rules: a discovery
//! datagram from an address promotes it to a client endpoint at port
//! 4000, inserted at most once; a failed send removes the client.  The
//! surrounding I/O loop performs the sends and hands the outcomes back.

use vstd::prelude::*;

verus! {

/// A client endpoint: an IPv4 address and a UDP port.
#[derive(Clone, Copy, Debug, PartialEq, Eq, Structural)]
pub struct ClientAddr {
    pub ip: u32,
    pub port: u16,
}

/// The port every discovered client is served on.
pub const CLIENT_PORT: u16 = 4000;

/// The set of live clients, each held exactly once.
pub struct ClientSet {
    pub addrs: Vec<ClientAddr>,
}

impl ClientSet {
    /// No client appears twice.
    pub open spec fn wf(&self) -> bool {
        forall|i: int, j: int| 0 <= i < j < self.addrs@.len() ==> self.addrs@[i] != self.addrs@[j]
    }

    pub fn new() -> (s: ClientSet)
        ensures
            s.wf(),
            s.addrs@.len() == 0,
    {
        ClientSet { addrs: Vec::new() }
    }

    /// Whether an endpoint is a live client.
    pub fn contains(&self, c: ClientAddr) -> (r: bool)
        ensures
            r == self.addrs@.contains(c),
    {
        let n: usize = self.addrs.len();
        let mut i: usize = 0;
        while i < n
            invariant
                i <= n,
                n == self.addrs@.len(),
                forall|j: int| 0 <= j < i ==> self.addrs@[j] != c,
            decreases n - i,
        {
            if self.addrs[i].ip == c.ip && self.addrs[i].port == c.port {
                proof {
                    assert(self.addrs@[i as int] == c);
                }
                return true;
            }
            i = i + 1;
        }
        false
    }

    /// A discovery datagram from `ip`: the endpoint `(ip, 4000)` joins
    /// the set unless it is already a client, so receipt inserts it at
    /// most once.  Returns whether the client is new.
    pub fn on_datagram(&mut self, ip: u32) -> (added: bool)
        requires
            old(self).wf(),
        ensures
            final(self).wf(),
            added == !old(self).addrs@.contains(ClientAddr { ip, port: CLIENT_PORT }),
            final(self).addrs@ == if added {
                old(self).addrs@.push(ClientAddr { ip, port: CLIENT_PORT })
            } else {
                old(self).addrs@
            },
            final(self).addrs@.contains(ClientAddr { ip, port: CLIENT_PORT }),
    {
        let c = ClientAddr { ip, port: CLIENT_PORT };
        if self.contains(c) {
            false
        } else {
            self.addrs.push(c);
            proof {
                assert(self.addrs@[self.addrs@.len() - 1] == c);
            }
            true
        }
    }

    /// A failed send to a client: the endpoint leaves the set.
    pub fn on_send_failure(&mut self, c: ClientAddr)
        requires
            old(self).wf(),
        ensures
            final(self).wf(),
            !final(self).addrs@.contains(c),
            final(self).addrs@ == old(self).addrs@.remove_value(c),
    {
        match self.index_of(c) {
            Some(i) => {
                let ghost orig = self.addrs@;
                self.addrs.remove(i);
                proof {
                    assert(orig.index_of_first(c) == Some(i as int)) by {
                        lemma_index_of_first_is(orig, c, i as int);
                    }
                    assert(self.addrs@ =~= orig.remove_value(c));
                    assert forall|j: int|
                        0 <= j < self.addrs@.len() implies self.addrs@[j] != c by {
                        if j < i {
                            assert(self.addrs@[j] == orig[j]);
                        } else {
                            assert(self.addrs@[j] == orig[j + 1]);
                        }
                    }
                    if self.addrs@.contains(c) {
                        let j = choose|j: int|
                            0 <= j < self.addrs@.len() && self.addrs@[j] == c;
                        assert(false);
                    }
                }
            },
            None => {
                proof {
                    if self.addrs@.contains(c) {
                        let j = choose|j: int| 0 <= j < self.addrs@.len() && self.addrs@[j] == c;
                        assert(false);
                    }
                    assert(self.addrs@.index_of_first(c) is None) by {
                        if self.addrs@.index_of_first(c) matches Some(j) {
                            self.addrs@.index_of_first_ensures(c);
                        }
                    }
                    assert(self.addrs@ == self.addrs@.remove_value(c));
                }
            },
        }
    }

    /// The position of a client in the set, when it is one.
    fn index_of(&self, c: ClientAddr) -> (r: Option<usize>)
        ensures
            match r {
                Some(i) => {
                    &&& 0 <= i < self.addrs@.len()
                    &&& self.addrs@[i as int] == c
                    &&& forall|j: int| 0 <= j < i ==> self.addrs@[j] != c
                },
                None => forall|j: int| 0 <= j < self.addrs@.len() ==> self.addrs@[j] != c,
            },
    {
        let n: usize = self.addrs.len();
        let mut i: usize = 0;
        while i < n
            invariant
                i <= n,
                n == self.addrs@.len(),
                forall|j: int| 0 <= j < i ==> self.addrs@[j] != c,
            decreases n - i,
        {
            if self.addrs[i].ip == c.ip && self.addrs[i].port == c.port {
                proof {
                    assert(self.addrs@[i as int] == c);
                }
                return Some(i);
            }
            i = i + 1;
        }
        None
    }

    /// The live client endpoints.
    pub fn addrs(&self) -> (r: &Vec<ClientAddr>)
        ensures
            r@ == self.addrs@,
    {
        &self.addrs
    }
}

/// A client is held at most once: any two positions holding the same
/// endpoint are the same position.
pub proof fn lemma_client_at_most_once(s: &ClientSet, i: int, j: int)
    requires
        s.wf(),
        0 <= i < s.addrs@.len(),
        0 <= j < s.addrs@.len(),
        s.addrs@[i] == s.addrs@[j],
    ensures
        i == j,
{
}

/// Helper: the first occurrence of `c` in a duplicate-free sequence
/// whose position `i` holds `c` is `i` itself.
proof fn lemma_index_of_first_is(s: Seq<ClientAddr>, c: ClientAddr, i: int)
    requires
        forall|a: int, b: int| 0 <= a < b < s.len() ==> s[a] != s[b],
        0 <= i < s.len(),
        s[i] == c,
        forall|j: int| 0 <= j < i ==> s[j] != c,
    ensures
        s.index_of_first(c) == Some(i),
{
    s.index_of_first_ensures(c);
    assert(s.contains(c)) by {
        assert(s[i] == c);
    }
}

} // verus!
