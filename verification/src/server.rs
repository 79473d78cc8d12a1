//! The dispatch table: the set of live connections keyed by token, and the
//! monotonically increasing token counter. The listening socket and the
//! readiness poller stay with the caller; this type answers which connection
//! an event belongs to and keeps the table sound.

use crate::connection::{ClientState, WebSocketClient, read_interest, wf_client};
use vstd::prelude::*;

verus! {

/// The token reserved for the listening socket; no connection ever gets it.
pub const SERVER_TOKEN: u64 = 0;

/// No token names two entries.
pub open spec fn keys_unique(s: Seq<(u64, WebSocketClient)>) -> bool {
    forall|i: int, j: int| 0 <= i < j < s.len() ==> (#[trigger] s[i]).0 != (#[trigger] s[j]).0
}

/// The connection a token names, if any.
pub open spec fn client_at(s: Seq<(u64, WebSocketClient)>, t: u64) -> Option<WebSocketClient>
    decreases s.len(),
{
    if s.len() == 0 {
        None
    } else if s.last().0 == t {
        Some(s.last().1)
    } else {
        client_at(s.drop_last(), t)
    }
}

/// A token that no entry carries names nothing.
proof fn lemma_client_at_absent(s: Seq<(u64, WebSocketClient)>, t: u64)
    requires
        forall|i: int| 0 <= i < s.len() ==> (#[trigger] s[i]).0 != t,
    ensures
        client_at(s, t) is None,
    decreases s.len(),
{
    if s.len() > 0 {
        lemma_client_at_absent(s.drop_last(), t);
    }
}

/// Removing entry `i` unmaps its token and no other.
proof fn lemma_client_at_remove(s: Seq<(u64, WebSocketClient)>, i: int, t: u64)
    requires
        0 <= i < s.len(),
        keys_unique(s),
    ensures
        s[i].0 == t ==> client_at(s.remove(i), t) is None,
        s[i].0 != t ==> client_at(s.remove(i), t) == client_at(s, t),
    decreases s.len(),
{
    if i == s.len() - 1 {
        assert(s.remove(i) =~= s.drop_last());
        if s[i].0 == t {
            assert(forall|j: int|
                0 <= j < s.drop_last().len() ==> (#[trigger] s.drop_last()[j]).0 != t);
            lemma_client_at_absent(s.drop_last(), t);
        }
    } else {
        let shorter = s.drop_last();
        assert(s.remove(i).drop_last() =~= shorter.remove(i));
        assert(s.remove(i).last() == s.last());
        assert(keys_unique(shorter));
        lemma_client_at_remove(shorter, i, t);
    }
}

/// The table of live connections and the token counter. Tokens are assigned
/// by incrementing the counter and are never reused; every entry's token is
/// positive and no larger than the counter.
pub struct WebSocketServer {
    pub clients: Vec<(u64, WebSocketClient)>,
    pub token_counter: u64,
}

/// Table soundness: unique positive bounded tokens, well-formed connections.
pub open spec fn wf_server(s: WebSocketServer) -> bool {
    &&& keys_unique(s.clients@)
    &&& forall|i: int|
        0 <= i < s.clients@.len() ==> 1 <= (#[trigger] s.clients@[i]).0 <= s.token_counter
    &&& forall|i: int| 0 <= i < s.clients@.len() ==> wf_client((#[trigger] s.clients@[i]).1)
}

impl WebSocketServer {
    /// An empty table. The counter starts past the reserved listener token,
    /// so the first connection gets token 2 and none ever gets 0.
    pub fn new() -> (s: WebSocketServer)
        ensures
            s.clients@.len() == 0,
            s.token_counter == 1,
            wf_server(s),
    {
        WebSocketServer { clients: Vec::new(), token_counter: 1 }
    }

    /// How many connections are live.
    pub fn client_count(&self) -> (n: usize)
        ensures
            n == self.clients@.len(),
    {
        self.clients.len()
    }

    /// Accepts one connection: assigns the next token (never one in use),
    /// and enters a fresh connection under it — awaiting its handshake,
    /// subscribed to read readiness.
    pub fn accept_connection(&mut self) -> (t: u64)
        requires
            wf_server(*old(self)),
            old(self).token_counter < u64::MAX,
        ensures
            wf_server(*final(self)),
            final(self).token_counter == old(self).token_counter + 1,
            t == final(self).token_counter,
            client_at(old(self).clients@, t) is None,
            final(self).clients@.len() == old(self).clients@.len() + 1,
            final(self).clients@.drop_last() == old(self).clients@,
            final(self).clients@.last().0 == t,
            (final(self).clients@.last().1.state == ClientState::AwaitingHandshake
                && final(self).clients@.last().1.interest == read_interest()
                && final(self).clients@.last().1.outgoing@.len() == 0
                && final(self).clients@.last().1.headers.entries@.len() == 0),
            client_at(final(self).clients@, t) == Some(final(self).clients@.last().1),
            forall|u: u64| u != t ==> client_at(final(self).clients@, u) == client_at(
                old(self).clients@,
                u,
            ),
    {
        self.token_counter = self.token_counter + 1;
        let t = self.token_counter;
        proof {
            assert(forall|i: int|
                0 <= i < self.clients@.len() ==> (#[trigger] self.clients@[i]).0 != t);
            lemma_client_at_absent(self.clients@, t);
        }
        let fresh = WebSocketClient::new();
        self.clients.push((t, fresh));
        proof {
            assert(self.clients@.drop_last() =~= old(self).clients@);
            assert(forall|u: u64|
                u != t ==> client_at(self.clients@, u) == client_at(old(self).clients@, u));
        }
        t
    }

    /// Takes the connection a token names out of the table, to act on it;
    /// the caller puts it back with [`Self::put_client`], or drops it to
    /// tear the connection down. A token naming nothing leaves the table
    /// unchanged.
    pub fn take_client(&mut self, t: u64) -> (r: Option<WebSocketClient>)
        requires
            wf_server(*old(self)),
        ensures
            wf_server(*final(self)),
            final(self).token_counter == old(self).token_counter,
            r == client_at(old(self).clients@, t),
            r is Some ==> wf_client(r.unwrap()) && final(self).clients@.len() == old(
                self,
            ).clients@.len() - 1,
            r is None ==> *final(self) == *old(self),
            client_at(final(self).clients@, t) is None,
            forall|u: u64| u != t ==> client_at(final(self).clients@, u) == client_at(
                old(self).clients@,
                u,
            ),
    {
        let mut i: usize = 0;
        while i < self.clients.len()
            invariant
                i <= self.clients@.len(),
                forall|j: int| 0 <= j < i ==> (#[trigger] self.clients@[j]).0 != t,
                *self == *old(self),
                wf_server(*self),
            decreases self.clients@.len() - i,
        {
            if self.clients[i].0 == t {
                let entry = self.clients.remove(i);
                proof {
                    lemma_client_at_remove(old(self).clients@, i as int, t);
                    assert(forall|u: u64|
                        u != t ==> client_at(self.clients@, u) == client_at(
                            old(self).clients@,
                            u,
                        )) by {
                        assert forall|u: u64| u != t implies client_at(self.clients@, u)
                            == client_at(old(self).clients@, u) by {
                            lemma_client_at_remove(old(self).clients@, i as int, u);
                        }
                    }
                    assert(client_at(old(self).clients@, t) == Some(entry.1)) by {
                        lemma_client_at_found(old(self).clients@, i as int, t);
                    }
                }
                return Some(entry.1);
            }
            i += 1;
        }
        proof {
            lemma_client_at_absent(self.clients@, t);
        }
        None
    }

    /// Returns a connection to the table under its token. The token must be
    /// one the table does not currently hold — as after taking the
    /// connection out — and within the range the counter has handed out.
    pub fn put_client(&mut self, t: u64, c: WebSocketClient)
        requires
            wf_server(*old(self)),
            wf_client(c),
            client_at(old(self).clients@, t) is None,
            1 <= t <= old(self).token_counter,
        ensures
            wf_server(*final(self)),
            final(self).token_counter == old(self).token_counter,
            client_at(final(self).clients@, t) == Some(c),
            forall|u: u64| u != t ==> client_at(final(self).clients@, u) == client_at(
                old(self).clients@,
                u,
            ),
            final(self).clients@.len() == old(self).clients@.len() + 1,
    {
        proof {
            lemma_client_at_some_index(old(self).clients@, t);
        }
        self.clients.push((t, c));
        proof {
            assert(self.clients@.drop_last() =~= old(self).clients@);
        }
    }
}

/// A table that maps a token holds an entry carrying it; conversely a table
/// whose lookup misses holds no entry carrying it.
proof fn lemma_client_at_some_index(s: Seq<(u64, WebSocketClient)>, t: u64)
    requires
        client_at(s, t) is None,
    ensures
        forall|i: int| 0 <= i < s.len() ==> (#[trigger] s[i]).0 != t,
    decreases s.len(),
{
    if s.len() > 0 {
        lemma_client_at_some_index(s.drop_last(), t);
        assert forall|i: int| 0 <= i < s.len() implies (#[trigger] s[i]).0 != t by {
            if i < s.len() - 1 {
                assert(s.drop_last()[i] == s[i]);
            }
        }
    }
}

/// The entry at `i` is what lookup yields for its own token, keys being
/// unique.
proof fn lemma_client_at_found(s: Seq<(u64, WebSocketClient)>, i: int, t: u64)
    requires
        0 <= i < s.len(),
        keys_unique(s),
        s[i].0 == t,
    ensures
        client_at(s, t) == Some(s[i].1),
    decreases s.len(),
{
    if i == s.len() - 1 {
    } else {
        assert(keys_unique(s.drop_last()));
        assert(s.drop_last()[i] == s[i]);
        lemma_client_at_found(s.drop_last(), i, t);
    }
}

} // verus!
