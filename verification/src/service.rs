use crate::assoc::{
    assoc_lookup, assoc_remove_key, assoc_unique, lemma_assoc_lookup_index,
    lemma_assoc_lookup_none_iff, lemma_assoc_lookup_push, lemma_assoc_lookup_push_keeps_unique,
    lemma_assoc_remove_at, lemma_assoc_remove_key_absent, lemma_assoc_update_value,
    lemma_remove_at_is_remove_key,
};
use crate::codec::{
    ilp_packet_to_frame, internal_error_reject, is_frame_encoding, parse_ilp_packet, spec_decode,
    t00_reject_bytes,
};
use crate::frames::{BtpFrame, Packet, PacketKind};
use vstd::prelude::*;

verus! {

/// One connection to a peer: whether its outbound channel still accepts
/// frames, and the frames queued on it so far, oldest first.
pub struct Session {
    /// Tells this session apart from every other ever added for its
    /// account, so a teardown event can be checked against the session it
    /// belongs to and cannot evict a replacement.
    pub token: u64,
    pub alive: bool,
    pub sent: Vec<BtpFrame>,
}

/// An inbound Prepare held until a handler is bound: the account it arrived
/// from, its request id, and its bytes.
pub struct InboundPrepare {
    pub from: u64,
    pub request_id: u32,
    pub prepare: Vec<u8>,
}

/// What the service asks its surroundings to do with an inbound frame.
pub enum InboundAction {
    /// A Prepare before a handler is bound: held in the inbound buffer.
    Buffered { request_id: u32 },
    /// A Prepare after a handler is bound: hand it to the handler.
    Deliver { from: u64, request_id: u32, prepare: Vec<u8> },
    /// A reply that matched a pending request: resolve the caller's slot
    /// with the Fulfill (`Ok`) or Reject (`Err`) bytes.
    Resolve { request_id: u32, reply: Result<Vec<u8>, Vec<u8>> },
    /// A reply with no pending request under its id: drop it.
    Stale { request_id: u32 },
    /// A BTP Error frame, or a frame that did not decode: drop it.
    Ignored,
}

/// The outcome of an outgoing request.
pub enum SendOutcome {
    /// The Prepare went onto the account's session under this id; the
    /// caller's future resolves when a reply carrying the id arrives.
    Queued { request_id: u32 },
    /// The session could not take the request: resolve the caller at once
    /// with this internal-error Reject.
    Failed { reject: Vec<u8> },
    /// No session for the account: hand the request, unchanged, to the next
    /// outgoing service.
    NoSession { prepare: Vec<u8> },
}

/// The outcome of one attempt to queue a request under a given id.
pub enum TrySendOutcome {
    /// Queued under the given id.
    Queued,
    /// The id is already in flight: try a fresh one.
    IdCollision,
    /// The session's outbound channel is closed.
    ConnectionDown,
    /// No session for the account.
    NoSession,
}

/// Every in-flight request id, oldest first.
pub open spec fn all_request_ids(entries: Seq<(u32, u64)>) -> Seq<u32> {
    entries.map_values(|e: (u32, u64)| e.0)
}

/// The pending entries that survive when `account`'s session is torn down:
/// those routed over other accounts' sessions, order kept.
pub open spec fn pending_without_account(entries: Seq<(u32, u64)>, account: u64) -> Seq<(u32, u64)>
    decreases entries.len(),
{
    if entries.len() == 0 {
        Seq::empty()
    } else {
        let rest = pending_without_account(entries.drop_last(), account);
        if entries.last().1 == account {
            rest
        } else {
            rest.push(entries.last())
        }
    }
}

/// The request ids whose slots resolve with the internal-error Reject when
/// `account`'s session is torn down, oldest first.
pub open spec fn drained_request_ids(entries: Seq<(u32, u64)>, account: u64) -> Seq<u32>
    decreases entries.len(),
{
    if entries.len() == 0 {
        Seq::empty()
    } else {
        let rest = drained_request_ids(entries.drop_last(), account);
        if entries.last().1 == account {
            rest.push(entries.last().0)
        } else {
            rest
        }
    }
}

/// Draining an account from the pending table empties exactly the lookups
/// that pointed at the account, and the drained ids are exactly those, each
/// once.
pub proof fn lemma_pending_drain(entries: Seq<(u32, u64)>, account: u64)
    requires
        assoc_unique(entries),
    ensures
        assoc_unique(pending_without_account(entries, account)),
        forall|id: u32|
            #[trigger] assoc_lookup(pending_without_account(entries, account), id) == (
            if assoc_lookup(entries, id) == Some(account) {
                None::<u64>
            } else {
                assoc_lookup(entries, id)
            }),
        forall|id: u32|
            #[trigger] drained_request_ids(entries, account).contains(id) <==> assoc_lookup(
                entries,
                id,
            ) == Some(account),
        forall|m: int, n: int|
            0 <= m < n < drained_request_ids(entries, account).len()
                ==> #[trigger] drained_request_ids(entries, account)[m] != #[trigger] drained_request_ids(
                entries,
                account,
            )[n],
        pending_without_account(entries, account).len() + drained_request_ids(
            entries,
            account,
        ).len() == entries.len(),
    decreases entries.len(),
{
    if entries.len() > 0 {
        let prefix = entries.drop_last();
        let last = entries.last();
        assert(forall|m: int| 0 <= m < prefix.len() ==> #[trigger] prefix[m] == entries[m]);
        assert(assoc_unique(prefix));
        lemma_pending_drain(prefix, account);
        assert(entries =~= prefix.push(last));
        lemma_assoc_lookup_push(prefix, last.0, last.1);
        assert(assoc_lookup(prefix, last.0) is None) by {
            lemma_assoc_lookup_none_iff(prefix, last.0);
        }
        let kept = pending_without_account(prefix, account);
        let drained = drained_request_ids(prefix, account);
        if last.1 == account {
            // kept stays; drained gains last.0, which was not in it
            assert(!drained.contains(last.0));
            assert forall|id: u32|
                #[trigger] drained_request_ids(entries, account).contains(id) <==> assoc_lookup(
                    entries,
                    id,
                ) == Some(account) by {
                assert(drained_request_ids(entries, account) == drained.push(last.0));
                if drained.contains(id) || id == last.0 {
                    if id == last.0 {
                        assert(drained.push(last.0).last() == last.0);
                    } else {
                        let m = choose|m: int|
                            0 <= m < drained.len() && #[trigger] drained[m] == id;
                        assert(drained.push(last.0)[m] == id);
                    }
                }
                if drained.push(last.0).contains(id) {
                    let m = choose|m: int|
                        0 <= m < drained.push(last.0).len() && #[trigger] drained.push(last.0)[m]
                            == id;
                    if m < drained.len() {
                        assert(drained[m] == id);
                    }
                }
            }
            assert(forall|m: int|
                0 <= m < drained.len() ==> #[trigger] drained.push(last.0)[m] == drained[m]);
        } else {
            // drained stays; kept gains last, whose key was absent
            assert(assoc_lookup(kept, last.0) is None);
            lemma_assoc_lookup_push_keeps_unique(kept, last.0, last.1);
            lemma_assoc_lookup_push(kept, last.0, last.1);
        }
    }
}

/// Move the pending entries routed over `account` out of the table,
/// returning their request ids oldest first.
fn drain_pending(pending: &mut Vec<(u32, u64)>, account: u64) -> (dropped: Vec<u32>)
    ensures
        final(pending)@ == pending_without_account(old(pending)@, account),
        dropped@ == drained_request_ids(old(pending)@, account),
{
    let ghost orig = pending@;
    let mut kept: Vec<(u32, u64)> = Vec::new();
    let mut dropped: Vec<u32> = Vec::new();
    let mut i: usize = 0;
    proof {
        assert(orig.take(0) =~= Seq::<(u32, u64)>::empty());
    }
    while i < pending.len()
        invariant
            pending@ == orig,
            0 <= i <= orig.len(),
            kept@ == pending_without_account(orig.take(i as int), account),
            dropped@ == drained_request_ids(orig.take(i as int), account),
        decreases orig.len() - i,
    {
        let entry = pending[i];
        proof {
            assert(orig.take(i as int + 1).drop_last() =~= orig.take(i as int));
            assert(orig.take(i as int + 1).last() == orig[i as int]);
        }
        if entry.1 == account {
            dropped.push(entry.0);
        } else {
            kept.push(entry);
        }
        i = i + 1;
    }
    proof {
        assert(orig.take(orig.len() as int) =~= orig);
    }
    *pending = kept;
    dropped
}

/// The index of `account`'s session, if any.
fn find_session(connections: &Vec<(u64, Session)>, account: u64) -> (r: Option<usize>)
    requires
        assoc_unique(connections@),
    ensures
        match r {
            Some(i) => i < connections@.len() && connections@[i as int].0 == account
                && assoc_lookup(connections@, account) == Some(connections@[i as int].1),
            None => assoc_lookup(connections@, account) is None,
        },
{
    let mut i: usize = 0;
    while i < connections.len()
        invariant
            0 <= i <= connections@.len(),
            assoc_unique(connections@),
            forall|j: int| 0 <= j < i ==> (#[trigger] connections@[j]).0 != account,
        decreases connections@.len() - i,
    {
        if connections[i].0 == account {
            proof {
                lemma_assoc_lookup_index(connections@, i as int);
            }
            return Some(i);
        }
        i = i + 1;
    }
    proof {
        lemma_assoc_lookup_none_iff(connections@, account);
    }
    None
}

/// The BTP multiplexer in its outgoing-only state (no handler bound yet):
/// outgoing requests are multiplexed over per-account sessions and matched
/// to replies through the pending table; inbound Prepares buffer until
/// `handle_incoming` binds a handler.
pub struct BtpOutgoingService {
    connections: Vec<(u64, Session)>,
    pending_outgoing: Vec<(u32, u64)>,
    pending_incoming: Vec<InboundPrepare>,
    next_token: u64,
}

impl BtpOutgoingService {
    /// The sessions map: account id to session.
    pub closed spec fn sessions(self) -> Seq<(u64, Session)> {
        self.connections@
    }

    /// The session for `account`, if any.
    pub closed spec fn session_of(self, account: u64) -> Option<Session> {
        assoc_lookup(self.connections@, account)
    }

    /// The correlation table: in-flight request id to the account whose
    /// session carried the Prepare.
    pub closed spec fn pending(self) -> Seq<(u32, u64)> {
        self.pending_outgoing@
    }

    /// The account pending under `id`, if any.
    pub closed spec fn pending_of(self, id: u32) -> Option<u64> {
        assoc_lookup(self.pending_outgoing@, id)
    }

    /// The inbound Prepares buffered before a handler is bound, oldest first.
    pub closed spec fn buffered(self) -> Seq<InboundPrepare> {
        self.pending_incoming@
    }

    /// How many session tokens have been handed out so far; the next
    /// session gets this one.
    pub closed spec fn tokens_used(self) -> u64 {
        self.next_token
    }

    /// Well-formed: both tables have unique keys, and every session's token
    /// was handed out before the next one.
    pub closed spec fn wf(self) -> bool {
        &&& assoc_unique(self.connections@)
        &&& assoc_unique(self.pending_outgoing@)
        &&& forall|i: int|
            0 <= i < self.connections@.len() ==> (#[trigger] self.connections@[i]).1.token
                < self.next_token
    }

    /// A fresh multiplexer: no sessions, nothing in flight, nothing buffered.
    pub fn new() -> (s: Self)
        ensures
            s.wf(),
            s.sessions().len() == 0,
            s.pending().len() == 0,
            s.buffered().len() == 0,
            s.tokens_used() == 0,
            forall|a: u64| #[trigger] s.session_of(a) is None,
            forall|id: u32| #[trigger] s.pending_of(id) is None,
    {
        BtpOutgoingService {
            connections: Vec::new(),
            pending_outgoing: Vec::new(),
            pending_incoming: Vec::new(),
            next_token: 0,
        }
    }

    /// Add the connection for `account`: the account maps to a fresh,
    /// open session. A previous session for the account is replaced and shut
    /// down: the result says whether one was, and carries the ids of the
    /// requests that were in flight on it, each of which resolves with the
    /// internal-error Reject.
    pub fn add_connection(&mut self, account: u64) -> (r: (bool, Vec<u32>))
        requires
            old(self).wf(),
            old(self).tokens_used() < u64::MAX,
        ensures
            final(self).wf(),
            final(self).tokens_used() == old(self).tokens_used() + 1,
            r.0 == (old(self).session_of(account) is Some),
            r.1@ == drained_request_ids(old(self).pending(), account),
            final(self).pending().len() + r.1@.len() == old(self).pending().len(),
            forall|id: u32|
                #[trigger] final(self).pending_of(id) == (if old(self).pending_of(id) == Some(
                    account,
                ) {
                    None::<u64>
                } else {
                    old(self).pending_of(id)
                }),
            final(self).session_of(account) matches Some(s) && s.alive && s.sent@.len() == 0
                && s.token == old(self).tokens_used(),
            old(self).session_of(account) matches Some(s) ==> s.token < old(self).tokens_used(),
            forall|b: u64|
                b != account ==> #[trigger] final(self).session_of(b) == old(self).session_of(b),
            final(self).buffered() == old(self).buffered(),
    {
        proof {
            lemma_pending_drain(self.pending_outgoing@, account);
        }
        let dropped = drain_pending(&mut self.pending_outgoing, account);
        let found = find_session(&self.connections, account);
        let token = self.next_token;
        self.next_token = self.next_token + 1;
        match found {
            Some(i) => {
                let ghost before = self.connections@;
                let _old_entry = self.connections.remove(i);
                self.connections.insert(
                    i,
                    (account, Session { token, alive: true, sent: Vec::new() }),
                );
                proof {
                    assert(self.connections@ =~= before.update(
                        i as int,
                        (before[i as int].0, self.connections@[i as int].1),
                    ));
                    lemma_assoc_update_value(before, i as int, self.connections@[i as int].1);
                }
                (true, dropped)
            },
            None => {
                let ghost before = self.connections@;
                self.connections.push((account, Session { token, alive: true, sent: Vec::new() }));
                proof {
                    lemma_assoc_lookup_push(before, account, self.connections@.last().1);
                    assert(self.connections@ =~= before.push(
                        (account, self.connections@.last().1),
                    ));
                    lemma_assoc_lookup_push_keeps_unique(
                        before,
                        account,
                        self.connections@.last().1,
                    );
                    assert(forall|j: int|
                        0 <= j < before.len() ==> #[trigger] self.connections@[j] == before[j]);
                }
                (false, dropped)
            },
        }
    }

    /// Note that `account`'s outbound channel is closed (its forwarder or
    /// socket failed): the session stays in the map until torn down, but
    /// takes no more frames.
    pub fn connection_down(&mut self, account: u64)
        requires
            old(self).wf(),
        ensures
            final(self).wf(),
            old(self).session_of(account) is None ==> final(self).session_of(account) is None,
            old(self).session_of(account) matches Some(s) ==> (final(self).session_of(account)
                matches Some(s2) && !s2.alive && s2.sent == s.sent && s2.token == s.token),
            forall|b: u64|
                b != account ==> #[trigger] final(self).session_of(b) == old(self).session_of(b),
            final(self).tokens_used() == old(self).tokens_used(),
            final(self).pending() == old(self).pending(),
            final(self).buffered() == old(self).buffered(),
    {
        let found = find_session(&self.connections, account);
        match found {
            Some(i) => {
                let ghost before = self.connections@;
                let mut entry = self.connections.remove(i);
                entry.1.alive = false;
                self.connections.insert(i, entry);
                proof {
                    assert(self.connections@ =~= before.update(
                        i as int,
                        (before[i as int].0, self.connections@[i as int].1),
                    ));
                    lemma_assoc_update_value(before, i as int, self.connections@[i as int].1);
                }
            },
            None => {},
        }
    }

    /// Tear down `account`'s session: the sessions map drops the
    /// account, and every request in flight over the session resolves with
    /// the internal-error Reject; the returned ids are theirs, oldest
    /// first. For a teardown event that may be stale — the connection might
    /// have been replaced since — use `close_connection_if`.
    pub fn close_connection(&mut self, account: u64) -> (dropped: Vec<u32>)
        requires
            old(self).wf(),
        ensures
            final(self).wf(),
            final(self).tokens_used() == old(self).tokens_used(),
            final(self).sessions() == assoc_remove_key(old(self).sessions(), account),
            final(self).session_of(account) is None,
            forall|b: u64|
                b != account ==> #[trigger] final(self).session_of(b) == old(self).session_of(b),
            dropped@ == drained_request_ids(old(self).pending(), account),
            final(self).pending().len() + dropped@.len() == old(self).pending().len(),
            forall|id: u32|
                #[trigger] final(self).pending_of(id) == (if old(self).pending_of(id) == Some(
                    account,
                ) {
                    None::<u64>
                } else {
                    old(self).pending_of(id)
                }),
            final(self).buffered() == old(self).buffered(),
    {
        proof {
            lemma_pending_drain(self.pending_outgoing@, account);
        }
        let dropped = drain_pending(&mut self.pending_outgoing, account);
        let found = find_session(&self.connections, account);
        match found {
            Some(i) => {
                let ghost before = self.connections@;
                let _old_entry = self.connections.remove(i);
                proof {
                    lemma_assoc_remove_at(before, i as int);
                    lemma_remove_at_is_remove_key(before, i as int);
                }
            },
            None => {
                proof {
                    lemma_assoc_lookup_none_iff(self.connections@, account);
                    lemma_assoc_remove_key_absent(self.connections@, account);
                }
            },
        }
        dropped
    }

    /// Tear down `account`'s session only if it is still the one `token`
    /// identifies: the guarded form of `close_connection` for teardown
    /// events that may fire after the connection was replaced. A stale
    /// token changes nothing, so a late teardown cannot evict the
    /// replacement session.
    pub fn close_connection_if(&mut self, account: u64, token: u64) -> (r: Option<Vec<u32>>)
        requires
            old(self).wf(),
        ensures
            final(self).wf(),
            final(self).tokens_used() == old(self).tokens_used(),
            final(self).buffered() == old(self).buffered(),
            (r is Some) == (old(self).session_of(account) matches Some(s) && s.token == token),
            match r {
                Some(dropped) => {
                    &&& final(self).sessions() == assoc_remove_key(old(self).sessions(), account)
                    &&& final(self).session_of(account) is None
                    &&& forall|b: u64|
                        b != account ==> #[trigger] final(self).session_of(b) == old(self).session_of(b)
                    &&& dropped@ == drained_request_ids(old(self).pending(), account)
                    &&& final(self).pending().len() + dropped@.len() == old(self).pending().len()
                    &&& forall|id: u32|
                        #[trigger] final(self).pending_of(id) == (if old(self).pending_of(id)
                            == Some(account) {
                            None::<u64>
                        } else {
                            old(self).pending_of(id)
                        })
                },
                None => final(self).sessions() == old(self).sessions() && final(self).pending()
                    == old(self).pending(),
            },
    {
        let found = find_session(&self.connections, account);
        match found {
            Some(i) => {
                if self.connections[i].1.token == token {
                    Some(self.close_connection(account))
                } else {
                    None
                }
            },
            None => None,
        }
    }

    /// Queue `frame` on `account`'s session; a missing session or a closed
    /// channel drops the frame.
    fn push_frame(&mut self, account: u64, frame: BtpFrame) -> (pushed: bool)
        requires
            old(self).wf(),
        ensures
            final(self).wf(),
            pushed == (old(self).session_of(account) matches Some(s) && s.alive),
            pushed ==> (old(self).session_of(account) matches Some(s) && final(self).session_of(
                account,
            ) matches Some(s2) && s2.alive && s2.token == s.token && s2.sent@ == s.sent@.push(
                frame,
            ) && s2.sent@.drop_last() == s.sent@ && s2.sent@.last() == frame && s2.sent@.len()
                == s.sent@.len() + 1),
            final(self).tokens_used() == old(self).tokens_used(),
            !pushed ==> final(self).sessions() == old(self).sessions(),
            forall|b: u64|
                b != account ==> #[trigger] final(self).session_of(b) == old(self).session_of(b),
            final(self).pending() == old(self).pending(),
            final(self).buffered() == old(self).buffered(),
    {
        let found = find_session(&self.connections, account);
        match found {
            Some(i) => {
                let ghost before = self.connections@;
                let mut entry = self.connections.remove(i);
                if entry.1.alive {
                    let ghost sent_before = entry.1.sent@;
                    entry.1.sent.push(frame);
                    self.connections.insert(i, entry);
                    proof {
                        assert(self.connections@ =~= before.update(
                            i as int,
                            (before[i as int].0, self.connections@[i as int].1),
                        ));
                        lemma_assoc_update_value(before, i as int, self.connections@[i as int].1);
                        assert(sent_before.push(frame).drop_last() =~= sent_before);
                    }
                    true
                } else {
                    self.connections.insert(i, entry);
                    proof {
                        assert(self.connections@ =~= before);
                    }
                    false
                }
            },
            None => false,
        }
    }

    /// Whether `request_id` is in flight.
    pub fn is_pending(&self, request_id: u32) -> (r: bool)
        ensures
            r == (self.pending_of(request_id) is Some),
    {
        contains_key(&self.pending_outgoing, request_id)
    }

    /// Take the pending slot for `request_id` out of the table, saying
    /// whether there was one.
    fn take_pending(&mut self, request_id: u32) -> (found: bool)
        requires
            old(self).wf(),
        ensures
            final(self).wf(),
            found == (old(self).pending_of(request_id) is Some),
            final(self).pending() == assoc_remove_key(old(self).pending(), request_id),
            final(self).pending_of(request_id) is None,
            forall|id: u32|
                id != request_id ==> #[trigger] final(self).pending_of(id) == old(self).pending_of(id),
            !found ==> final(self).pending() == old(self).pending(),
            final(self).sessions() == old(self).sessions(),
            final(self).tokens_used() == old(self).tokens_used(),
            final(self).buffered() == old(self).buffered(),
    {
        let mut i: usize = 0;
        while i < self.pending_outgoing.len()
            invariant
                old(self).wf(),
                self == old(self),
                0 <= i <= self.pending_outgoing@.len(),
                forall|j: int| 0 <= j < i ==> (#[trigger] self.pending_outgoing@[j]).0 != request_id,
            decreases self.pending_outgoing@.len() - i,
        {
            if self.pending_outgoing[i].0 == request_id {
                let ghost before = self.pending_outgoing@;
                proof {
                    lemma_assoc_lookup_index(before, i as int);
                    lemma_assoc_remove_at(before, i as int);
                    lemma_remove_at_is_remove_key(before, i as int);
                }
                let _entry = self.pending_outgoing.remove(i);
                return true;
            }
            i = i + 1;
        }
        proof {
            lemma_assoc_lookup_none_iff(self.pending_outgoing@, request_id);
            lemma_assoc_remove_key_absent(self.pending_outgoing@, request_id);
        }
        false
    }

    /// One attempt of the outgoing path under a caller-supplied request
    /// id: register the slot and queue the encoded Prepare, or say exactly
    /// why not. The request is queued exactly when the account has a live
    /// session and the id is not already in flight.
    pub fn try_send_request(&mut self, to: u64, request_id: u32, prepare: &Vec<u8>) -> (r:
        TrySendOutcome)
        requires
            old(self).wf(),
        ensures
            final(self).wf(),
            final(self).tokens_used() == old(self).tokens_used(),
            final(self).buffered() == old(self).buffered(),
            match r {
                TrySendOutcome::NoSession => old(self).session_of(to) is None && final(self).sessions() == old(self).sessions() && final(self).pending() == old(self).pending(),
                TrySendOutcome::ConnectionDown => (old(self).session_of(to) matches Some(s)
                    && !s.alive) && final(self).sessions() == old(self).sessions() && final(self).pending() == old(self).pending(),
                TrySendOutcome::IdCollision => (old(self).session_of(to) matches Some(s) && s.alive)
                    && old(self).pending_of(request_id) is Some && final(self).sessions() == old(self).sessions() && final(self).pending() == old(self).pending(),
                TrySendOutcome::Queued => {
                    &&& (old(self).session_of(to) matches Some(s) && s.alive)
                    &&& old(self).pending_of(request_id) is None
                    &&& final(self).pending() == old(self).pending().push((request_id, to))
                    &&& final(self).pending_of(request_id) == Some(to)
                    &&& forall|id: u32|
                        id != request_id ==> #[trigger] final(self).pending_of(id) == old(self).pending_of(id)
                    &&& (old(self).session_of(to) matches Some(s) && final(self).session_of(to)
                        matches Some(s2) && s2.alive && s2.token == s.token && s2.sent@.len()
                        == s.sent@.len() + 1 && s2.sent@.drop_last() == s.sent@
                        && is_frame_encoding(
                        s2.sent@.last(),
                        request_id,
                        PacketKind::Prepare,
                        prepare@,
                    ))
                    &&& forall|b: u64|
                        b != to ==> #[trigger] final(self).session_of(b) == old(self).session_of(b)
                },
            },
    {
        let found = find_session(&self.connections, to);
        match found {
            None => TrySendOutcome::NoSession,
            Some(i) => {
                if !self.connections[i].1.alive {
                    return TrySendOutcome::ConnectionDown;
                }
                if contains_key(&self.pending_outgoing, request_id) {
                    return TrySendOutcome::IdCollision;
                }
                let ghost pending_before = self.pending_outgoing@;
                proof {
                    lemma_assoc_lookup_push(pending_before, request_id, to);
                    lemma_assoc_lookup_push_keeps_unique(pending_before, request_id, to);
                }
                self.pending_outgoing.push((request_id, to));
                let frame = ilp_packet_to_frame(request_id, Packet::Prepare(prepare.clone()));
                let pushed = self.push_frame(to, frame);
                proof {
                    assert(pushed);
                }
                TrySendOutcome::Queued
            },
        }
    }

    /// The outgoing path: with a session for `to`, allocate a fresh
    /// random request id (retrying on a collision with an in-flight id),
    /// register the pending slot and queue the encoded Prepare under it.
    /// With no session, the request falls through, unchanged, to the next
    /// outgoing service. A session whose channel is closed — or no fresh id
    /// after several tries — fails the caller at once with the
    /// internal-error Reject.
    pub fn send_request(&mut self, to: u64, prepare: Vec<u8>) -> (r: SendOutcome)
        requires
            old(self).wf(),
        ensures
            final(self).wf(),
            final(self).tokens_used() == old(self).tokens_used(),
            final(self).buffered() == old(self).buffered(),
            match r {
                SendOutcome::NoSession { prepare: returned } => old(self).session_of(to) is None
                    && returned@ == prepare@ && final(self).sessions() == old(self).sessions()
                    && final(self).pending() == old(self).pending(),
                SendOutcome::Failed { reject } => reject@ == t00_reject_bytes() && (old(self).session_of(to) matches Some(s) && (!s.alive || old(self).pending().len() > 0))
                    && final(self).sessions() == old(self).sessions() && final(self).pending()
                    == old(self).pending(),
                SendOutcome::Queued { request_id } => {
                    &&& (old(self).session_of(to) matches Some(s) && s.alive)
                    &&& old(self).pending_of(request_id) is None
                    &&& final(self).pending() == old(self).pending().push((request_id, to))
                    &&& final(self).pending_of(request_id) == Some(to)
                    &&& forall|id: u32|
                        id != request_id ==> #[trigger] final(self).pending_of(id) == old(self).pending_of(id)
                    &&& (old(self).session_of(to) matches Some(s) && final(self).session_of(to)
                        matches Some(s2) && s2.alive && s2.token == s.token && s2.sent@.len()
                        == s.sent@.len() + 1 && s2.sent@.drop_last() == s.sent@
                        && is_frame_encoding(
                        s2.sent@.last(),
                        request_id,
                        PacketKind::Prepare,
                        prepare@,
                    ))
                    &&& forall|b: u64|
                        b != to ==> #[trigger] final(self).session_of(b) == old(self).session_of(b)
                },
            },
    {
        let mut attempts: usize = 0;
        while attempts < 8
            invariant
                old(self).wf(),
                self.wf(),
                self.sessions() == old(self).sessions(),
                self.pending() == old(self).pending(),
                self.buffered() == old(self).buffered(),
                self.tokens_used() == old(self).tokens_used(),
                attempts > 0 ==> (old(self).session_of(to) is Some && old(self).pending().len()
                    > 0),
            decreases 8 - attempts,
        {
            let request_id = random_request_id();
            let outcome = self.try_send_request(to, request_id, &prepare);
            match outcome {
                TrySendOutcome::Queued => {
                    return SendOutcome::Queued { request_id };
                },
                TrySendOutcome::IdCollision => {
                    attempts = attempts + 1;
                },
                TrySendOutcome::ConnectionDown => {
                    return SendOutcome::Failed { reject: internal_error_reject() };
                },
                TrySendOutcome::NoSession => {
                    return SendOutcome::NoSession { prepare };
                },
            }
        }
        // every try collided with an id already in flight: fail the caller
        // rather than reuse a slot
        SendOutcome::Failed { reject: internal_error_reject() }
    }

    /// Dispatch one inbound frame from `from`'s connection: a Prepare
    /// is buffered until a handler is bound; a Fulfill or Reject resolves
    /// the pending request under its id, at most once; a stale reply, a BTP
    /// Error frame, and a frame that does not decode are dropped.
    pub fn handle_message(&mut self, from: u64, frame: &BtpFrame) -> (r: InboundAction)
        requires
            old(self).wf(),
        ensures
            final(self).wf(),
            final(self).sessions() == old(self).sessions(),
            forall|b: u64| #[trigger] final(self).session_of(b) == old(self).session_of(b),
            final(self).tokens_used() == old(self).tokens_used(),
            ({
                let d = spec_decode(frame.kind, frame.request_id, frame.protocol_data@);
                match r {
                    InboundAction::Buffered { request_id } => (d matches Ok(t) && t.0 == request_id
                        && t.1 == PacketKind::Prepare && final(self).buffered().last().prepare@
                        == t.2) && final(self).pending() == old(self).pending() && final(self).buffered().len() == old(self).buffered().len() + 1 && final(self).buffered().drop_last() == old(self).buffered() && final(self).buffered().last().from == from && final(self).buffered().last().request_id
                        == request_id,
                    InboundAction::Deliver { .. } => false,
                    InboundAction::Resolve { request_id, reply } => (d matches Ok(t) && t.0
                        == request_id && t.1 != PacketKind::Prepare && ((t.1 == PacketKind::Fulfill
                        && (reply matches Ok(f) && f@ == t.2)) || (t.1 == PacketKind::Reject
                        && (reply matches Err(rj) && rj@ == t.2)))) && old(self).pending_of(request_id)
                        is Some && final(self).pending() == assoc_remove_key(
                        old(self).pending(),
                        request_id,
                    ) && final(self).pending_of(request_id) is None && (forall|id: u32|
                        id != request_id ==> #[trigger] final(self).pending_of(id) == old(self).pending_of(id)) && final(self).buffered() == old(self).buffered(),
                    InboundAction::Stale { request_id } => (d matches Ok(t) && t.0 == request_id
                        && t.1 != PacketKind::Prepare) && old(self).pending_of(request_id) is None
                        && final(self).pending() == old(self).pending() && final(self).buffered()
                        == old(self).buffered(),
                    InboundAction::Ignored => d is Err && final(self).pending() == old(self).pending() && final(self).buffered() == old(self).buffered(),
                }
            }),
    {
        match parse_ilp_packet(frame) {
            Err(_) => InboundAction::Ignored,
            Ok((request_id, Packet::Prepare(data))) => {
                let ghost buffered_before = self.pending_incoming@;
                self.pending_incoming.push(InboundPrepare { from, request_id, prepare: data });
                proof {
                    assert(buffered_before.push(self.pending_incoming@.last()).drop_last()
                        =~= buffered_before);
                }
                InboundAction::Buffered { request_id }
            },
            Ok((request_id, Packet::Fulfill(data))) => {
                if self.take_pending(request_id) {
                    InboundAction::Resolve { request_id, reply: Ok(data) }
                } else {
                    InboundAction::Stale { request_id }
                }
            },
            Ok((request_id, Packet::Reject(data))) => {
                if self.take_pending(request_id) {
                    InboundAction::Resolve { request_id, reply: Err(data) }
                } else {
                    InboundAction::Stale { request_id }
                }
            },
        }
    }

    /// Bind the incoming handler. One-time by construction: it
    /// consumes the outgoing-only service. The buffered inbound Prepares
    /// come back oldest first, each to be handled exactly once; sessions
    /// and in-flight requests carry over.
    pub fn handle_incoming(self) -> (r: (BtpService, Vec<InboundPrepare>))
        requires
            self.wf(),
        ensures
            r.0.wf(),
            r.1@ == self.buffered(),
            r.0.sessions() == self.sessions(),
            r.0.pending() == self.pending(),
            forall|b: u64| #[trigger] r.0.session_of(b) == self.session_of(b),
            forall|id: u32| #[trigger] r.0.pending_of(id) == self.pending_of(id),
            r.0.tokens_used() == self.tokens_used(),
    {
        let BtpOutgoingService { connections, pending_outgoing, pending_incoming, next_token } =
            self;
        let bound = BtpService {
            outgoing: BtpOutgoingService {
                connections,
                pending_outgoing,
                pending_incoming: Vec::new(),
                next_token,
            },
        };
        (bound, pending_incoming)
    }

    /// Shut the whole service down, draining the correlation table: every session goes away
    /// and every in-flight request resolves with the internal-error Reject;
    /// the returned ids are all of them, oldest first.
    pub fn shutdown(&mut self) -> (dropped: Vec<u32>)
        requires
            old(self).wf(),
        ensures
            final(self).wf(),
            final(self).sessions().len() == 0,
            final(self).pending().len() == 0,
            forall|a: u64| #[trigger] final(self).session_of(a) is None,
            forall|id: u32| #[trigger] final(self).pending_of(id) is None,
            final(self).tokens_used() == old(self).tokens_used(),
            final(self).buffered() == old(self).buffered(),
            dropped@ == all_request_ids(old(self).pending()),
    {
        let mut dropped: Vec<u32> = Vec::new();
        let mut i: usize = 0;
        let ghost orig = self.pending_outgoing@;
        proof {
            assert(dropped@ =~= all_request_ids(orig.take(0)));
        }
        while i < self.pending_outgoing.len()
            invariant
                self.pending_outgoing@ == orig,
                0 <= i <= orig.len(),
                dropped@ == all_request_ids(orig.take(i as int)),
            decreases orig.len() - i,
        {
            let id = self.pending_outgoing[i].0;
            dropped.push(id);
            proof {
                assert(dropped@ =~= all_request_ids(orig.take(i as int + 1)));
            }
            i = i + 1;
        }
        proof {
            assert(orig.take(orig.len() as int) =~= orig);
        }
        self.pending_outgoing.clear();
        self.connections.clear();
        dropped
    }

    /// Whether `account` currently has a session.
    pub fn has_session(&self, account: u64) -> (r: bool)
        requires
            self.wf(),
        ensures
            r == (self.session_of(account) is Some),
    {
        find_session(&self.connections, account).is_some()
    }

    /// The frames queued on `account`'s session so far, oldest first.
    pub fn sent_frames(&self, account: u64) -> (r: Option<&Vec<BtpFrame>>)
        requires
            self.wf(),
        ensures
            match r {
                Some(v) => self.session_of(account) matches Some(s) && v@ == s.sent@,
                None => self.session_of(account) is None,
            },
    {
        match find_session(&self.connections, account) {
            Some(i) => Some(&self.connections[i].1.sent),
            None => None,
        }
    }

    /// The token of `account`'s current session, if any.
    pub fn session_token(&self, account: u64) -> (r: Option<u64>)
        requires
            self.wf(),
        ensures
            match r {
                Some(t) => self.session_of(account) matches Some(s) && s.token == t,
                None => self.session_of(account) is None,
            },
    {
        match find_session(&self.connections, account) {
            Some(i) => Some(self.connections[i].1.token),
            None => None,
        }
    }

    /// How many inbound Prepares are buffered.
    pub fn buffered_len(&self) -> (r: usize)
        ensures
            r == self.buffered().len(),
    {
        self.pending_incoming.len()
    }
}

fn contains_key(pending: &Vec<(u32, u64)>, request_id: u32) -> (r: bool)
    ensures
        r == (assoc_lookup(pending@, request_id) is Some),
{
    let mut i: usize = 0;
    while i < pending.len()
        invariant
            0 <= i <= pending@.len(),
            forall|j: int| 0 <= j < i ==> (#[trigger] pending@[j]).0 != request_id,
        decreases pending@.len() - i,
    {
        if pending[i].0 == request_id {
            proof {
                lemma_assoc_lookup_none_iff(pending@, request_id);
            }
            return true;
        }
        i = i + 1;
    }
    proof {
        lemma_assoc_lookup_none_iff(pending@, request_id);
    }
    false
}

/// Relies on rand::random: a uniformly random 32-bit request id; nothing is
/// promised of the value, and the retry loop around it treats every outcome
/// soundly.
#[verifier::external_body]
fn random_request_id() -> u32 {
    rand::random::<u32>()
}

/// The BTP multiplexer in its bidirectional state: made by binding an
/// incoming handler over the outgoing-only service. Inbound Prepares now go
/// to the handler; everything else works as before.
pub struct BtpService {
    outgoing: BtpOutgoingService,
}

impl BtpService {
    /// The sessions map: account id to session.
    pub closed spec fn sessions(self) -> Seq<(u64, Session)> {
        self.outgoing.sessions()
    }

    /// The session for `account`, if any.
    pub closed spec fn session_of(self, account: u64) -> Option<Session> {
        self.outgoing.session_of(account)
    }

    /// The correlation table: in-flight request id to the account whose
    /// session carried the Prepare.
    pub closed spec fn pending(self) -> Seq<(u32, u64)> {
        self.outgoing.pending()
    }

    /// The account pending under `id`, if any.
    pub closed spec fn pending_of(self, id: u32) -> Option<u64> {
        self.outgoing.pending_of(id)
    }

    /// How many session tokens have been handed out so far.
    pub closed spec fn tokens_used(self) -> u64 {
        self.outgoing.tokens_used()
    }

    /// Well-formed: the underlying tables are, and nothing is buffered —
    /// the buffer was drained when the handler was bound.
    pub closed spec fn wf(self) -> bool {
        self.outgoing.wf() && self.outgoing.buffered().len() == 0
    }

    /// A fresh bidirectional multiplexer: no sessions and nothing in flight.
    pub fn new() -> (s: Self)
        ensures
            s.wf(),
            s.sessions().len() == 0,
            s.pending().len() == 0,
            s.tokens_used() == 0,
            forall|a: u64| #[trigger] s.session_of(a) is None,
            forall|id: u32| #[trigger] s.pending_of(id) is None,
    {
        let (bound, _buffered) = BtpOutgoingService::new().handle_incoming();
        bound
    }

    /// Add the connection for `account`; as on the outgoing-only service.
    pub fn add_connection(&mut self, account: u64) -> (r: (bool, Vec<u32>))
        requires
            old(self).wf(),
            old(self).tokens_used() < u64::MAX,
        ensures
            final(self).wf(),
            final(self).tokens_used() == old(self).tokens_used() + 1,
            r.0 == (old(self).session_of(account) is Some),
            r.1@ == drained_request_ids(old(self).pending(), account),
            final(self).pending().len() + r.1@.len() == old(self).pending().len(),
            forall|id: u32|
                #[trigger] final(self).pending_of(id) == (if old(self).pending_of(id) == Some(
                    account,
                ) {
                    None::<u64>
                } else {
                    old(self).pending_of(id)
                }),
            final(self).session_of(account) matches Some(s) && s.alive && s.sent@.len() == 0
                && s.token == old(self).tokens_used(),
            old(self).session_of(account) matches Some(s) ==> s.token < old(self).tokens_used(),
            forall|b: u64|
                b != account ==> #[trigger] final(self).session_of(b) == old(self).session_of(b),
    {
        self.outgoing.add_connection(account)
    }

    /// Note that `account`'s outbound channel is closed; as on the
    /// outgoing-only service.
    pub fn connection_down(&mut self, account: u64)
        requires
            old(self).wf(),
        ensures
            final(self).wf(),
            old(self).session_of(account) is None ==> final(self).session_of(account) is None,
            old(self).session_of(account) matches Some(s) ==> (final(self).session_of(account)
                matches Some(s2) && !s2.alive && s2.sent == s.sent && s2.token == s.token),
            forall|b: u64|
                b != account ==> #[trigger] final(self).session_of(b) == old(self).session_of(b),
            final(self).tokens_used() == old(self).tokens_used(),
            final(self).pending() == old(self).pending(),
    {
        self.outgoing.connection_down(account)
    }

    /// Tear down `account`'s session; as on the outgoing-only service.
    pub fn close_connection(&mut self, account: u64) -> (dropped: Vec<u32>)
        requires
            old(self).wf(),
        ensures
            final(self).wf(),
            final(self).tokens_used() == old(self).tokens_used(),
            final(self).sessions() == assoc_remove_key(old(self).sessions(), account),
            final(self).session_of(account) is None,
            forall|b: u64|
                b != account ==> #[trigger] final(self).session_of(b) == old(self).session_of(b),
            dropped@ == drained_request_ids(old(self).pending(), account),
            final(self).pending().len() + dropped@.len() == old(self).pending().len(),
            forall|id: u32|
                #[trigger] final(self).pending_of(id) == (if old(self).pending_of(id) == Some(
                    account,
                ) {
                    None::<u64>
                } else {
                    old(self).pending_of(id)
                }),
    {
        self.outgoing.close_connection(account)
    }

    /// Tear down `account`'s session only if it is still the one `token`
    /// identifies; as on the outgoing-only service.
    pub fn close_connection_if(&mut self, account: u64, token: u64) -> (r: Option<Vec<u32>>)
        requires
            old(self).wf(),
        ensures
            final(self).wf(),
            final(self).tokens_used() == old(self).tokens_used(),
            (r is Some) == (old(self).session_of(account) matches Some(s) && s.token == token),
            match r {
                Some(dropped) => {
                    &&& final(self).sessions() == assoc_remove_key(old(self).sessions(), account)
                    &&& final(self).session_of(account) is None
                    &&& forall|b: u64|
                        b != account ==> #[trigger] final(self).session_of(b) == old(self).session_of(b)
                    &&& dropped@ == drained_request_ids(old(self).pending(), account)
                    &&& final(self).pending().len() + dropped@.len() == old(self).pending().len()
                    &&& forall|id: u32|
                        #[trigger] final(self).pending_of(id) == (if old(self).pending_of(id)
                            == Some(account) {
                            None::<u64>
                        } else {
                            old(self).pending_of(id)
                        })
                },
                None => final(self).sessions() == old(self).sessions() && final(self).pending()
                    == old(self).pending(),
            },
    {
        self.outgoing.close_connection_if(account, token)
    }

    /// The outgoing path; as on the outgoing-only service.
    pub fn send_request(&mut self, to: u64, prepare: Vec<u8>) -> (r: SendOutcome)
        requires
            old(self).wf(),
        ensures
            final(self).wf(),
            final(self).tokens_used() == old(self).tokens_used(),
            match r {
                SendOutcome::NoSession { prepare: returned } => old(self).session_of(to) is None
                    && returned@ == prepare@ && final(self).sessions() == old(self).sessions()
                    && final(self).pending() == old(self).pending(),
                SendOutcome::Failed { reject } => reject@ == t00_reject_bytes() && (old(self).session_of(to) matches Some(s) && (!s.alive || old(self).pending().len() > 0))
                    && final(self).sessions() == old(self).sessions() && final(self).pending()
                    == old(self).pending(),
                SendOutcome::Queued { request_id } => {
                    &&& (old(self).session_of(to) matches Some(s) && s.alive)
                    &&& old(self).pending_of(request_id) is None
                    &&& final(self).pending() == old(self).pending().push((request_id, to))
                    &&& final(self).pending_of(request_id) == Some(to)
                    &&& forall|id: u32|
                        id != request_id ==> #[trigger] final(self).pending_of(id) == old(self).pending_of(id)
                    &&& (old(self).session_of(to) matches Some(s) && final(self).session_of(to)
                        matches Some(s2) && s2.alive && s2.token == s.token && s2.sent@.len()
                        == s.sent@.len() + 1 && s2.sent@.drop_last() == s.sent@
                        && is_frame_encoding(
                        s2.sent@.last(),
                        request_id,
                        PacketKind::Prepare,
                        prepare@,
                    ))
                    &&& forall|b: u64|
                        b != to ==> #[trigger] final(self).session_of(b) == old(self).session_of(b)
                },
            },
    {
        self.outgoing.send_request(to, prepare)
    }

    /// Dispatch one inbound frame from `from`'s connection: as on the
    /// outgoing-only service, except that a Prepare goes to the bound
    /// handler instead of the buffer.
    pub fn handle_message(&mut self, from: u64, frame: &BtpFrame) -> (r: InboundAction)
        requires
            old(self).wf(),
        ensures
            final(self).wf(),
            final(self).sessions() == old(self).sessions(),
            forall|b: u64| #[trigger] final(self).session_of(b) == old(self).session_of(b),
            final(self).tokens_used() == old(self).tokens_used(),
            ({
                let d = spec_decode(frame.kind, frame.request_id, frame.protocol_data@);
                match r {
                    InboundAction::Buffered { .. } => false,
                    InboundAction::Deliver { from: f, request_id, prepare } => f == from && (d
                        matches Ok(t) && t.0 == request_id && t.1 == PacketKind::Prepare
                        && prepare@ == t.2) && final(self).pending() == old(self).pending(),
                    InboundAction::Resolve { request_id, reply } => (d matches Ok(t) && t.0
                        == request_id && t.1 != PacketKind::Prepare && ((t.1 == PacketKind::Fulfill
                        && (reply matches Ok(f) && f@ == t.2)) || (t.1 == PacketKind::Reject
                        && (reply matches Err(rj) && rj@ == t.2)))) && old(self).pending_of(request_id)
                        is Some && final(self).pending() == assoc_remove_key(
                        old(self).pending(),
                        request_id,
                    ) && final(self).pending_of(request_id) is None && (forall|id: u32|
                        id != request_id ==> #[trigger] final(self).pending_of(id) == old(self).pending_of(id)),
                    InboundAction::Stale { request_id } => (d matches Ok(t) && t.0 == request_id
                        && t.1 != PacketKind::Prepare) && old(self).pending_of(request_id) is None
                        && final(self).pending() == old(self).pending(),
                    InboundAction::Ignored => d is Err && final(self).pending() == old(self).pending(),
                }
            }),
    {
        match parse_ilp_packet(frame) {
            Err(_) => InboundAction::Ignored,
            Ok((request_id, Packet::Prepare(data))) => InboundAction::Deliver {
                from,
                request_id,
                prepare: data,
            },
            Ok((request_id, Packet::Fulfill(data))) => {
                if self.outgoing.take_pending(request_id) {
                    InboundAction::Resolve { request_id, reply: Ok(data) }
                } else {
                    InboundAction::Stale { request_id }
                }
            },
            Ok((request_id, Packet::Reject(data))) => {
                if self.outgoing.take_pending(request_id) {
                    InboundAction::Resolve { request_id, reply: Err(data) }
                } else {
                    InboundAction::Stale { request_id }
                }
            },
        }
    }

    /// Send the handler's outcome for the inbound request `request_id` back
    /// on `account`'s session: a Fulfill for `Ok`, a Reject for `Err`,
    /// stamped with the request's own id. Dropped when the session is gone
    /// or its channel is closed.
    pub fn send_response(&mut self, account: u64, request_id: u32, result: Result<
        Vec<u8>,
        Vec<u8>,
    >) -> (delivered: bool)
        requires
            old(self).wf(),
        ensures
            final(self).wf(),
            delivered == (old(self).session_of(account) matches Some(s) && s.alive),
            delivered ==> (old(self).session_of(account) matches Some(s) && final(self).session_of(account) matches Some(s2) && s2.alive && s2.token == s.token && s2.sent@.len()
                == s.sent@.len() + 1 && s2.sent@.drop_last() == s.sent@ && is_frame_encoding(
                s2.sent@.last(),
                request_id,
                (if result is Ok {
                    PacketKind::Fulfill
                } else {
                    PacketKind::Reject
                }),
                (match result {
                    Ok(f) => f@,
                    Err(rj) => rj@,
                }),
            )),
            !delivered ==> final(self).sessions() == old(self).sessions(),
            forall|b: u64|
                b != account ==> #[trigger] final(self).session_of(b) == old(self).session_of(b),
            final(self).pending() == old(self).pending(),
    {
        let packet = match result {
            Ok(fulfill) => Packet::Fulfill(fulfill),
            Err(reject) => Packet::Reject(reject),
        };
        let frame = ilp_packet_to_frame(request_id, packet);
        self.outgoing.push_frame(account, frame)
    }

    /// Shut the whole service down; as on the outgoing-only service.
    pub fn shutdown(&mut self) -> (dropped: Vec<u32>)
        requires
            old(self).wf(),
        ensures
            final(self).wf(),
            final(self).sessions().len() == 0,
            final(self).pending().len() == 0,
            forall|a: u64| #[trigger] final(self).session_of(a) is None,
            forall|id: u32| #[trigger] final(self).pending_of(id) is None,
            final(self).tokens_used() == old(self).tokens_used(),
            dropped@ == all_request_ids(old(self).pending()),
    {
        self.outgoing.shutdown()
    }

    /// Whether `account` currently has a session.
    pub fn has_session(&self, account: u64) -> (r: bool)
        requires
            self.wf(),
        ensures
            r == (self.session_of(account) is Some),
    {
        self.outgoing.has_session(account)
    }

    /// The frames queued on `account`'s session so far, oldest first.
    pub fn sent_frames(&self, account: u64) -> (r: Option<&Vec<BtpFrame>>)
        requires
            self.wf(),
        ensures
            match r {
                Some(v) => self.session_of(account) matches Some(s) && v@ == s.sent@,
                None => self.session_of(account) is None,
            },
    {
        self.outgoing.sent_frames(account)
    }

    /// The token of `account`'s current session, if any.
    pub fn session_token(&self, account: u64) -> (r: Option<u64>)
        requires
            self.wf(),
        ensures
            match r {
                Some(t) => self.session_of(account) matches Some(s) && s.token == t,
                None => self.session_of(account) is None,
            },
    {
        self.outgoing.session_token(account)
    }

    /// Whether `request_id` is in flight.
    pub fn is_pending(&self, request_id: u32) -> (r: bool)
        ensures
            r == (self.pending_of(request_id) is Some),
    {
        self.outgoing.is_pending(request_id)
    }
}

/// The per-key views are the lookups into the state sequences, and a
/// well-formed service keys both tables uniquely. With this, facts about
/// `session_of` and `pending_of` carry across any call whose contract
/// states sequence equality, and the table lemmas below apply to
/// `pending()` of any well-formed service.
pub proof fn lemma_service_views(s: BtpOutgoingService)
    ensures
        forall|a: u64| #[trigger] s.session_of(a) == assoc_lookup(s.sessions(), a),
        forall|id: u32| #[trigger] s.pending_of(id) == assoc_lookup(s.pending(), id),
        s.wf() ==> assoc_unique(s.sessions()) && assoc_unique(s.pending()),
{
}

/// The same links for the bound service.
pub proof fn lemma_bound_service_views(s: BtpService)
    ensures
        forall|a: u64| #[trigger] s.session_of(a) == assoc_lookup(s.sessions(), a),
        forall|id: u32| #[trigger] s.pending_of(id) == assoc_lookup(s.pending(), id),
        s.wf() ==> assoc_unique(s.sessions()) && assoc_unique(s.pending()),
{
}

/// Correlation bijection: when a request is queued, the id stamped on the
/// wire frame is the key under which its pending slot waits, so the reply
/// that resolves the caller's slot names exactly the id that went out on
/// the wire.
pub proof fn lemma_correlation_bijection(
    s0: BtpOutgoingService,
    s1: BtpOutgoingService,
    to: u64,
    request_id: u32,
    payload: Seq<u8>,
)
    requires
        s0.wf(),
        s0.pending_of(request_id) is None,
        s1.pending() == s0.pending().push((request_id, to)),
        s1.session_of(to) matches Some(s) && s.sent@.len() > 0 && is_frame_encoding(
            s.sent@.last(),
            request_id,
            PacketKind::Prepare,
            payload,
        ),
    ensures
        s1.pending_of(request_id) == Some(to),
        s1.session_of(to) matches Some(s) && s.sent@.last().request_id == request_id,
{
    lemma_assoc_lookup_push(s0.pending(), request_id, to);
}

/// At-most-one reply: taking the slot for a request id removes it from the
/// table, so a second reply carrying the same id finds nothing to resolve
/// and is dropped as stale.
pub proof fn lemma_at_most_one_reply(pending: Seq<(u32, u64)>, request_id: u32)
    requires
        assoc_unique(pending),
    ensures
        assoc_lookup(assoc_remove_key(pending, request_id), request_id) is None,
{
    crate::assoc::lemma_assoc_remove_key(pending, request_id);
}

/// Pre-binding buffering is FIFO and exactly once: Prepares join the back
/// of the buffer, so two buffered in order come back from `handle_incoming`
/// — which hands over the buffer itself — in that same order.
pub proof fn lemma_prebinding_fifo(
    buffered: Seq<InboundPrepare>,
    first: InboundPrepare,
    second: InboundPrepare,
)
    ensures
        buffered.push(first).push(second).len() == buffered.len() + 2,
        buffered.push(first).push(second)[buffered.len() as int] == first,
        buffered.push(first).push(second)[buffered.len() as int + 1] == second,
{
}

/// Post-binding delivery: the wire response to an inbound Prepare carries
/// the Prepare's own request id, is a Response frame, and is a Fulfill
/// exactly when the handler fulfilled — on the session the Prepare arrived
/// from.
pub proof fn lemma_post_binding_delivery(
    s1: BtpService,
    s2: BtpService,
    from: u64,
    request_id: u32,
    result: Result<Vec<u8>, Vec<u8>>,
)
    requires
        s1.session_of(from) matches Some(s) && s2.session_of(from) matches Some(t)
            && t.sent@.len() == s.sent@.len() + 1 && is_frame_encoding(
            t.sent@.last(),
            request_id,
            (if result is Ok {
                PacketKind::Fulfill
            } else {
                PacketKind::Reject
            }),
            (match result {
                Ok(f) => f@,
                Err(rj) => rj@,
            }),
        ),
    ensures
        s2.session_of(from) matches Some(t) && t.sent@.last().request_id == request_id
            && t.sent@.last().kind == crate::frames::FrameKind::Response,
{
}

/// Session teardown resolves each in-flight request of the torn-down
/// account exactly once and leaves every other account's requests in
/// flight: the drained ids are precisely the ids pending to that account,
/// without repetition.
pub proof fn lemma_teardown_drains_exactly(pending: Seq<(u32, u64)>, account: u64)
    requires
        assoc_unique(pending),
    ensures
        forall|id: u32|
            #[trigger] drained_request_ids(pending, account).contains(id) <==> assoc_lookup(
                pending,
                id,
            ) == Some(account),
        forall|m: int, n: int|
            0 <= m < n < drained_request_ids(pending, account).len()
                ==> #[trigger] drained_request_ids(pending, account)[m]
                != #[trigger] drained_request_ids(pending, account)[n],
{
    lemma_pending_drain(pending, account);
}

} // verus!
