//! The shared key/value store.
//!
//! `Db` is the state behind the server: the entries with their optional
//! expirations, the expiration index ordered by time, and one broadcast
//! sender per pub/sub channel. Every operation is a plain state transition;
//! the caller supplies the current time in milliseconds and performs any
//! waking or waiting around the calls.

use vstd::prelude::*;
use vstd::string::StringExecFns;
use vstd::utf8::encode_utf8;
use tokio::sync::broadcast;
use crate::text::{str_eq, bytes_le, bytes_le_exec, lemma_bytes_le_total, lemma_bytes_le_trans};

verus! {

#[verifier::external_type_specification]
#[verifier::external_body]
#[verifier::reject_recursive_types(T)]
pub struct ExBroadcastSender<T>(broadcast::Sender<T>);

#[verifier::external_type_specification]
#[verifier::external_body]
#[verifier::reject_recursive_types(T)]
pub struct ExBroadcastReceiver<T>(broadcast::Receiver<T>);

#[verifier::external_type_specification]
#[verifier::external_body]
#[verifier::reject_recursive_types(T)]
pub struct ExBroadcastSendError<T>(broadcast::error::SendError<T>);

/// Relies on `tokio::sync::broadcast::channel`: creates a bounded channel;
/// it panics when the capacity is zero or above `usize::MAX / 2`.
#[verifier::external_body]
fn broadcast_channel(capacity: usize) -> (broadcast::Sender<Vec<u8>>, broadcast::Receiver<
    Vec<u8>,
>)
    requires
        1 <= capacity <= usize::MAX / 2,
{
    broadcast::channel(capacity)
}

/// Relies on `tokio::sync::broadcast::Sender::subscribe`: a new receiver
/// that sees the values sent after this call.
#[verifier::external_body]
fn broadcast_subscribe(tx: &broadcast::Sender<Vec<u8>>) -> broadcast::Receiver<Vec<u8>> {
    tx.subscribe()
}

/// Relies on `tokio::sync::broadcast::Sender::send`: queues the value for
/// every live receiver and returns how many there were, at least one; with
/// no live receiver it returns the value back as the error.
#[verifier::external_body]
fn broadcast_send(tx: &broadcast::Sender<Vec<u8>>, value: Vec<u8>) -> (r: Result<
    usize,
    broadcast::error::SendError<Vec<u8>>,
>)
    ensures
        r matches Ok(n) ==> n >= 1,
{
    tx.send(value)
}

/// How many receivers a broadcast send reached: the count it reported, or
/// zero where no receiver was live.
fn subscriber_count(sent: Result<usize, broadcast::error::SendError<Vec<u8>>>) -> (n: usize)
    ensures
        sent matches Ok(c) ==> n == c,
        sent is Err ==> n == 0,
{
    match sent {
        Ok(count) => count,
        Err(_) => 0,
    }
}

/// A stored value and the instant, in milliseconds, at which it lapses.
pub struct Entry {
    pub data: Vec<u8>,
    pub expires_at: Option<u64>,
}

/// The server state shared by every connection.
pub struct Db {
    entries: Vec<(String, Entry)>,
    pub_sub: Vec<(String, broadcast::Sender<Vec<u8>>)>,
    expirations: Vec<(u64, String)>,
    shutdown: bool,
}

/// What one entry stands for: its bytes and its expiration instant.
pub open spec fn entry_view(e: Entry) -> (Seq<u8>, Option<u64>) {
    (e.data@, e.expires_at)
}

/// The key/value mapping an association list stands for; a later pair with
/// the same key wins.
pub open spec fn kv_map_of(s: Seq<(String, Entry)>) -> Map<Seq<char>, (Seq<u8>, Option<u64>)>
    decreases s.len(),
{
    if s.len() == 0 {
        Map::empty()
    } else {
        kv_map_of(s.drop_last()).insert(s.last().0@, entry_view(s.last().1))
    }
}

/// The channel names an association list holds.
pub open spec fn chan_set_of<T>(s: Seq<(String, T)>) -> Set<Seq<char>>
    decreases s.len(),
{
    if s.len() == 0 {
        Set::empty()
    } else {
        chan_set_of(s.drop_last()).insert(s.last().0@)
    }
}

pub open spec fn kv_has_key(s: Seq<(String, Entry)>, k: Seq<char>) -> bool {
    exists|i: int| 0 <= i < s.len() && s[i].0@ == k
}

pub open spec fn kv_keys_distinct(s: Seq<(String, Entry)>) -> bool {
    forall|i: int, j: int| 0 <= i < j < s.len() ==> s[i].0@ != s[j].0@
}

pub open spec fn chan_has_key<T>(s: Seq<(String, T)>, k: Seq<char>) -> bool {
    exists|i: int| 0 <= i < s.len() && s[i].0@ == k
}

pub proof fn lemma_kv_map_contains(s: Seq<(String, Entry)>, k: Seq<char>)
    ensures
        kv_map_of(s).contains_key(k) <==> kv_has_key(s, k),
    decreases s.len(),
{
    if s.len() == 0 {
    } else {
        lemma_kv_map_contains(s.drop_last(), k);
        if kv_map_of(s).contains_key(k) {
            if s.last().0@ != k {
                let i = choose|i: int| 0 <= i < s.drop_last().len() && s.drop_last()[i].0@ == k;
                assert(s[i].0@ == k);
            } else {
                assert(s[s.len() - 1].0@ == k);
            }
        }
        if kv_has_key(s, k) {
            let i = choose|i: int| 0 <= i < s.len() && s[i].0@ == k;
            if i < s.len() - 1 {
                assert(s.drop_last()[i].0@ == k);
            }
        }
    }
}

pub proof fn lemma_kv_map_at_index(s: Seq<(String, Entry)>, i: int)
    requires
        kv_keys_distinct(s),
        0 <= i < s.len(),
    ensures
        kv_map_of(s).contains_key(s[i].0@),
        kv_map_of(s)[s[i].0@] == entry_view(s[i].1),
    decreases s.len(),
{
    if i == s.len() - 1 {
    } else {
        assert(kv_keys_distinct(s.drop_last()));
        assert(s.drop_last()[i] == s[i]);
        lemma_kv_map_at_index(s.drop_last(), i);
        assert(s[i].0@ != s.last().0@);
    }
}

pub proof fn lemma_chan_set_contains<T>(s: Seq<(String, T)>, k: Seq<char>)
    ensures
        chan_set_of(s).contains(k) <==> chan_has_key(s, k),
    decreases s.len(),
{
    if s.len() == 0 {
    } else {
        lemma_chan_set_contains(s.drop_last(), k);
        if chan_set_of(s).contains(k) {
            if s.last().0@ != k {
                let i = choose|i: int|
                    0 <= i < s.drop_last().len() && s.drop_last()[i].0@ == k;
                assert(s[i].0@ == k);
            } else {
                assert(s[s.len() - 1].0@ == k);
            }
        }
        if chan_has_key(s, k) {
            let i = choose|i: int| 0 <= i < s.len() && s[i].0@ == k;
            if i < s.len() - 1 {
                assert(s.drop_last()[i].0@ == k);
            }
        }
    }
}

/// The expiration pair names an entry that carries exactly that instant.
pub open spec fn exp_pair_covered(entries: Seq<(String, Entry)>, p: (u64, String)) -> bool {
    exists|j: int|
        0 <= j < entries.len() && (#[trigger] entries[j]).0@ == p.1@ && entries[j].1.expires_at
            == Some(p.0)
}

/// An entry with an expiration stands in the expiration index.
pub open spec fn entry_covered(exps: Seq<(u64, String)>, e: (String, Entry)) -> bool {
    e.1.expires_at matches Some(t) ==> exists|i: int|
        0 <= i < exps.len() && (#[trigger] exps[i]).1@ == e.0@ && exps[i].0 == t
}

/// The order of the expiration index: by instant, then by key, keys being
/// ordered lexicographically on their UTF-8 bytes.
pub open spec fn exp_pair_le(a: (u64, String), b: (u64, String)) -> bool {
    a.0 < b.0 || (a.0 == b.0 && bytes_le(encode_utf8(a.1@), encode_utf8(b.1@)))
}

proof fn lemma_exp_pair_le_trans(a: (u64, String), b: (u64, String), c: (u64, String))
    requires
        exp_pair_le(a, b),
        exp_pair_le(b, c),
    ensures
        exp_pair_le(a, c),
{
    if a.0 == b.0 && b.0 == c.0 {
        lemma_bytes_le_trans(encode_utf8(a.1@), encode_utf8(b.1@), encode_utf8(c.1@));
    }
}

/// The agreement between the three indexes of the store; see [`Db::wf`].
pub open spec fn db_inv(
    entries: Seq<(String, Entry)>,
    chans: Seq<(String, broadcast::Sender<Vec<u8>>)>,
    exps: Seq<(u64, String)>,
) -> bool {
    &&& kv_keys_distinct(entries)
    &&& forall|i: int, j: int| 0 <= i < j < chans.len() ==> chans[i].0@ != chans[j].0@
    &&& forall|i: int, j: int|
        0 <= i < j < exps.len() ==> exp_pair_le(#[trigger] exps[i], #[trigger] exps[j])
    &&& forall|i: int, j: int| 0 <= i < j < exps.len() ==> exps[i].1@ != exps[j].1@
    &&& forall|i: int| 0 <= i < exps.len() ==> exp_pair_covered(entries, #[trigger] exps[i])
    &&& forall|j: int| 0 <= j < entries.len() ==> entry_covered(exps, #[trigger] entries[j])
}

impl Db {
    /// The key/value mapping the store holds.
    pub closed spec fn entries_map(self) -> Map<Seq<char>, (Seq<u8>, Option<u64>)> {
        kv_map_of(self.entries@)
    }

    /// The pub/sub channels that have ever been subscribed to.
    pub closed spec fn channels(self) -> Set<Seq<char>> {
        chan_set_of(self.pub_sub@)
    }

    /// The expiration index: instants and keys, ordered by time.
    pub closed spec fn exp_seq(self) -> Seq<(u64, Seq<char>)> {
        Seq::new(self.expirations@.len(), |i: int| (self.expirations@[i].0, self.expirations@[i].1@))
    }

    /// Whether the reaper has been told to exit.
    pub closed spec fn shutdown_state(self) -> bool {
        self.shutdown
    }

    /// The earliest expiration instant on record.
    pub open spec fn spec_next_expiration(self) -> Option<u64> {
        if self.exp_seq().len() == 0 {
            None
        } else {
            Some(self.exp_seq()[0].0)
        }
    }

    /// The internal agreement the operations keep: entry keys are unique,
    /// the expiration index is sorted by time and carries each key at most
    /// once, and it lists exactly the entries that have an expiration.
    pub closed spec fn wf(self) -> bool {
        db_inv(self.entries@, self.pub_sub@, self.expirations@)
    }

    /// An empty store.
    pub fn new() -> (db: Db)
        ensures
            db.wf(),
            db.entries_map() == Map::<Seq<char>, (Seq<u8>, Option<u64>)>::empty(),
            db.channels() == Set::<Seq<char>>::empty(),
            db.exp_seq() == Seq::<(u64, Seq<char>)>::empty(),
            !db.shutdown_state(),
    {
        let db = Db {
            entries: Vec::new(),
            pub_sub: Vec::new(),
            expirations: Vec::new(),
            shutdown: false,
        };
        proof {
            assert(db.exp_seq() =~= Seq::<(u64, Seq<char>)>::empty());
        }
        db
    }

    /// The index of `key` among the entries, if it stands there.
    fn find_entry(&self, key: &str) -> (r: Option<usize>)
        ensures
            match r {
                Some(i) => i < self.entries@.len() && self.entries@[i as int].0@ == key@,
                None => !kv_has_key(self.entries@, key@),
            },
    {
        let n = self.entries.len();
        let mut i: usize = 0;
        while i < n
            invariant
                n == self.entries@.len(),
                0 <= i <= n,
                forall|j: int| 0 <= j < i ==> self.entries@[j].0@ != key@,
            decreases n - i,
        {
            if str_eq(self.entries[i].0.as_str(), key) {
                return Some(i);
            }
            i += 1;
        }
        None
    }

    /// The index of `key` among the channels, if it stands there.
    fn find_chan(&self, key: &str) -> (r: Option<usize>)
        ensures
            match r {
                Some(i) => i < self.pub_sub@.len() && self.pub_sub@[i as int].0@ == key@,
                None => !chan_has_key(self.pub_sub@, key@),
            },
    {
        let n = self.pub_sub.len();
        let mut i: usize = 0;
        while i < n
            invariant
                n == self.pub_sub@.len(),
                0 <= i <= n,
                forall|j: int| 0 <= j < i ==> self.pub_sub@[j].0@ != key@,
            decreases n - i,
        {
            if str_eq(self.pub_sub[i].0.as_str(), key) {
                return Some(i);
            }
            i += 1;
        }
        None
    }

    /// The bytes stored at `key`, if the key stands in the store.
    pub fn get(&self, key: &str) -> (r: Option<Vec<u8>>)
        requires
            self.wf(),
        ensures
            match r {
                Some(v) => self.entries_map().contains_key(key@) && v@ == self.entries_map()[key@].0,
                None => !self.entries_map().contains_key(key@),
            },
    {
        proof {
            lemma_kv_map_contains(self.entries@, key@);
        }
        match self.find_entry(key) {
            Some(i) => {
                proof {
                    lemma_kv_map_at_index(self.entries@, i as int);
                }
                Some(vstd::slice::slice_to_vec(self.entries[i].1.data.as_slice()))
            },
            None => None,
        }
    }

    /// Tells the reaper to exit; nothing else changes.
    pub fn shutdown_purge_task(&mut self)
        requires
            old(self).wf(),
        ensures
            final(self).wf(),
            final(self).shutdown_state(),
            final(self).entries_map() == old(self).entries_map(),
            final(self).channels() == old(self).channels(),
            final(self).exp_seq() == old(self).exp_seq(),
    {
        self.shutdown = true;
        proof {
            assert(final(self).exp_seq() =~= old(self).exp_seq());
            assert(self.entries@ == old(self).entries@);
            assert(self.pub_sub@ == old(self).pub_sub@);
            assert(self.expirations@ == old(self).expirations@);
        }
    }

    /// Whether the store has been shut down.
    pub fn is_shutdown(&self) -> (r: bool)
        ensures
            r == self.shutdown_state(),
    {
        self.shutdown
    }

    /// The earliest expiration instant on record.
    pub fn next_expiration(&self) -> (r: Option<u64>)
        ensures
            r == self.spec_next_expiration(),
    {
        if self.expirations.len() == 0 {
            None
        } else {
            Some(self.expirations[0].0)
        }
    }

    /// A receiver on the channel named `key`; the channel is created on its
    /// first subscriber. The stored entries do not change.
    pub fn subscribe(&mut self, key: String) -> (rx: broadcast::Receiver<Vec<u8>>)
        requires
            old(self).wf(),
        ensures
            final(self).wf(),
            final(self).channels() == old(self).channels().insert(key@),
            final(self).entries_map() == old(self).entries_map(),
            final(self).exp_seq() == old(self).exp_seq(),
            final(self).shutdown_state() == old(self).shutdown_state(),
    {
        match self.find_chan(key.as_str()) {
            Some(i) => {
                let rx = broadcast_subscribe(&self.pub_sub[i].1);
                proof {
                    lemma_chan_set_contains(self.pub_sub@, key@);
                    assert(final(self).channels() =~= old(self).channels().insert(key@));
                    assert(final(self).exp_seq() =~= old(self).exp_seq());
                    assert(self.entries@ == old(self).entries@);
                    assert(self.pub_sub@ == old(self).pub_sub@);
                    assert(self.expirations@ == old(self).expirations@);
                    assert(final(self).wf());
                }
                rx
            },
            None => {
                let (tx, rx) = broadcast_channel(1024);
                let ghost s0 = self.pub_sub@;
                self.pub_sub.push((key, tx));
                proof {
                    assert(self.pub_sub@.drop_last() =~= s0);
                    lemma_chan_set_contains(s0, self.pub_sub@.last().0@);
                    assert forall|i: int, j: int|
                        0 <= i < j < self.pub_sub@.len() implies self.pub_sub@[i].0@
                        != self.pub_sub@[j].0@ by {
                        if j < self.pub_sub@.len() - 1 {
                            assert(s0[i] == self.pub_sub@[i] && s0[j] == self.pub_sub@[j]);
                        } else {
                            assert(s0[i] == self.pub_sub@[i]);
                        }
                    }
                    assert(final(self).exp_seq() =~= old(self).exp_seq());
                    assert(self.entries@ == old(self).entries@);
                    assert(self.expirations@ == old(self).expirations@);
                    assert(final(self).wf());
                }
                rx
            },
        }
    }

    /// Sends `value` to the channel named `key` and reports how many
    /// receivers the send reached; without a channel or a receiver, zero.
    pub fn publish(&self, key: &str, value: Vec<u8>) -> (n: usize)
        requires
            self.wf(),
        ensures
            !self.channels().contains(key@) ==> n == 0,
    {
        proof {
            lemma_chan_set_contains(self.pub_sub@, key@);
        }
        match self.find_chan(key) {
            Some(i) => subscriber_count(broadcast_send(&self.pub_sub[i].1, value)),
            None => 0,
        }
    }
}

/// Removing the pair at `i` removes exactly its key from the mapping.
pub proof fn lemma_kv_map_remove(s: Seq<(String, Entry)>, i: int)
    requires
        kv_keys_distinct(s),
        0 <= i < s.len(),
    ensures
        kv_map_of(s.remove(i)) == kv_map_of(s).remove(s[i].0@),
    decreases s.len(),
{
    s.remove_ensures(i);
    if i == s.len() - 1 {
        assert(s.remove(i) =~= s.drop_last());
        lemma_kv_map_contains(s.drop_last(), s[i].0@);
        assert forall|x: int| 0 <= x < s.drop_last().len() implies s.drop_last()[x].0@
            != s[i].0@ by {}
        assert(!kv_map_of(s.drop_last()).contains_key(s[i].0@));
        assert(kv_map_of(s.drop_last()).insert(s[i].0@, entry_view(s[i].1)).remove(s[i].0@)
            =~= kv_map_of(s.drop_last()));
    } else {
        assert(kv_keys_distinct(s.drop_last()));
        assert(s.drop_last()[i] == s[i]);
        lemma_kv_map_remove(s.drop_last(), i);
        assert(s.remove(i).drop_last() =~= s.drop_last().remove(i));
        assert(s.remove(i).last() == s.last());
        assert(s[i].0@ != s.last().0@);
        assert(kv_map_of(s.drop_last()).remove(s[i].0@).insert(
            s.last().0@,
            entry_view(s.last().1),
        ) =~= kv_map_of(s.drop_last()).insert(s.last().0@, entry_view(s.last().1)).remove(
            s[i].0@,
        ));
    }
}

/// What survives the reaper at `now`: the entries whose expiration, if any,
/// still lies ahead.
pub open spec fn purge_view(m: Map<Seq<char>, (Seq<u8>, Option<u64>)>, now: u64) -> Map<
    Seq<char>,
    (Seq<u8>, Option<u64>),
> {
    Map::new(
        |k: Seq<char>|
            m.contains_key(k) && match m[k].1 {
                Some(t) => t > now,
                None => true,
            },
        |k: Seq<char>| m[k],
    )
}

/// The instant at which a value set at `now_ms` with time-to-live `expire`
/// lapses; a sum beyond `u64::MAX` saturates.
pub open spec fn expires_at_of(expire: Option<u64>, now_ms: u64) -> Option<u64> {
    match expire {
        Some(d) => if now_ms + d > u64::MAX {
            Some(u64::MAX as u64)
        } else {
            Some((now_ms + d) as u64)
        },
        None => None,
    }
}

impl Db {
    /// The index of the expiration pair that names `key`, if any.
    fn find_exp(&self, key: &str) -> (r: Option<usize>)
        ensures
            match r {
                Some(i) => i < self.expirations@.len() && self.expirations@[i as int].1@ == key@,
                None => forall|i: int|
                    0 <= i < self.expirations@.len() ==> self.expirations@[i].1@ != key@,
            },
    {
        let n = self.expirations.len();
        let mut i: usize = 0;
        while i < n
            invariant
                n == self.expirations@.len(),
                0 <= i <= n,
                forall|j: int| 0 <= j < i ==> self.expirations@[j].1@ != key@,
            decreases n - i,
        {
            if str_eq(self.expirations[i].1.as_str(), key) {
                return Some(i);
            }
            i += 1;
        }
        None
    }

    /// Removes `key` and its expiration pair, if the key stands in the
    /// store.
    #[verifier::rlimit(60)]
    fn remove_entry(&mut self, key: &str)
        requires
            old(self).wf(),
        ensures
            final(self).wf(),
            final(self).entries_map() == old(self).entries_map().remove(key@),
            final(self).channels() == old(self).channels(),
            final(self).shutdown_state() == old(self).shutdown_state(),
            final(self).entries@.len() <= old(self).entries@.len(),
            kv_has_key(old(self).entries@, key@) ==> final(self).entries@.len() < old(
                self,
            ).entries@.len(),
            !kv_has_key(final(self).entries@, key@),
            forall|i: int|
                0 <= i < final(self).expirations@.len() ==> final(self).expirations@[i].1@ != key@,
    {
        proof {
            lemma_kv_map_contains(self.entries@, key@);
        }
        let idx = match self.find_entry(key) {
            None => {
                proof {
                    assert(old(self).entries_map().remove(key@) =~= old(self).entries_map());
                    assert forall|i: int|
                        0 <= i < self.expirations@.len() implies self.expirations@[i].1@
                        != key@ by {
                        assert(exp_pair_covered(self.entries@, self.expirations@[i]));
                        let j = choose|j: int|
                            0 <= j < self.entries@.len() && (#[trigger] self.entries@[j]).0@
                                == self.expirations@[i].1@ && self.entries@[j].1.expires_at
                                == Some(self.expirations@[i].0);
                        assert(kv_has_key(self.entries@, self.entries@[j].0@));
                    }
                }
                return ;
            },
            Some(i) => i,
        };
        let had_exp = self.entries[idx].1.expires_at.is_some();
        let ghost e0 = self.entries@;
        let ghost x0 = self.expirations@;
        self.entries.remove(idx);
        proof {
            e0.remove_ensures(idx as int);
            lemma_kv_map_remove(e0, idx as int);
            assert(kv_keys_distinct(self.entries@)) by {
                assert forall|a: int, b: int|
                    0 <= a < b < self.entries@.len() implies self.entries@[a].0@
                    != self.entries@[b].0@ by {
                    assert(self.entries@[a] == (if a < idx {
                        e0[a]
                    } else {
                        e0[a + 1]
                    }));
                    assert(self.entries@[b] == (if b < idx {
                        e0[b]
                    } else {
                        e0[b + 1]
                    }));
                }
            }
            assert(!kv_has_key(self.entries@, key@)) by {
                if kv_has_key(self.entries@, key@) {
                    let j = choose|j: int|
                        0 <= j < self.entries@.len() && self.entries@[j].0@ == key@;
                    assert(self.entries@[j] == (if j < idx {
                        e0[j]
                    } else {
                        e0[j + 1]
                    }));
                }
            }
        }
        if had_exp {
            let jdx = match self.find_exp(key) {
                None => {
                    proof {
                        assert(entry_covered(x0, e0[idx as int]));
                        let i = choose|i: int|
                            0 <= i < x0.len() && (#[trigger] x0[i]).1@ == e0[idx as int].0@
                                && x0[i].0 == e0[idx as int].1.expires_at->0;
                        assert(self.expirations@[i].1@ == key@);
                        assert(false);
                    }
                    return ;
                },
                Some(j) => j,
            };
            let ghost t0 = self.expirations@[jdx as int].0;
            self.expirations.remove(jdx);
            proof {
                x0.remove_ensures(jdx as int);
                assert forall|a: int|
                    0 <= a < self.expirations@.len() implies (#[trigger] self.expirations@[a])
                    == (if a < jdx {
                    x0[a]
                } else {
                    x0[a + 1]
                }) by {}
                assert forall|a: int|
                    0 <= a < self.expirations@.len() implies self.expirations@[a].1@ != key@ by {
                    let a0 = if a < jdx {
                        a
                    } else {
                        a + 1
                    };
                    if x0[a0].1@ == key@ {
                        assert(exp_pair_covered(e0, x0[a0]));
                        let j = choose|j: int|
                            0 <= j < e0.len() && (#[trigger] e0[j]).0@ == x0[a0].1@ && e0[j
                            ].1.expires_at == Some(x0[a0].0);
                        assert(j == idx);
                        assert(x0[a0].0 == x0[jdx as int].0);
                        assert(a0 != jdx);
                        assert(x0[a0].1@ != x0[jdx as int].1@);
                    }
                }
                assert forall|a: int|
                    0 <= a < self.expirations@.len() implies exp_pair_covered(
                    self.entries@,
                    #[trigger] self.expirations@[a],
                ) by {
                    let a0 = if a < jdx {
                        a
                    } else {
                        a + 1
                    };
                    assert(exp_pair_covered(e0, x0[a0]));
                    let j = choose|j: int|
                        0 <= j < e0.len() && (#[trigger] e0[j]).0@ == x0[a0].1@ && e0[j
                        ].1.expires_at == Some(x0[a0].0);
                    assert(j != idx);
                    let jn = if j < idx {
                        j
                    } else {
                        j - 1
                    };
                    assert(self.entries@[jn] == e0[j]);
                }
                assert forall|a: int|
                    0 <= a < self.entries@.len() implies entry_covered(
                    self.expirations@,
                    #[trigger] self.entries@[a],
                ) by {
                    let a0 = if a < idx {
                        a
                    } else {
                        a + 1
                    };
                    assert(self.entries@[a] == e0[a0]);
                    assert(entry_covered(x0, e0[a0]));
                    match e0[a0].1.expires_at {
                        Some(t) => {
                            let i = choose|i: int|
                                0 <= i < x0.len() && (#[trigger] x0[i]).1@ == e0[a0].0@ && x0[
                                i].0 == t;
                            assert(i != jdx) by {
                                if i == jdx {
                                    assert(e0[a0].0@ == key@);
                                    assert(a0 != idx);
                                }
                            }
                            let inw = if i < jdx {
                                i
                            } else {
                                i - 1
                            };
                            assert(self.expirations@[inw] == x0[i]);
                        },
                        None => {},
                    }
                }
                assert(final(self).channels() == old(self).channels());
            }
        } else {
            proof {
                assert forall|a: int|
                    0 <= a < self.expirations@.len() implies self.expirations@[a].1@ != key@ by {
                    if self.expirations@[a].1@ == key@ {
                        assert(exp_pair_covered(e0, x0[a]));
                        let j = choose|j: int|
                            0 <= j < e0.len() && (#[trigger] e0[j]).0@ == x0[a].1@ && e0[j
                            ].1.expires_at == Some(x0[a].0);
                        assert(j == idx);
                    }
                }
                assert forall|a: int|
                    0 <= a < self.expirations@.len() implies exp_pair_covered(
                    self.entries@,
                    #[trigger] self.expirations@[a],
                ) by {
                    assert(exp_pair_covered(e0, x0[a]));
                    let j = choose|j: int|
                        0 <= j < e0.len() && (#[trigger] e0[j]).0@ == x0[a].1@ && e0[j
                        ].1.expires_at == Some(x0[a].0);
                    assert(j != idx);
                    let jn = if j < idx {
                        j
                    } else {
                        j - 1
                    };
                    assert(self.entries@[jn] == e0[j]);
                }
                assert forall|a: int|
                    0 <= a < self.entries@.len() implies entry_covered(
                    self.expirations@,
                    #[trigger] self.entries@[a],
                ) by {
                    let a0 = if a < idx {
                        a
                    } else {
                        a + 1
                    };
                    assert(self.entries@[a] == e0[a0]);
                    assert(entry_covered(x0, e0[a0]));
                }
            }
        }
    }

    /// Adds a key that is not in the store, with its expiration pair.
    fn insert_fresh(&mut self, key: String, value: Vec<u8>, when: Option<u64>)
        requires
            old(self).wf(),
            !kv_has_key(old(self).entries@, key@),
            forall|i: int|
                0 <= i < old(self).expirations@.len() ==> old(self).expirations@[i].1@ != key@,
        ensures
            final(self).wf(),
            final(self).entries_map() == old(self).entries_map().insert(key@, (value@, when)),
            final(self).channels() == old(self).channels(),
            final(self).shutdown_state() == old(self).shutdown_state(),
    {
        let key2 = key.clone();
        let ghost e0 = self.entries@;
        let ghost x0 = self.expirations@;
        self.entries.push((key, Entry { data: value, expires_at: when }));
        proof {
            assert(self.entries@.drop_last() =~= e0);
            assert(kv_keys_distinct(self.entries@)) by {
                assert forall|a: int, b: int|
                    0 <= a < b < self.entries@.len() implies self.entries@[a].0@
                    != self.entries@[b].0@ by {
                    if b < self.entries@.len() - 1 {
                        assert(self.entries@[a] == e0[a] && self.entries@[b] == e0[b]);
                    } else {
                        assert(self.entries@[a] == e0[a]);
                        assert(kv_has_key(e0, e0[a].0@));
                    }
                }
            }
        }
        let w = match when {
            Some(w) => w,
            None => {
                proof {
                    assert forall|a: int|
                        0 <= a < self.expirations@.len() implies exp_pair_covered(
                        self.entries@,
                        #[trigger] self.expirations@[a],
                    ) by {
                        assert(exp_pair_covered(e0, x0[a]));
                        let j = choose|j: int|
                            0 <= j < e0.len() && (#[trigger] e0[j]).0@ == x0[a].1@ && e0[j
                            ].1.expires_at == Some(x0[a].0);
                        assert(self.entries@[j] == e0[j]);
                    }
                    assert forall|a: int|
                        0 <= a < self.entries@.len() implies entry_covered(
                        self.expirations@,
                        #[trigger] self.entries@[a],
                    ) by {
                        if a < self.entries@.len() - 1 {
                            assert(self.entries@[a] == e0[a]);
                            assert(entry_covered(x0, e0[a]));
                        }
                    }
                }
                return ;
            },
        };
        let n = self.expirations.len();
        let mut pos: usize = 0;
        while pos < n && (self.expirations[pos].0 < w || (self.expirations[pos].0 == w
            && bytes_le_exec(self.expirations[pos].1.as_str().as_bytes(), key2.as_str().as_bytes())))
            invariant
                n == self.expirations@.len(),
                0 <= pos <= n,
                forall|j: int|
                    0 <= j < pos ==> exp_pair_le(#[trigger] self.expirations@[j], (w, key2)),
            decreases n - pos,
        {
            pos += 1;
        }
        let ghost xm = self.expirations@;
        self.expirations.insert(pos, (w, key2));
        proof {
            xm.insert_ensures(pos as int, (w, key2));
            assert(xm == x0);
            assert forall|a: int|
                0 <= a < self.expirations@.len() implies (#[trigger] self.expirations@[a]) == (
            if a < pos {
                x0[a]
            } else if a == pos {
                (w, key2)
            } else {
                x0[a - 1]
            }) by {}
            if pos < n {
                lemma_bytes_le_total(encode_utf8(x0[pos as int].1@), encode_utf8(key2@));
                assert(exp_pair_le((w, key2), x0[pos as int]));
            }
            assert forall|a: int, b: int|
                0 <= a < b < self.expirations@.len() implies exp_pair_le(
                #[trigger] self.expirations@[a],
                #[trigger] self.expirations@[b],
            ) by {
                if a != pos && b != pos {
                    let a0 = if a < pos {
                        a
                    } else {
                        a - 1
                    };
                    let b0 = if b < pos {
                        b
                    } else {
                        b - 1
                    };
                    assert(a0 < b0);
                    assert(exp_pair_le(x0[a0], x0[b0]));
                } else if a == pos {
                    let b0 = b - 1;
                    assert(pos <= b0 < n);
                    if b0 > pos {
                        assert(exp_pair_le(x0[pos as int], x0[b0]));
                        lemma_exp_pair_le_trans((w, key2), x0[pos as int], x0[b0]);
                    }
                } else {
                    assert(exp_pair_le(x0[a], (w, key2)));
                }
            }
            assert forall|a: int, b: int|
                0 <= a < b < self.expirations@.len() implies self.expirations@[a].1@
                != self.expirations@[b].1@ by {
                if a != pos && b != pos {
                    let a0 = if a < pos {
                        a
                    } else {
                        a - 1
                    };
                    let b0 = if b < pos {
                        b
                    } else {
                        b - 1
                    };
                    assert(x0[a0].1@ != x0[b0].1@ || a0 == b0);
                } else if a == pos {
                    let b0 = b - 1;
                    assert(x0[b0].1@ != key2@);
                } else {
                    let a0 = a;
                    assert(x0[a0].1@ != key2@);
                }
            }
            assert forall|a: int|
                0 <= a < self.expirations@.len() implies exp_pair_covered(
                self.entries@,
                #[trigger] self.expirations@[a],
            ) by {
                if a == pos {
                    assert(self.entries@[self.entries@.len() - 1].0@ == key2@);
                } else {
                    let a0 = if a < pos {
                        a
                    } else {
                        a - 1
                    };
                    assert(exp_pair_covered(e0, x0[a0]));
                    let j = choose|j: int|
                        0 <= j < e0.len() && (#[trigger] e0[j]).0@ == x0[a0].1@ && e0[j
                        ].1.expires_at == Some(x0[a0].0);
                    assert(self.entries@[j] == e0[j]);
                }
            }
            assert forall|a: int|
                0 <= a < self.entries@.len() implies entry_covered(
                self.expirations@,
                #[trigger] self.entries@[a],
            ) by {
                if a < self.entries@.len() - 1 {
                    assert(self.entries@[a] == e0[a]);
                    assert(entry_covered(x0, e0[a]));
                    match e0[a].1.expires_at {
                        Some(t) => {
                            let i = choose|i: int|
                                0 <= i < x0.len() && (#[trigger] x0[i]).1@ == e0[a].0@ && x0[
                                i].0 == t;
                            let inw = if i < pos {
                                i
                            } else {
                                i + 1
                            };
                            assert(self.expirations@[inw] == x0[i]);
                        },
                        None => {},
                    }
                } else {
                    assert(self.expirations@[pos as int] == (w, key2));
                }
            }
        }
    }

    /// Stores `value` at `key` with an optional time-to-live in
    /// milliseconds, overwriting any earlier value and its expiration.
    /// Returns whether the new expiration precedes everything on record,
    /// so that the caller knows to wake the reaper.
    pub fn set(&mut self, key: String, value: Vec<u8>, expire: Option<u64>, now_ms: u64) -> (notify:
        bool)
        requires
            old(self).wf(),
        ensures
            final(self).wf(),
            final(self).entries_map() == old(self).entries_map().insert(
                key@,
                (value@, expires_at_of(expire, now_ms)),
            ),
            final(self).channels() == old(self).channels(),
            final(self).shutdown_state() == old(self).shutdown_state(),
            notify == (match expires_at_of(expire, now_ms) {
                Some(w) => match old(self).spec_next_expiration() {
                    Some(m) => w < m,
                    None => true,
                },
                None => false,
            }),
    {
        let when: Option<u64> = match expire {
            Some(d) => if d > u64::MAX - now_ms {
                Some(u64::MAX)
            } else {
                Some(now_ms + d)
            },
            None => None,
        };
        let notify = match when {
            Some(w) => match self.next_expiration() {
                Some(m) => w < m,
                None => true,
            },
            None => false,
        };
        self.remove_entry(key.as_str());
        self.insert_fresh(key, value, when);
        proof {
            assert(old(self).entries_map().remove(key@).insert(key@, (value@, when))
                =~= old(self).entries_map().insert(key@, (value@, when)));
        }
        notify
    }

    /// Removes every entry that has lapsed by `now_ms` and reports the
    /// earliest remaining expiration, which lies ahead of `now_ms`; after a
    /// shutdown it does nothing.
    pub fn purge_expired_keys(&mut self, now_ms: u64) -> (r: Option<u64>)
        requires
            old(self).wf(),
        ensures
            old(self).shutdown_state() ==> r is None && *final(self) == *old(self),
            !old(self).shutdown_state() ==> final(self).wf() && final(self).entries_map()
                == purge_view(old(self).entries_map(), now_ms) && final(self).channels() == old(
                self,
            ).channels() && final(self).shutdown_state() == old(self).shutdown_state() && r
                == final(self).spec_next_expiration() && (r matches Some(w) ==> w > now_ms),
    {
        if self.is_shutdown() {
            return None;
        }
        while self.expirations.len() > 0 && self.expirations[0].0 <= now_ms
            invariant
                self.wf(),
                !self.shutdown_state(),
                self.channels() == old(self).channels(),
                self.shutdown_state() == old(self).shutdown_state(),
                purge_view(self.entries_map(), now_ms) == purge_view(
                    old(self).entries_map(),
                    now_ms,
                ),
            decreases self.entries@.len(),
        {
            let key = self.expirations[0].1.clone();
            let ghost m0 = self.entries_map();
            proof {
                assert(exp_pair_covered(self.entries@, self.expirations@[0]));
                let j = choose|j: int|
                    0 <= j < self.entries@.len() && (#[trigger] self.entries@[j]).0@ == key@
                        && self.entries@[j].1.expires_at == Some(self.expirations@[0].0);
                assert(kv_has_key(self.entries@, key@));
                lemma_kv_map_at_index(self.entries@, j);
            }
            self.remove_entry(key.as_str());
            proof {
                assert(purge_view(self.entries_map(), now_ms) =~= purge_view(m0, now_ms));
            }
        }
        proof {
            assert(self.entries_map() =~= purge_view(self.entries_map(), now_ms)) by {
                assert forall|k: Seq<char>|
                    self.entries_map().contains_key(k) implies match self.entries_map()[k].1 {
                    Some(t) => t > now_ms,
                    None => true,
                } by {
                    lemma_kv_map_contains(self.entries@, k);
                    let j = choose|j: int|
                        0 <= j < self.entries@.len() && self.entries@[j].0@ == k;
                    lemma_kv_map_at_index(self.entries@, j);
                    assert(entry_covered(self.expirations@, self.entries@[j]));
                    match self.entries@[j].1.expires_at {
                        Some(t) => {
                            let i = choose|i: int|
                                0 <= i < self.expirations@.len()
                                    && (#[trigger] self.expirations@[i]).1@
                                    == self.entries@[j].0@ && self.expirations@[i].0 == t;
                            if i != 0 {
                                assert(exp_pair_le(self.expirations@[0], self.expirations@[i]));
                            }
                            assert(self.expirations@[0].0 <= self.expirations@[i].0 || i == 0);
                        },
                        None => {},
                    }
                }
            }
        }
        self.next_expiration()
    }
}

/// A store followed by a lookup of the same key returns the bytes just
/// stored: in any state that [`Db::set`] left behind, the key stands in the
/// mapping and holds the stored value, which is what [`Db::get`] returns.
pub proof fn lemma_set_then_get(
    before: Db,
    after: Db,
    key: Seq<char>,
    value: Seq<u8>,
    when: Option<u64>,
)
    requires
        after.entries_map() == before.entries_map().insert(key, (value, when)),
    ensures
        after.entries_map().contains_key(key),
        after.entries_map()[key].0 == value,
{
}

/// A value with a time-to-live stands before its expiration and falls with
/// it: in any state that [`Db::purge_expired_keys`] left behind at `now`, a
/// key whose expiration lay ahead keeps its bytes, and a key whose
/// expiration had arrived is gone.
pub proof fn lemma_expiration(before: Db, after: Db, now: u64, key: Seq<char>, t: u64)
    requires
        after.entries_map() == purge_view(before.entries_map(), now),
        before.entries_map().contains_key(key),
        before.entries_map()[key].1 == Some(t),
    ensures
        t > now ==> after.entries_map().contains_key(key) && after.entries_map()[key]
            == before.entries_map()[key],
        t <= now ==> !after.entries_map().contains_key(key),
{
}

} // verus!
