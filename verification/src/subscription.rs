//! The set of channels one connection is subscribed to.
//!
//! The subscribed sub-state of a connection tracks its channels in order of
//! subscription, each at most once. The acknowledgement counts the protocol
//! sends back are the length of this set after each change.

use vstd::prelude::*;
use crate::text::str_eq;

verus! {

/// The channels a connection is subscribed to, in subscription order, each
/// at most once.
pub struct Subscriptions {
    channels: Vec<String>,
}

/// The position of the first occurrence of `c` in `s`.
pub open spec fn first_index(s: Seq<Seq<char>>, c: Seq<char>) -> int
    decreases s.len(),
{
    if s.len() == 0 {
        0
    } else if s[0] == c {
        0
    } else {
        1 + first_index(s.drop_first(), c)
    }
}

pub proof fn lemma_first_index(s: Seq<Seq<char>>, c: Seq<char>)
    requires
        s.contains(c),
    ensures
        0 <= first_index(s, c) < s.len(),
        s[first_index(s, c)] == c,
        forall|j: int| 0 <= j < first_index(s, c) ==> s[j] != c,
    decreases s.len(),
{
    if s.len() > 0 && s[0] != c {
        let i = choose|i: int| 0 <= i < s.len() && s[i] == c;
        assert(s.drop_first()[i - 1] == c);
        assert(s.drop_first().contains(c));
        lemma_first_index(s.drop_first(), c);
        assert forall|j: int| 0 <= j < first_index(s, c) implies s[j] != c by {
            if j > 0 {
                assert(s.drop_first()[j - 1] != c);
                assert(s[j] == s.drop_first()[j - 1]);
            }
        }
    }
}

/// Removing the first occurrence of `c`, where one stands in `s`.
pub open spec fn remove_channel(s: Seq<Seq<char>>, c: Seq<char>) -> Seq<Seq<char>> {
    if s.contains(c) {
        s.remove(first_index(s, c))
    } else {
        s
    }
}

/// Removing the channels of `list`, one after another.
pub open spec fn remove_channels(s: Seq<Seq<char>>, list: Seq<Seq<char>>) -> Seq<Seq<char>>
    decreases list.len(),
{
    if list.len() == 0 {
        s
    } else {
        remove_channels(remove_channel(s, list[0]), list.drop_first())
    }
}

/// Unsubscribing from every subscribed channel leaves the subscription set
/// empty: removing, in order, each channel of a duplicate-free set from that
/// very set removes them all.
pub proof fn lemma_unsubscribe_all(s: Seq<Seq<char>>)
    requires
        forall|i: int, j: int| 0 <= i < j < s.len() ==> s[i] != s[j],
    ensures
        remove_channels(s, s) == Seq::<Seq<char>>::empty(),
    decreases s.len(),
{
    if s.len() == 0 {
        assert(remove_channels(s, s) == s);
        assert(s =~= Seq::<Seq<char>>::empty());
    } else {
        assert(s.contains(s[0]));
        lemma_first_index(s, s[0]);
        assert(first_index(s, s[0]) == 0);
        assert(s.remove(0) =~= s.drop_first());
        let t = s.drop_first();
        assert(forall|i: int, j: int| 0 <= i < j < t.len() ==> t[i] != t[j]);
        lemma_unsubscribe_all(t);
        assert(remove_channels(s, s) == remove_channels(remove_channel(s, s[0]), t));
        assert(remove_channel(s, s[0]) == t);
    }
}

impl View for Subscriptions {
    type V = Seq<Seq<char>>;

    closed spec fn view(&self) -> Seq<Seq<char>> {
        Seq::new(self.channels@.len(), |i: int| self.channels@[i]@)
    }
}

impl Subscriptions {
    /// Each channel stands in the set at most once.
    pub open spec fn wf(self) -> bool {
        forall|i: int, j: int| 0 <= i < j < self@.len() ==> self@[i] != self@[j]
    }

    /// An empty subscription set.
    pub fn new() -> (s: Subscriptions)
        ensures
            s@ == Seq::<Seq<char>>::empty(),
            s.wf(),
    {
        let s = Subscriptions { channels: Vec::new() };
        proof {
            assert(s@ =~= Seq::<Seq<char>>::empty());
        }
        s
    }

    /// How many channels the connection is subscribed to.
    pub fn len(&self) -> (n: usize)
        ensures
            n == self@.len(),
    {
        self.channels.len()
    }

    /// Whether `channel` stands in the set.
    pub fn contains(&self, channel: &str) -> (r: bool)
        ensures
            r == self@.contains(channel@),
    {
        let n = self.channels.len();
        let mut i: usize = 0;
        while i < n
            invariant
                n == self.channels@.len(),
                0 <= i <= n,
                forall|j: int| 0 <= j < i ==> self@[j] != channel@,
            decreases n - i,
        {
            if str_eq(self.channels[i].as_str(), channel) {
                proof {
                    assert(self@[i as int] == channel@);
                }
                return true;
            }
            i += 1;
        }
        proof {
            if self@.contains(channel@) {
                let j = choose|j: int| 0 <= j < self@.len() && self@[j] == channel@;
                assert(self@[j] != channel@);
            }
        }
        false
    }

    /// Subscribes to `channel`; a channel already subscribed to is not
    /// doubled. Returns the number of subscribed channels afterwards.
    pub fn insert(&mut self, channel: String) -> (n: usize)
        requires
            old(self).wf(),
        ensures
            final(self).wf(),
            old(self)@.contains(channel@) ==> final(self)@ == old(self)@,
            !old(self)@.contains(channel@) ==> final(self)@ == old(self)@.push(channel@),
            n == final(self)@.len(),
    {
        if self.contains(channel.as_str()) {
            self.channels.len()
        } else {
            let ghost v0 = self@;
            self.channels.push(channel);
            proof {
                assert(self@ =~= v0.push(channel@));
                assert forall|i: int, j: int| 0 <= i < j < self@.len() implies self@[i]
                    != self@[j] by {
                    if j < self@.len() - 1 {
                        assert(self@[i] == v0[i] && self@[j] == v0[j]);
                    } else {
                        assert(self@[i] == v0[i]);
                        assert(v0.contains(v0[i]));
                    }
                }
            }
            self.channels.len()
        }
    }

    /// Unsubscribes from `channel`, if subscribed. Returns the number of
    /// subscribed channels afterwards.
    pub fn remove(&mut self, channel: &str) -> (n: usize)
        requires
            old(self).wf(),
        ensures
            final(self).wf(),
            final(self)@ == remove_channel(old(self)@, channel@),
            n == final(self)@.len(),
    {
        let ghost v0 = self@;
        let len = self.channels.len();
        let mut i: usize = 0;
        while i < len
            invariant
                len == self.channels@.len(),
                0 <= i <= len,
                self@ == v0,
                v0 == old(self)@,
                old(self).wf(),
                forall|j: int| 0 <= j < i ==> self@[j] != channel@,
            decreases len - i,
        {
            if str_eq(self.channels[i].as_str(), channel) {
                proof {
                    assert(v0[i as int] == channel@);
                    assert(v0.contains(channel@));
                    lemma_first_index(v0, channel@);
                    assert(first_index(v0, channel@) == i);
                }
                let ghost c0 = self.channels@;
                self.channels.remove(i);
                proof {
                    c0.remove_ensures(i as int);
                    v0.remove_ensures(i as int);
                    assert forall|a: int| 0 <= a < self@.len() implies self@[a] == v0.remove(
                        i as int,
                    )[a] by {
                        assert(self.channels@[a] == (if a < i {
                            c0[a]
                        } else {
                            c0[a + 1]
                        }));
                        assert(v0.remove(i as int)[a] == (if a < i {
                            v0[a]
                        } else {
                            v0[a + 1]
                        }));
                    }
                    assert(self@ =~= v0.remove(i as int));
                    assert forall|a: int, b: int| 0 <= a < b < self@.len() implies self@[a]
                        != self@[b] by {
                        let a0 = if a < i {
                            a
                        } else {
                            a + 1
                        };
                        let b0 = if b < i {
                            b
                        } else {
                            b + 1
                        };
                        assert(self@[a] == v0.remove(i as int)[a]);
                        assert(self@[b] == v0.remove(i as int)[b]);
                        assert(self@[a] == v0[a0]);
                        assert(self@[b] == v0[b0]);
                    }
                }
                return self.channels.len();
            }
            i += 1;
        }
        proof {
            if v0.contains(channel@) {
                let j = choose|j: int| 0 <= j < v0.len() && v0[j] == channel@;
                assert(v0[j] != channel@);
            }
        }
        self.channels.len()
    }

    /// The subscribed channel names, in order.
    pub fn channel_names(&self) -> (r: Vec<String>)
        ensures
            r@.len() == self@.len(),
            forall|i: int| 0 <= i < r@.len() ==> (#[trigger] r@[i])@ == self@[i],
    {
        let n = self.channels.len();
        let mut out: Vec<String> = Vec::new();
        let mut i: usize = 0;
        while i < n
            invariant
                n == self.channels@.len(),
                0 <= i <= n,
                out@.len() == i,
                forall|j: int| 0 <= j < i ==> (#[trigger] out@[j])@ == self@[j],
            decreases n - i,
        {
            out.push(self.channels[i].clone());
            i += 1;
        }
        out
    }
}

} // verus!
