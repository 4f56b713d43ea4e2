//! Tables that are looked up by digest.

use vstd::prelude::*;

use crate::protocol::digest_eq;
use crate::protocol::Digest;

verus! {

/// A table from digests to values.
#[derive(Debug)]
pub struct DigestMap<V> {
    entries: Vec<(Digest, V)>,
}

spec fn distinct_keys<V>(entries: Seq<(Digest, V)>) -> bool {
    forall|i: int, j: int|
        0 <= i < j < entries.len() ==> (#[trigger] entries[i]).0 != (#[trigger] entries[j]).0
}

spec fn holds_key<V>(entries: Seq<(Digest, V)>, key: Digest, index: int) -> bool {
    0 <= index < entries.len() && entries[index].0 == key
}

spec fn table<V>(entries: Seq<(Digest, V)>) -> Map<Digest, V> {
    Map::new(
        |key: Digest| exists|i: int| holds_key(entries, key, i),
        |key: Digest| entries[choose|i: int| holds_key(entries, key, i)].1,
    )
}

proof fn lemma_table_entry<V>(entries: Seq<(Digest, V)>, index: int)
    requires
        distinct_keys(entries),
        0 <= index < entries.len(),
    ensures
        table(entries).contains_key(entries[index].0),
        table(entries)[entries[index].0] == entries[index].1,
{
    let key = entries[index].0;
    assert(holds_key(entries, key, index));
    let chosen = choose|i: int| holds_key(entries, key, i);
    assert(holds_key(entries, key, chosen));
}

proof fn lemma_table_push<V>(entries: Seq<(Digest, V)>, key: Digest, value: V)
    requires
        distinct_keys(entries),
        !table(entries).contains_key(key),
    ensures
        distinct_keys(entries.push((key, value))),
        table(entries.push((key, value))) == table(entries).insert(key, value),
{
    let longer = entries.push((key, value));
    assert forall|i: int| 0 <= i < entries.len() implies (#[trigger] entries[i]).0 != key by {
        lemma_table_entry(entries, i);
    }
    lemma_table_entry(longer, entries.len() as int);
    assert forall|k: Digest|
        #[trigger] table(longer).contains_key(k) <==> table(entries).insert(
            key,
            value,
        ).contains_key(k) by {
        if table(longer).contains_key(k) {
            let i = choose|i: int| holds_key(longer, k, i);
            if i < entries.len() {
                assert(holds_key(entries, k, i));
            }
        }
        if table(entries).contains_key(k) {
            let i = choose|i: int| holds_key(entries, k, i);
            assert(holds_key(longer, k, i));
        }
    }
    assert forall|k: Digest| #[trigger]
        table(longer).contains_key(k) implies table(longer)[k] == table(entries).insert(key, value)[k] by {
        let i = choose|i: int| holds_key(longer, k, i);
        lemma_table_entry(longer, i);
        if i < entries.len() {
            lemma_table_entry(entries, i);
        }
    }
    assert(table(longer) =~= table(entries).insert(key, value));
}

proof fn lemma_table_update<V>(entries: Seq<(Digest, V)>, index: int, value: V)
    requires
        distinct_keys(entries),
        0 <= index < entries.len(),
    ensures
        distinct_keys(entries.update(index, (entries[index].0, value))),
        table(entries.update(index, (entries[index].0, value))) == table(entries).insert(
            entries[index].0,
            value,
        ),
{
    let key = entries[index].0;
    let changed = entries.update(index, (key, value));
    lemma_table_entry(changed, index);
    lemma_table_entry(entries, index);
    assert forall|k: Digest| #[trigger]
        table(changed).contains_key(k) <==> table(entries).contains_key(k) by {
        if table(changed).contains_key(k) {
            let i = choose|i: int| holds_key(changed, k, i);
            assert(holds_key(entries, k, i));
        }
        if table(entries).contains_key(k) {
            let i = choose|i: int| holds_key(entries, k, i);
            assert(holds_key(changed, k, i));
        }
    }
    assert forall|k: Digest| #[trigger]
        table(changed).contains_key(k) implies table(changed)[k] == table(entries).insert(key, value)[k] by {
        let i = choose|i: int| holds_key(changed, k, i);
        lemma_table_entry(changed, i);
        lemma_table_entry(entries, i);
    }
    assert(table(changed) =~= table(entries).insert(key, value));
}

proof fn lemma_table_remove<V>(entries: Seq<(Digest, V)>, index: int)
    requires
        distinct_keys(entries),
        0 <= index < entries.len(),
    ensures
        distinct_keys(entries.remove(index)),
        table(entries.remove(index)) == table(entries).remove(entries[index].0),
{
    let key = entries[index].0;
    let shorter = entries.remove(index);
    assert forall|i: int| 0 <= i < shorter.len() implies #[trigger] shorter[i] == (if i < index {
        entries[i]
    } else {
        entries[i + 1]
    }) by {}
    assert(distinct_keys(shorter));
    assert forall|k: Digest| #[trigger]
        table(shorter).contains_key(k) <==> table(entries).remove(key).contains_key(k) by {
        if table(shorter).contains_key(k) {
            let i = choose|i: int| holds_key(shorter, k, i);
            let j = if i < index { i } else { i + 1 };
            assert(holds_key(entries, k, j));
        }
        if table(entries).contains_key(k) && k != key {
            let j = choose|j: int| holds_key(entries, k, j);
            let i = if j < index { j } else { j - 1 };
            assert(holds_key(shorter, k, i));
        }
    }
    assert forall|k: Digest| #[trigger] table(shorter).contains_key(k) implies table(shorter)[k]
        == table(entries)[k] by {
        let i = choose|i: int| holds_key(shorter, k, i);
        lemma_table_entry(shorter, i);
        lemma_table_entry(entries, if i < index { i } else { i + 1 });
    }
    assert(table(shorter) =~= table(entries).remove(key));
}

impl<V> View for DigestMap<V> {
    type V = Map<Digest, V>;

    closed spec fn view(&self) -> Map<Digest, V> {
        table(self.entries@)
    }
}

impl<V> DigestMap<V> {
    /// No digest has two entries.
    pub closed spec fn wf(&self) -> bool {
        distinct_keys(self.entries@)
    }

    /// An empty table.
    pub fn new() -> (map: Self)
        ensures
            map.wf(),
            map@ == Map::<Digest, V>::empty(),
    {
        let map = DigestMap { entries: Vec::new() };
        assert(map@ =~= Map::<Digest, V>::empty());
        map
    }

    fn position(&self, key: &Digest) -> (index: Option<usize>)
        requires
            self.wf(),
        ensures
            match index {
                Some(index) => holds_key(self.entries@, *key, index as int),
                None => !self@.contains_key(*key),
            },
    {
        for index in 0..self.entries.len()
            invariant
                forall|i: int| 0 <= i < index ==> !holds_key(self.entries@, *key, i),
        {
            if digest_eq(&self.entries[index].0, key) {
                return Some(index);
            }
        }
        None
    }

    /// The value under `key`.
    pub fn get(&self, key: &Digest) -> (value: Option<&V>)
        requires
            self.wf(),
        ensures
            match value {
                Some(value) => self@.contains_key(*key) && *value == self@[*key],
                None => !self@.contains_key(*key),
            },
    {
        match self.position(key) {
            Some(index) => {
                proof {
                    lemma_table_entry(self.entries@, index as int);
                }
                Some(&self.entries[index].1)
            },
            None => None,
        }
    }

    /// Whether there is a value under `key`.
    pub fn contains_key(&self, key: &Digest) -> (contained: bool)
        requires
            self.wf(),
        ensures
            contained == self@.contains_key(*key),
    {
        self.get(key).is_some()
    }

    /// Puts `value` under `key`, in place of what was there.
    pub fn insert(&mut self, key: Digest, value: V)
        requires
            old(self).wf(),
        ensures
            final(self).wf(),
            final(self)@ == old(self)@.insert(key, value),
    {
        match self.position(&key) {
            Some(index) => {
                proof {
                    lemma_table_update(self.entries@, index as int, value);
                }
                self.entries[index] = (key, value);
            },
            None => {
                proof {
                    lemma_table_push(self.entries@, key, value);
                }
                self.entries.push((key, value));
            },
        }
    }

    /// Takes the value under `key` out of the table.
    pub fn remove(&mut self, key: &Digest) -> (value: Option<V>)
        requires
            old(self).wf(),
        ensures
            final(self).wf(),
            final(self)@ == old(self)@.remove(*key),
            match value {
                Some(value) => old(self)@.contains_key(*key) && value == old(self)@[*key],
                None => !old(self)@.contains_key(*key),
            },
    {
        match self.position(key) {
            Some(index) => {
                proof {
                    lemma_table_entry(self.entries@, index as int);
                    lemma_table_remove(self.entries@, index as int);
                }
                Some(self.entries.remove(index).1)
            },
            None => {
                assert(self@.remove(*key) =~= self@);
                None
            },
        }
    }
}

/// Whether no two services share a session key.
pub open spec fn distinct_sessions<V>(channels: Map<Digest, (Digest, V)>) -> bool {
    forall|a: Digest, b: Digest|
        channels.contains_key(a) && channels.contains_key(b) && (#[trigger] channels[a]).0 == (
        #[trigger] channels[b]).0 ==> a == b
}

/// Whether `service` has a channel with the given session key.
pub open spec fn has_session<V>(
    channels: Map<Digest, (Digest, V)>,
    service: Digest,
    session_key: Digest,
) -> bool {
    channels.contains_key(service) && channels[service].0 == session_key
}

/// The control channels of the relay. Each belongs to a service and to a
/// session, and is found by the digest of the one or by the key of the other.
#[derive(Debug)]
pub struct ControlChannelMap<V> {
    channels: DigestMap<(Digest, V)>,
}

impl<V> View for ControlChannelMap<V> {
    type V = Map<Digest, (Digest, V)>;

    /// Session key and channel of each service that has one.
    closed spec fn view(&self) -> Map<Digest, (Digest, V)> {
        self.channels@
    }
}

impl<V> ControlChannelMap<V> {
    /// No service has two channels and no two services share a session key.
    pub closed spec fn wf(&self) -> bool {
        self.channels.wf() && distinct_sessions(self@)
    }

    /// No channels.
    pub fn new() -> (map: Self)
        ensures
            map.wf(),
            map@ == Map::<Digest, (Digest, V)>::empty(),
    {
        ControlChannelMap { channels: DigestMap::new() }
    }

    /// The channel of the service with the given digest.
    pub fn get1(&self, service: &Digest) -> (channel: Option<&V>)
        requires
            self.wf(),
        ensures
            match channel {
                Some(channel) => self@.contains_key(*service) && *channel == self@[*service].1,
                None => !self@.contains_key(*service),
            },
    {
        match self.channels.get(service) {
            Some(entry) => Some(&entry.1),
            None => None,
        }
    }

    /// The channel of the session with the given key.
    pub fn get2(&self, session_key: &Digest) -> (channel: Option<&V>)
        requires
            self.wf(),
        ensures
            match channel {
                Some(channel) => exists|service: Digest| #[trigger]
                    has_session(self@, service, *session_key) && *channel == self@[service].1,
                None => forall|service: Digest| !#[trigger] has_session(self@, service, *session_key),
            },
            forall|service: Digest|
                self@.contains_key(service) && (#[trigger] self@[service]).0 == *session_key
                    ==> channel == Some(&self@[service].1),
            channel is Some ==> exists|service: Digest|
                self@.contains_key(service) && (#[trigger] self@[service]).0 == *session_key,
    {
        let entries = &self.channels.entries;
        for index in 0..entries.len()
            invariant
                self.wf(),
                entries@ == self.channels.entries@,
                forall|i: int| 0 <= i < index ==> (#[trigger] entries[i]).1.0 != *session_key,
        {
            if digest_eq(&entries[index].1.0, session_key) {
                proof {
                    lemma_table_entry(entries@, index as int);
                    assert(has_session(self@, entries[index as int].0, *session_key));
                }
                return Some(&entries[index].1.1);
            }
        }
        proof {
            assert forall|service: Digest| !#[trigger] has_session(self@, service, *session_key) by {
                if self@.contains_key(service) {
                    let i = choose|i: int| holds_key(entries@, service, i);
                    lemma_table_entry(entries@, i);
                }
            }
        }
        None
    }

    /// Takes the channel of a service out of the map.
    pub fn remove1(&mut self, service: &Digest) -> (channel: Option<V>)
        requires
            old(self).wf(),
        ensures
            final(self).wf(),
            final(self)@ == old(self)@.remove(*service),
            match channel {
                Some(channel) => old(self)@.contains_key(*service)
                    && channel == old(self)@[*service].1,
                None => !old(self)@.contains_key(*service),
            },
    {
        match self.channels.remove(service) {
            Some(entry) => Some(entry.1),
            None => None,
        }
    }

    /// Adds a channel. It is handed back, with its keys, when the service has a
    /// channel already or the session key is in use.
    pub fn insert(&mut self, service: Digest, session_key: Digest, channel: V) -> (added: Result<
        (),
        (Digest, Digest, V),
    >)
        requires
            old(self).wf(),
        ensures
            final(self).wf(),
            added is Ok <==> !old(self)@.contains_key(service) && forall|other: Digest|
                !#[trigger] has_session(old(self)@, other, session_key),
            added is Ok <==> !old(self)@.contains_key(service) && forall|other: Digest|
                old(self)@.contains_key(other) ==> (#[trigger] old(self)@[other]).0 != session_key,
            added is Ok ==> final(self)@ == old(self)@.insert(service, (session_key, channel)),
            added matches Err(refused) ==> refused == (service, session_key, channel)
                && final(self)@ == old(self)@,
    {
        if self.channels.contains_key(&service) || self.get2(&session_key).is_some() {
            return Err((service, session_key, channel));
        }
        self.channels.insert(service, (session_key, channel));
        proof {
            assert forall|a: Digest, b: Digest|
                self@.contains_key(a) && self@.contains_key(b) && (#[trigger] self@[a]).0 == (
                #[trigger] self@[b]).0 implies a == b by {
                if a == service && b != service {
                    assert(!has_session(old(self)@, b, session_key));
                }
                if b == service && a != service {
                    assert(!has_session(old(self)@, a, session_key));
                }
            }
        }
        Ok(())
    }
}

/// In a well-formed map a session key leads to one service at most.
pub proof fn session_keys_are_distinct<V>(map: ControlChannelMap<V>)
    requires
        map.wf(),
    ensures
        distinct_sessions(map@),
        forall|a: Digest, b: Digest|
            map@.contains_key(a) && map@.contains_key(b) && a != b ==> (#[trigger] map@[a]).0 != (
            #[trigger] map@[b]).0,
{
}

} // verus!
