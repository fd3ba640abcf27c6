//! Settings as texts under keys, and the peers of the allow-list.
use crate::order::viewed;
use crate::text::{opt_view, same, views};
use crate::text_set::{ascending, ascending_is_unique, insert_text};
use vstd::prelude::*;

verus! {

/// A setting: a text under a key.
#[derive(Debug)]
pub struct Setting {
    pub key: String,
    pub value: String,
}

/// A setting: a text under a key.
pub struct SettingView {
    pub key: Seq<char>,
    pub value: Seq<char>,
}

impl View for Setting {
    type V = SettingView;

    open spec fn view(&self) -> SettingView {
        SettingView { key: self.key@, value: self.value@ }
    }
}

/// The index of the setting with a key, or the number of settings.
pub open spec fn key_index(entries: Seq<SettingView>, key: Seq<char>) -> int
    decreases entries.len(),
{
    if entries.len() == 0 || entries[0].key == key {
        0
    } else {
        1 + key_index(entries.skip(1), key)
    }
}

/// Whether there is a setting with a key.
pub open spec fn has_key(entries: Seq<SettingView>, key: Seq<char>) -> bool {
    key_index(entries, key) < entries.len()
}

/// The texts under their keys.
pub open spec fn values_of(entries: Seq<SettingView>) -> Map<Seq<char>, Seq<char>> {
    Map::new(
        |key: Seq<char>| has_key(entries, key),
        |key: Seq<char>| entries[key_index(entries, key)].value,
    )
}

/// No two settings have the same key.
pub open spec fn keys_differ(entries: Seq<SettingView>) -> bool {
    forall|i: int, j: int|
        0 <= i < j < entries.len() ==> (#[trigger] entries[i]).key != (#[trigger] entries[j]).key
}

proof fn lemma_key_index(entries: Seq<SettingView>, key: Seq<char>)
    ensures
        0 <= key_index(entries, key) <= entries.len(),
        key_index(entries, key) < entries.len() ==> entries[key_index(entries, key)].key == key,
        forall|k: int| 0 <= k < key_index(entries, key) ==> (#[trigger] entries[k]).key != key,
    decreases entries.len(),
{
    if entries.len() > 0 && entries[0].key != key {
        let rest = entries.skip(1);
        lemma_key_index(rest, key);
        assert forall|k: int| 0 <= k < key_index(entries, key) implies (#[trigger] entries[k]).key
            != key by {
            if k > 0 {
                assert(rest[k - 1] == entries[k]);
            }
        }
    }
}

/// The index of a key is where the key stands.
proof fn lemma_index_is(entries: Seq<SettingView>, key: Seq<char>, at: int)
    requires
        0 <= at <= entries.len(),
        at < entries.len() ==> entries[at].key == key,
        forall|k: int| 0 <= k < at ==> (#[trigger] entries[k]).key != key,
    ensures
        key_index(entries, key) == at,
{
    lemma_key_index(entries, key);
    let n = key_index(entries, key);
    if n < at {
        assert(entries[n].key != key);
    } else if at < n {
        assert(entries[at].key != key);
    }
}

/// The settings of the gateway.
#[derive(Debug)]
pub struct Database {
    pub entries: Vec<Setting>,
    pub peers: Vec<String>,
}

/// The settings of the gateway.
pub struct DatabaseView {
    pub values: Map<Seq<char>, Seq<char>>,
    pub peers: Seq<Seq<char>>,
}

impl View for Database {
    type V = DatabaseView;

    open spec fn view(&self) -> DatabaseView {
        DatabaseView { values: values_of(viewed(self.entries@)), peers: views(self.peers@) }
    }
}

/// The text under a key, if there is one.
pub open spec fn lookup(values: Map<Seq<char>, Seq<char>>, key: Seq<char>) -> Option<Seq<char>> {
    if values.contains_key(key) {
        Some(values[key])
    } else {
        None
    }
}

impl Database {
    /// Each key comes once, and the peers are in order, each once.
    pub open spec fn wf(self) -> bool {
        keys_differ(viewed(self.entries@)) && ascending(views(self.peers@))
    }

    /// No settings.
    pub fn new() -> (out: Database)
        ensures
            out.wf(),
            out@.values == Map::<Seq<char>, Seq<char>>::empty(),
            out@.peers == Seq::<Seq<char>>::empty(),
    {
        let out = Database { entries: Vec::new(), peers: Vec::new() };
        proof {
            assert(viewed(out.entries@) =~= Seq::<SettingView>::empty());
            assert(views(out.peers@) =~= Seq::<Seq<char>>::empty());
            assert(out@.values =~= Map::<Seq<char>, Seq<char>>::empty());
        }
        out
    }

    /// The index of the setting with a key, or the number of settings.
    fn position(&self, key: &str) -> (out: usize)
        ensures
            out == key_index(viewed(self.entries@), key@),
            out <= self.entries@.len(),
    {
        let ghost all = viewed(self.entries@);
        let mut i: usize = 0;
        while i < self.entries.len() && !same(self.entries[i].key.as_str(), key)
            invariant
                i <= self.entries@.len(),
                all == viewed(self.entries@),
                forall|k: int| 0 <= k < i ==> (#[trigger] all[k]).key != key@,
            decreases self.entries@.len() - i,
        {
            assert(all[i as int] == self.entries@[i as int]@);
            i += 1;
        }
        proof {
            if i < self.entries@.len() {
                assert(all[i as int] == self.entries@[i as int]@);
            }
            lemma_index_is(all, key@, i as int);
        }
        i
    }

    /// The text under a key.
    pub fn get(&self, key: &str) -> (out: Option<String>)
        ensures
            opt_view(out) == lookup(self@.values, key@),
    {
        let i = self.position(key);
        if i < self.entries.len() {
            assert(viewed(self.entries@)[i as int] == self.entries@[i as int]@);
            Some(self.entries[i].value.clone())
        } else {
            None
        }
    }

    /// Puts a text under a key.
    pub fn set(&mut self, key: &str, value: &str)
        requires
            old(self).wf(),
        ensures
            final(self).wf(),
            final(self)@ == (DatabaseView {
                values: old(self)@.values.insert(key@, value@),
                ..old(self)@
            }),
    {
        let i = self.position(key);
        let ghost before = viewed(self.entries@);
        let entry = Setting { key: key.to_owned(), value: value.to_owned() };
        if i < self.entries.len() {
            self.entries[i] = entry;
            assert(viewed(self.entries@) =~= before.update(i as int, entry@));
        } else {
            self.entries.push(entry);
            assert(viewed(self.entries@) =~= before.push(entry@));
        }
        proof {
            lemma_key_index(before, key@);
            lemma_written(before, viewed(self.entries@), i as int, key@, value@);
        }
    }

    /// The peers of the allow-list, in order.
    pub fn peers(&self) -> (out: Vec<String>)
        ensures
            views(out@) == self@.peers,
    {
        crate::text::clone_strings(&self.peers)
    }

    /// Replaces the peers of the allow-list.
    pub fn replace_peers(&mut self, peers: &Vec<String>)
        requires
            old(self).wf(),
        ensures
            final(self).wf(),
            final(self)@.values == old(self)@.values,
            forall|p: Seq<char>| #[trigger]
                final(self)@.peers.contains(p) <==> views(peers@).contains(p),
    {
        let ghost entries = self.entries@;
        let mut out: Vec<String> = Vec::new();
        let mut i: usize = 0;
        assert(views(out@) =~= Seq::<Seq<char>>::empty());
        while i < peers.len()
            invariant
                i <= peers@.len(),
                ascending(views(out@)),
                forall|p: Seq<char>| #[trigger]
                    views(out@).contains(p) <==> views(peers@).take(i as int).contains(p),
            decreases peers@.len() - i,
        {
            let ghost before = views(out@);
            insert_text(&mut out, peers[i].clone());
            proof {
                let now = views(peers@).take(i + 1);
                let was = views(peers@).take(i as int);
                assert(now =~= was.push(peers@[i as int]@));
                assert forall|p: Seq<char>| #[trigger] views(out@).contains(p)
                    <==> now.contains(p) by {
                    if was.contains(p) {
                        let k = choose|k: int| 0 <= k < was.len() && was[k] == p;
                        assert(now[k] == p);
                    }
                    if now.contains(p) {
                        let k = choose|k: int| 0 <= k < now.len() && now[k] == p;
                        if k < was.len() {
                            assert(was[k] == p);
                        }
                    }
                    assert(now[i as int] == peers@[i as int]@);
                    assert(before.contains(p) <==> was.contains(p));
                }
            }
            i += 1;
        }
        assert(views(peers@).take(i as int) =~= views(peers@));
        self.peers = out;
    }
}

/// Writing a setting at the index of its key puts it into the map.
proof fn lemma_written(
    before: Seq<SettingView>,
    after: Seq<SettingView>,
    at: int,
    key: Seq<char>,
    value: Seq<char>,
)
    requires
        keys_differ(before),
        at == key_index(before, key),
        0 <= at <= before.len(),
        after == (if at < before.len() {
            before.update(at, SettingView { key, value })
        } else {
            before.push(SettingView { key, value })
        }),
    ensures
        keys_differ(after),
        values_of(after) == values_of(before).insert(key, value),
{
    lemma_key_index(before, key);
    lemma_index_is(after, key, at);
    assert forall|k: Seq<char>| k != key implies #[trigger] key_index(after, k) == (
    if key_index(before, k) < before.len() {
        key_index(before, k)
    } else {
        after.len() as int
    }) by {
        lemma_key_index(before, k);
        let n = key_index(before, k);
        if n < before.len() {
            assert(n != at);
            assert(after[n].key == k);
            lemma_index_is(after, k, n);
        } else {
            assert forall|i: int| 0 <= i < after.len() implies (#[trigger] after[i]).key != k by {
                if i != at {
                    assert(before[i].key != k);
                }
            }
            lemma_index_is(after, k, after.len() as int);
        }
    }
    let wanted = values_of(before).insert(key, value);
    let got = values_of(after);
    assert forall|k: Seq<char>| #[trigger] got.contains_key(k) == wanted.contains_key(k) by {
        lemma_key_index(before, k);
        assert(got.contains_key(k) == has_key(after, k));
        if k != key {
            assert(key_index(after, k) == (if key_index(before, k) < before.len() {
                key_index(before, k)
            } else {
                after.len() as int
            }));
        }
    }
    assert forall|k: Seq<char>| got.contains_key(k) implies #[trigger] got[k] == wanted[k] by {
        lemma_key_index(before, k);
        if k != key {
            assert(key_index(after, k) == key_index(before, k));
            assert(key_index(before, k) != at);
        }
    }
    assert(got =~= wanted);
}

/// Two tables with the same peers in them list them in the same way.
pub proof fn peers_are_listed_in_one_way(a: Seq<Seq<char>>, b: Seq<Seq<char>>)
    requires
        ascending(a),
        ascending(b),
        forall|p: Seq<char>| a.contains(p) <==> b.contains(p),
    ensures
        a == b,
{
    ascending_is_unique(a, b);
}

} // verus!
