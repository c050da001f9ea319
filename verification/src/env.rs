//! Fixed-capacity process environment storage: explicit key/value pairs owned
//! by a process, copied into children at spawn.
use vstd::prelude::*;
use vstd::string::StringSliceAdditionalSpecFns;

use crate::util::bytes_equal;

verus! {

pub const MAX_ENV_VARS: usize = 16;
pub const MAX_ENV_KEY_LEN: usize = 32;
pub const MAX_ENV_VALUE_LEN: usize = 128;
pub const EQUALS_SIGN: u8 = 0x3d;

/// Failures returned by environment mutation helpers.
#[derive(Clone, Copy, Debug, PartialEq, Eq, Structural)]
pub enum EnvironmentError {
    InvalidKey,
    KeyTooLong,
    ValueTooLong,
    CapacityExceeded,
}

/// The UTF-8 bytes of an owned string.
pub open spec fn string_bytes(s: String) -> Seq<u8> {
    vstd::utf8::encode_utf8(s@)
}

/// Why `key` is rejected as an environment key, if it is.
pub open spec fn key_error(key: Seq<u8>) -> Option<EnvironmentError> {
    if key.len() == 0 || key.contains(EQUALS_SIGN) {
        Some(EnvironmentError::InvalidKey)
    } else if key.len() > MAX_ENV_KEY_LEN {
        Some(EnvironmentError::KeyTooLong)
    } else {
        None
    }
}

/// Index of the entry holding `key`, if any.
pub open spec fn find_key(entries: Seq<(Seq<u8>, Seq<u8>)>, key: Seq<u8>) -> Option<int> {
    if exists|i: int| 0 <= i < entries.len() && #[trigger] entries[i].0 == key {
        Some(choose|i: int| 0 <= i < entries.len() && #[trigger] entries[i].0 == key)
    } else {
        None
    }
}

/// The value bound to `key`, if any.
pub open spec fn lookup(entries: Seq<(Seq<u8>, Seq<u8>)>, key: Seq<u8>) -> Option<Seq<u8>> {
    match find_key(entries, key) {
        Some(i) => Some(entries[i].1),
        None => None,
    }
}

/// Whether setting `key` to `value` in `entries` succeeds: a valid key, a
/// value that fits, and room for a new key.
pub open spec fn set_succeeds(entries: Seq<(Seq<u8>, Seq<u8>)>, key: Seq<u8>, value: Seq<u8>) -> bool {
    &&& key_error(key) is None
    &&& value.len() <= MAX_ENV_VALUE_LEN
    &&& !(find_key(entries, key) is None && entries.len() == MAX_ENV_VARS)
}

/// The entries after a successful set of `key` to `value`: the value
/// replaced in place, or a new entry appended.
pub open spec fn spec_set(entries: Seq<(Seq<u8>, Seq<u8>)>, key: Seq<u8>, value: Seq<u8>) -> Seq<(Seq<u8>, Seq<u8>)> {
    match find_key(entries, key) {
        Some(i) => entries.update(i, (key, value)),
        None => entries.push((key, value)),
    }
}

/// The entries after setting `keys[i]` to `values[i]` in order.
pub open spec fn set_all(entries: Seq<(Seq<u8>, Seq<u8>)>, keys: Seq<Seq<u8>>, values: Seq<Seq<u8>>)
    -> Seq<(Seq<u8>, Seq<u8>)>
    decreases keys.len(),
{
    if keys.len() == 0 {
        entries
    } else {
        spec_set(set_all(entries, keys.drop_last(), values.drop_last()), keys.last(), values.last())
    }
}

/// A cleared environment takes up to `MAX_ENV_VARS` distinct valid keys
/// with values that fit: every set succeeds, and the entries are the pairs
/// in the order they were set.
pub proof fn lemma_sets_after_clear(keys: Seq<Seq<u8>>, values: Seq<Seq<u8>>)
    requires
        keys.len() == values.len(),
        keys.len() <= MAX_ENV_VARS,
        forall|i: int| 0 <= i < keys.len() ==> key_error(#[trigger] keys[i]) is None,
        forall|i: int| 0 <= i < values.len() ==> (#[trigger] values[i]).len() <= MAX_ENV_VALUE_LEN,
        forall|i: int, j: int| 0 <= i < j < keys.len() ==> #[trigger] keys[i] != #[trigger] keys[j],
    ensures
        forall|k: int| 0 <= k < keys.len() ==> #[trigger] set_succeeds(
            set_all(Seq::empty(), keys.take(k), values.take(k)), keys[k], values[k]),
        set_all(Seq::empty(), keys, values) == Seq::new(keys.len(), |i: int| (keys[i], values[i])),
    decreases keys.len(),
{
    if keys.len() > 0 {
        let n = keys.len() - 1;
        let ks = keys.drop_last();
        let vs = values.drop_last();
        lemma_sets_after_clear(ks, vs);
        let before = set_all(Seq::empty(), ks, vs);
        assert(before == Seq::new(ks.len(), |i: int| (ks[i], vs[i])));
        assert(find_key(before, keys[n]) is None) by {
            if exists|i: int| 0 <= i < before.len() && #[trigger] before[i].0 == keys[n] {
                let i = choose|i: int| 0 <= i < before.len() && #[trigger] before[i].0 == keys[n];
                assert(keys[i] == keys[n]);
            }
        }
        assert(set_all(Seq::empty(), keys, values) =~= Seq::new(keys.len(), |i: int| (keys[i], values[i])));
        assert forall|k: int| 0 <= k < keys.len() implies #[trigger] set_succeeds(
            set_all(Seq::empty(), keys.take(k), values.take(k)), keys[k], values[k]) by {
            if k < n {
                assert(keys.take(k) =~= ks.take(k));
                assert(values.take(k) =~= vs.take(k));
                assert(set_succeeds(set_all(Seq::empty(), ks.take(k), vs.take(k)), ks[k], vs[k]));
            } else {
                assert(keys.take(k) =~= ks);
                assert(values.take(k) =~= vs);
            }
        }
    }
}

/// One key/value pair.
struct EnvEntry {
    key: String,
    value: String,
}

impl EnvEntry {
    spec fn pair(&self) -> (Seq<u8>, Seq<u8>) {
        (string_bytes(self.key), string_bytes(self.value))
    }

    fn empty() -> (r: Self)
        ensures
            r.pair() == (Seq::<u8>::empty(), Seq::<u8>::empty()),
    {
        let r = EnvEntry { key: String::new(), value: String::new() };
        assert(string_bytes(r.key) =~= Seq::<u8>::empty());
        r
    }

    fn set_pair(&mut self, key: &str, value: &str)
        ensures
            final(self).pair() == (key.spec_bytes(), value.spec_bytes()),
    {
        self.key = key.to_owned();
        self.set_value(value);
    }

    fn set_value(&mut self, value: &str)
        ensures
            final(self).pair() == (old(self).pair().0, value.spec_bytes()),
    {
        self.value = value.to_owned();
    }

    fn key(&self) -> (r: &str)
        ensures
            r.spec_bytes() == self.pair().0,
    {
        self.key.as_str()
    }

    fn value(&self) -> (r: &str)
        ensures
            r.spec_bytes() == self.pair().1,
    {
        self.value.as_str()
    }
}

/// Fixed-capacity environment block owned by a process.
pub struct Environment {
    entries: Vec<EnvEntry>,
}

impl View for Environment {
    type V = Seq<(Seq<u8>, Seq<u8>)>;

    closed spec fn view(&self) -> Seq<(Seq<u8>, Seq<u8>)> {
        Seq::new(self.entries@.len(), |i: int| self.entries@[i].pair())
    }
}

/// Keys are distinct and valid, values fit, and the block is within capacity.
pub open spec fn entries_wf(entries: Seq<(Seq<u8>, Seq<u8>)>) -> bool {
    &&& entries.len() <= MAX_ENV_VARS
    &&& forall|i: int| 0 <= i < entries.len() ==> key_error(#[trigger] entries[i].0).is_none()
        && entries[i].1.len() <= MAX_ENV_VALUE_LEN
    &&& forall|i: int, j: int| 0 <= i < j < entries.len() ==> #[trigger] entries[i].0 != #[trigger] entries[j].0
}

/// Checks that `key` is non-empty, has no `=` and fits the key capacity.
pub fn validate_key(key: &str) -> (r: Result<(), EnvironmentError>)
    ensures
        match key_error(key.spec_bytes()) {
            Some(e) => r == Err::<(), EnvironmentError>(e),
            None => r is Ok,
        },
{
    let bytes = key.as_bytes();
    if bytes.len() == 0 {
        return Err(EnvironmentError::InvalidKey);
    }
    let mut i: usize = 0;
    while i < bytes.len()
        invariant
            bytes@ == key.spec_bytes(),
            bytes@.len() > 0,
            i <= bytes@.len(),
            forall|k: int| 0 <= k < i ==> bytes@[k] != EQUALS_SIGN,
        decreases bytes@.len() - i,
    {
        if bytes[i] == EQUALS_SIGN {
            assert(bytes@[i as int] == EQUALS_SIGN);
            assert(bytes@.contains(EQUALS_SIGN));
            return Err(EnvironmentError::InvalidKey);
        }
        i += 1;
    }
    if bytes.len() > MAX_ENV_KEY_LEN {
        return Err(EnvironmentError::KeyTooLong);
    }
    Ok(())
}

impl Environment {
    pub open spec fn wf(&self) -> bool {
        entries_wf(self@)
    }

    /// The value bound to `key`.
    pub open spec fn spec_get(&self, key: Seq<u8>) -> Option<Seq<u8>> {
        lookup(self@, key)
    }

    /// Creates an empty environment block.
    pub fn new() -> (r: Self)
        ensures
            r.wf(),
            r@ == Seq::<(Seq<u8>, Seq<u8>)>::empty(),
    {
        let r = Environment { entries: Vec::new() };
        assert(r@ =~= Seq::<(Seq<u8>, Seq<u8>)>::empty());
        r
    }

    /// Number of variables.
    pub fn len(&self) -> (r: usize)
        ensures
            r == self@.len(),
    {
        self.entries.len()
    }

    fn find_index(&self, key: &str) -> (r: Option<usize>)
        requires
            self.wf(),
        ensures
            match r {
                Some(i) => i < self@.len() && self@[i as int].0 == key.spec_bytes()
                    && find_key(self@, key.spec_bytes()) == Some(i as int),
                None => find_key(self@, key.spec_bytes()) is None,
            },
    {
        let mut index: usize = 0;
        while index < self.entries.len()
            invariant
                self.wf(),
                index <= self@.len(),
                self@.len() == self.entries@.len(),
                forall|k: int| 0 <= k < index ==> #[trigger] self@[k].0 != key.spec_bytes(),
            decreases self@.len() - index,
        {
            let entry_key = self.entries[index].key();
            if bytes_equal(entry_key.as_bytes(), key.as_bytes()) {
                proof {
                    assert(self@[index as int].0 == key.spec_bytes());
                    let w = choose|i: int| 0 <= i < self@.len() && #[trigger] self@[i].0 == key.spec_bytes();
                    if w != index {
                        if w < index {
                            assert(self@[w].0 != key.spec_bytes());
                        } else {
                            assert(self@[index as int].0 != self@[w].0);
                        }
                    }
                }
                return Some(index);
            }
            index += 1;
        }
        None
    }

    /// Inserts or updates one environment variable.
    pub fn set(&mut self, key: &str, value: &str) -> (r: Result<(), EnvironmentError>)
        requires
            old(self).wf(),
        ensures
            final(self).wf(),
            r is Ok <==> set_succeeds(old(self)@, key.spec_bytes(), value.spec_bytes()),
            match key_error(key.spec_bytes()) {
                Some(e) => r == Err::<(), EnvironmentError>(e) && final(self)@ == old(self)@,
                None => if value.spec_bytes().len() > MAX_ENV_VALUE_LEN {
                    r == Err::<(), EnvironmentError>(EnvironmentError::ValueTooLong) && final(self)@ == old(self)@
                } else if find_key(old(self)@, key.spec_bytes()) is None && old(self)@.len() == MAX_ENV_VARS {
                    r == Err::<(), EnvironmentError>(EnvironmentError::CapacityExceeded) && final(self)@ == old(self)@
                } else {
                    &&& r is Ok
                    &&& final(self)@ == spec_set(old(self)@, key.spec_bytes(), value.spec_bytes())
                    &&& final(self).spec_get(key.spec_bytes()) == Some(value.spec_bytes())
                    &&& forall|k: Seq<u8>| k != key.spec_bytes() ==> #[trigger] final(self).spec_get(k) == old(self).spec_get(k)
                    &&& match find_key(old(self)@, key.spec_bytes()) {
                        Some(i) => final(self)@ == old(self)@.update(i, (key.spec_bytes(), value.spec_bytes())),
                        None => final(self)@ == old(self)@.push((key.spec_bytes(), value.spec_bytes())),
                    }
                },
            },
    {
        validate_key(key)?;
        if value.as_bytes().len() > MAX_ENV_VALUE_LEN {
            return Err(EnvironmentError::ValueTooLong);
        }
        let ghost old_view = self@;
        if let Some(index) = self.find_index(key) {
            let mut entry = self.entries.remove(index);
            entry.set_value(value);
            self.entries.insert(index, entry);
            proof {
                let new_pair = (key.spec_bytes(), value.spec_bytes());
                assert(self@ =~= old_view.update(index as int, new_pair));
                lemma_update_lookup(old_view, index as int, new_pair);
            }
            return Ok(());
        }
        if self.entries.len() == MAX_ENV_VARS {
            return Err(EnvironmentError::CapacityExceeded);
        }
        let mut entry = EnvEntry::empty();
        entry.set_pair(key, value);
        self.entries.push(entry);
        proof {
            let new_pair = (key.spec_bytes(), value.spec_bytes());
            assert(self@ =~= old_view.push(new_pair));
            lemma_push_lookup(old_view, new_pair);
        }
        Ok(())
    }

    /// Removes one environment variable if it exists.
    pub fn remove(&mut self, key: &str) -> (r: bool)
        requires
            old(self).wf(),
        ensures
            final(self).wf(),
            r == find_key(old(self)@, key.spec_bytes()) is Some,
            final(self).spec_get(key.spec_bytes()) is None,
            forall|k: Seq<u8>| k != key.spec_bytes() ==> #[trigger] final(self).spec_get(k) == old(self).spec_get(k),
            match find_key(old(self)@, key.spec_bytes()) {
                Some(i) => final(self)@ == old(self)@.remove(i),
                None => final(self)@ == old(self)@,
            },
    {
        let ghost old_view = self@;
        let index = match self.find_index(key) {
            Some(index) => index,
            None => return false,
        };
        self.entries.remove(index);
        proof {
            assert(self@ =~= old_view.remove(index as int));
            lemma_remove_lookup(old_view, index as int);
        }
        true
    }

    /// Returns the value for a key if it exists.
    pub fn get(&self, key: &str) -> (r: Option<&str>)
        requires
            self.wf(),
        ensures
            match self.spec_get(key.spec_bytes()) {
                Some(v) => r is Some && r.unwrap().spec_bytes() == v,
                None => r is None,
            },
    {
        match self.find_index(key) {
            Some(index) => Some(self.entries[index].value()),
            None => None,
        }
    }

    /// The key and value of variable `index`.
    pub fn entry(&self, index: usize) -> (r: (&str, &str))
        requires
            index < self@.len(),
        ensures
            r.0.spec_bytes() == self@[index as int].0,
            r.1.spec_bytes() == self@[index as int].1,
    {
        (self.entries[index].key(), self.entries[index].value())
    }

    /// Removes all environment variables.
    pub fn clear(&mut self)
        ensures
            final(self).wf(),
            final(self)@ == Seq::<(Seq<u8>, Seq<u8>)>::empty(),
    {
        self.entries = Vec::new();
        assert(self@ =~= Seq::<(Seq<u8>, Seq<u8>)>::empty());
    }

    /// Copies this environment block into another process-owned block.
    pub fn inherit_into(&self, child: &mut Environment) -> (r: Result<(), EnvironmentError>)
        requires
            self.wf(),
        ensures
            r is Ok,
            final(child).wf(),
            final(child)@ == self@,
    {
        child.clear();
        let mut index: usize = 0;
        while index < self.entries.len()
            invariant
                self.wf(),
                self@.len() == self.entries@.len(),
                index <= self@.len(),
                child.wf(),
                child@ == self@.take(index as int),
            decreases self@.len() - index,
        {
            let key = self.entries[index].key();
            let value = self.entries[index].value();
            proof {
                assert(find_key(child@, key.spec_bytes()) is None) by {
                    if exists|i: int| 0 <= i < child@.len() && #[trigger] child@[i].0 == key.spec_bytes() {
                        let w = choose|i: int| 0 <= i < child@.len() && #[trigger] child@[i].0 == key.spec_bytes();
                        assert(self@[w].0 == self@[index as int].0);
                    }
                }
                assert(self@[index as int] == (key.spec_bytes(), value.spec_bytes()));
            }
            let res = child.set(key, value);
            proof {
                assert(child@ =~= self@.take(index + 1));
            }
            index += 1;
        }
        assert(self@.take(self@.len() as int) =~= self@);
        Ok(())
    }
}

proof fn lemma_update_lookup(entries: Seq<(Seq<u8>, Seq<u8>)>, i: int, pair: (Seq<u8>, Seq<u8>))
    requires
        entries_wf(entries),
        0 <= i < entries.len(),
        entries[i].0 == pair.0,
        pair.1.len() <= MAX_ENV_VALUE_LEN,
    ensures
        entries_wf(entries.update(i, pair)),
        lookup(entries.update(i, pair), pair.0) == Some(pair.1),
        forall|k: Seq<u8>| k != pair.0 ==> #[trigger] lookup(entries.update(i, pair), k) == lookup(entries, k),
{
    let n = entries.update(i, pair);
    assert forall|a: int, b: int| 0 <= a < b < n.len() implies #[trigger] n[a].0 != #[trigger] n[b].0 by {
        assert(entries[a].0 != entries[b].0);
    }
    assert(n[i].0 == pair.0);
    let w = choose|w: int| 0 <= w < n.len() && #[trigger] n[w].0 == pair.0;
    if w != i {
        assert(entries[w].0 == entries[i].0);
    }
    assert forall|k: Seq<u8>| k != pair.0 implies #[trigger] lookup(n, k) == lookup(entries, k) by {
        if exists|j: int| 0 <= j < entries.len() && #[trigger] entries[j].0 == k {
            let j = choose|j: int| 0 <= j < entries.len() && #[trigger] entries[j].0 == k;
            assert(n[j].0 == k);
            let w1 = choose|j: int| 0 <= j < n.len() && #[trigger] n[j].0 == k;
            assert(entries[w1].0 == k);
            if w1 != j {
                assert(entries[w1].0 != entries[j].0 || w1 == j);
            }
        }
        if exists|j: int| 0 <= j < n.len() && #[trigger] n[j].0 == k {
            let j = choose|j: int| 0 <= j < n.len() && #[trigger] n[j].0 == k;
            assert(entries[j].0 == k);
        }
    }
}

proof fn lemma_push_lookup(entries: Seq<(Seq<u8>, Seq<u8>)>, pair: (Seq<u8>, Seq<u8>))
    requires
        entries_wf(entries),
        entries.len() < MAX_ENV_VARS,
        key_error(pair.0).is_none(),
        pair.1.len() <= MAX_ENV_VALUE_LEN,
        find_key(entries, pair.0) is None,
    ensures
        entries_wf(entries.push(pair)),
        lookup(entries.push(pair), pair.0) == Some(pair.1),
        forall|k: Seq<u8>| k != pair.0 ==> #[trigger] lookup(entries.push(pair), k) == lookup(entries, k),
{
    let n = entries.push(pair);
    assert forall|a: int, b: int| 0 <= a < b < n.len() implies #[trigger] n[a].0 != #[trigger] n[b].0 by {
        if b == entries.len() {
            assert(n[a].0 == entries[a].0);
        } else {
            assert(entries[a].0 != entries[b].0);
        }
    }
    let last = entries.len() as int;
    assert(n[last].0 == pair.0);
    let w = choose|w: int| 0 <= w < n.len() && #[trigger] n[w].0 == pair.0;
    if w != last {
        assert(entries[w].0 == pair.0);
    }
    assert forall|k: Seq<u8>| k != pair.0 implies #[trigger] lookup(n, k) == lookup(entries, k) by {
        if exists|j: int| 0 <= j < entries.len() && #[trigger] entries[j].0 == k {
            let j = choose|j: int| 0 <= j < entries.len() && #[trigger] entries[j].0 == k;
            assert(n[j].0 == k);
            let w1 = choose|j: int| 0 <= j < n.len() && #[trigger] n[j].0 == k;
            assert(w1 < entries.len());
            assert(entries[w1].0 == k);
        }
        if exists|j: int| 0 <= j < n.len() && #[trigger] n[j].0 == k {
            let j = choose|j: int| 0 <= j < n.len() && #[trigger] n[j].0 == k;
            assert(j < entries.len());
            assert(entries[j].0 == k);
        }
    }
}

proof fn lemma_remove_lookup(entries: Seq<(Seq<u8>, Seq<u8>)>, i: int)
    requires
        entries_wf(entries),
        0 <= i < entries.len(),
    ensures
        entries_wf(entries.remove(i)),
        lookup(entries.remove(i), entries[i].0) is None,
        forall|k: Seq<u8>| k != entries[i].0 ==> #[trigger] lookup(entries.remove(i), k) == lookup(entries, k),
{
    let n = entries.remove(i);
    let key = entries[i].0;
    assert forall|a: int| 0 <= a < n.len() implies key_error(#[trigger] n[a].0).is_none() && n[a].1.len() <= MAX_ENV_VALUE_LEN by {
        if a < i { assert(n[a] == entries[a]); } else { assert(n[a] == entries[a + 1]); }
    }
    assert forall|a: int, b: int| 0 <= a < b < n.len() implies #[trigger] n[a].0 != #[trigger] n[b].0 by {
        let ea = if a < i { a } else { a + 1 };
        let eb = if b < i { b } else { b + 1 };
        assert(n[a] == entries[ea] && n[b] == entries[eb]);
        assert(entries[ea].0 != entries[eb].0);
    }
    if exists|j: int| 0 <= j < n.len() && #[trigger] n[j].0 == key {
        let j = choose|j: int| 0 <= j < n.len() && #[trigger] n[j].0 == key;
        let ej = if j < i { j } else { j + 1 };
        assert(n[j] == entries[ej]);
        assert(entries[ej].0 != entries[i].0);
    }
    assert forall|k: Seq<u8>| k != key implies #[trigger] lookup(n, k) == lookup(entries, k) by {
        if exists|j: int| 0 <= j < entries.len() && #[trigger] entries[j].0 == k {
            let j = choose|j: int| 0 <= j < entries.len() && #[trigger] entries[j].0 == k;
            let nj = if j < i { j } else { j - 1 };
            assert(j != i);
            assert(n[nj] == entries[j]);
            let w = choose|j: int| 0 <= j < n.len() && #[trigger] n[j].0 == k;
            let ew = if w < i { w } else { w + 1 };
            assert(n[w] == entries[ew]);
            if ew != j {
                assert(entries[ew].0 != entries[j].0);
            }
        }
        if exists|j: int| 0 <= j < n.len() && #[trigger] n[j].0 == k {
            let j = choose|j: int| 0 <= j < n.len() && #[trigger] n[j].0 == k;
            let ej = if j < i { j } else { j + 1 };
            assert(n[j] == entries[ej]);
        }
    }
}

} // verus!
