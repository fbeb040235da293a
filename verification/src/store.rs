//! The server's shared state: a map keyed by strings, used for the stored
//! PatternV2 timelines and for the cancellation handles of running tasks.
use vstd::prelude::*;
use crate::lovense::PatternAction;
use crate::text::{chars_equal, chars_of, split_chars, split_seq, str_equals};

verus! {

/// Entries of a string-keyed map, in insertion order.
pub type Entries<T> = Seq<(Seq<char>, T)>;

/// The position of the entry for `key`, or -1.
pub open spec fn index_of_key<T>(s: Entries<T>, key: Seq<char>) -> int
    decreases s.len(),
{
    if s.len() == 0 {
        -1
    } else if s.last().0 == key {
        s.len() - 1
    } else {
        index_of_key(s.drop_last(), key)
    }
}

/// The value stored for `key`.
pub open spec fn value_of<T>(s: Entries<T>, key: Seq<char>) -> Option<T> {
    let i = index_of_key(s, key);
    if i >= 0 {
        Some(s[i].1)
    } else {
        None
    }
}

/// No key has two entries.
pub open spec fn keys_unique<T>(s: Entries<T>) -> bool {
    forall|i: int, j: int|
        0 <= i < s.len() && 0 <= j < s.len() && i != j ==> #[trigger] s[i].0 != #[trigger] s[j].0
}

/// `s` with `key` mapped to `v`: the entry for `key` replaced, or a new one
/// added at the end.
pub open spec fn put<T>(s: Entries<T>, key: Seq<char>, v: T) -> Entries<T> {
    let i = index_of_key(s, key);
    if i >= 0 {
        s.update(i, (key, v))
    } else {
        s.push((key, v))
    }
}

pub proof fn lemma_index_of_key<T>(s: Entries<T>, key: Seq<char>)
    ensures
        -1 <= index_of_key(s, key) < s.len(),
        index_of_key(s, key) >= 0 ==> s[index_of_key(s, key)].0 == key,
        index_of_key(s, key) == -1 ==> forall|k: int| 0 <= k < s.len() ==> #[trigger] s[k].0 != key,
    decreases s.len(),
{
    if s.len() > 0 {
        lemma_index_of_key(s.drop_last(), key);
        if s.last().0 != key && index_of_key(s, key) == -1 {
            assert forall|k: int| 0 <= k < s.len() implies #[trigger] s[k].0 != key by {
                if k < s.len() - 1 {
                    assert(s[k] == s.drop_last()[k]);
                }
            }
        }
    }
}

/// In a map without repeated keys, the entry for `key` is the only one with
/// that key.
pub proof fn lemma_index_unique<T>(s: Entries<T>, key: Seq<char>, k: int)
    requires
        keys_unique(s),
        0 <= k < s.len(),
        s[k].0 == key,
    ensures
        index_of_key(s, key) == k,
{
    lemma_index_of_key(s, key);
    let i = index_of_key(s, key);
    if i != k {
        assert(s[i].0 != s[k].0);
    }
}

pub proof fn lemma_put_unique<T>(s: Entries<T>, key: Seq<char>, v: T)
    requires
        keys_unique(s),
    ensures
        keys_unique(put(s, key, v)),
{
    lemma_index_of_key(s, key);
    let u = put(s, key, v);
    let i = index_of_key(s, key);
    assert forall|a: int, b: int|
        0 <= a < u.len() && 0 <= b < u.len() && a != b implies #[trigger] u[a].0 != #[trigger] u[b].0 by {
        if i >= 0 {
            if a != i && b != i {
                assert(u[a] == s[a] && u[b] == s[b]);
            } else if a == i {
                assert(u[b] == s[b]);
                assert(s[i].0 != s[b].0);
            } else {
                assert(u[a] == s[a]);
                assert(s[i].0 != s[a].0);
            }
        } else {
            if a < s.len() && b < s.len() {
                assert(u[a] == s[a] && u[b] == s[b]);
            } else if a < s.len() {
                assert(u[a] == s[a]);
            } else {
                assert(u[b] == s[b]);
            }
        }
    }
}

/// The entries of a vector of key/value pairs.
pub open spec fn entries_view<T>(v: Seq<(String, T)>) -> Entries<T> {
    v.map_values(|e: (String, T)| (e.0@, e.1))
}

/// A map from strings to values. It holds each key at most once (its type
/// invariant), so no operation asks anything of its caller.
pub struct StringKeyedMap<T> {
    entries: Vec<(String, T)>,
}

impl<T> View for StringKeyedMap<T> {
    type V = Entries<T>;

    closed spec fn view(&self) -> Entries<T> {
        entries_view(self.entries@)
    }
}

impl<T> StringKeyedMap<T> {
    #[verifier::type_invariant]
    closed spec fn keys_stay_unique(&self) -> bool {
        keys_unique(entries_view(self.entries@))
    }

    pub fn new() -> (r: Self)
        ensures
            r@ == Seq::<(Seq<char>, T)>::empty(),
    {
        let r = StringKeyedMap { entries: Vec::new() };
        assert(r@ =~= Seq::<(Seq<char>, T)>::empty());
        r
    }

    pub fn len(&self) -> (n: usize)
        ensures
            n == self@.len(),
    {
        self.entries.len()
    }

    /// No key has two entries.
    pub fn keys_are_unique(&self)
        ensures
            keys_unique(self@),
    {
        proof {
            use_type_invariant(self);
        }
    }

    /// The position of the entry for `key`, or `None`.
    fn find(&self, key: &str) -> (r: Option<usize>)
        ensures
            match r {
                Some(i) => index_of_key(self@, key@) == i as int,
                None => index_of_key(self@, key@) == -1,
            },
    {
        let ghost s = self@;
        let mut j: usize = self.entries.len();
        assert(s.take(s.len() as int) =~= s);
        while j > 0
            invariant
                j <= self.entries.len(),
                s == self@,
                index_of_key(s, key@) == index_of_key(s.take(j as int), key@),
            decreases j,
        {
            let ghost t = s.take(j as int);
            proof {
                assert(t.drop_last() =~= s.take(j - 1));
                assert(t.last() == s[j - 1]);
                assert(s[j - 1].0 == self.entries@[j - 1].0@);
            }
            let k = crate::text::chars_of(self.entries[j - 1].0.as_str());
            if crate::text::str_equals(&k, key) {
                return Some(j - 1);
            }
            j = j - 1;
        }
        None
    }

    /// Maps `key` to `value`; gives back the value it replaces.
    pub fn insert(&mut self, key: String, value: T) -> (previous: Option<T>)
        ensures
            final(self)@ == put(old(self)@, key@, value),
            previous == value_of(old(self)@, key@),
            keys_unique(final(self)@),
    {
        proof {
            use_type_invariant(&*self);
            lemma_index_of_key(self@, key@);
            lemma_put_unique(self@, key@, value);
        }
        let ghost s = self@;
        let ghost kv = key@;
        let found = self.find(key.as_str());
        let mut entries: Vec<(String, T)> = Vec::new();
        std::mem::swap(&mut entries, &mut self.entries);
        assert(entries_view(entries@) == s);
        match found {
            Some(i) => {
                let ghost raw = entries@;
                let (_, old_value) = entries.remove(i);
                entries.insert(i, (key, value));
                proof {
                    assert(entries@ == raw.remove(i as int).insert(i as int, entries@[i as int]));
                    assert(entries_view(entries@) =~= s.update(i as int, (kv, value)));
                }
                self.entries = entries;
                Some(old_value)
            },
            None => {
                entries.push((key, value));
                assert(entries_view(entries@) =~= s.push((kv, value)));
                self.entries = entries;
                None
            },
        }
    }

    /// Empties the map; gives back all values in entry order.
    pub fn drain(&mut self) -> (values: Vec<T>)
        ensures
            final(self)@ == Seq::<(Seq<char>, T)>::empty(),
            values@ == old(self)@.map_values(|e: (Seq<char>, T)| e.1),
    {
        let ghost s = self@;
        let mut entries: Vec<(String, T)> = Vec::new();
        std::mem::swap(&mut entries, &mut self.entries);
        assert(entries_view(entries@) == s);
        let mut out: Vec<T> = Vec::new();
        let mut i: usize = 0;
        let n = entries.len();
        while entries.len() > 0
            invariant
                i + entries.len() == n,
                n == s.len(),
                entries_view(entries@) =~= s.skip(i as int),
                out@ =~= s.take(i as int).map_values(|e: (Seq<char>, T)| e.1),
            decreases entries.len(),
        {
            let ghost before = entries@;
            let (_, v) = entries.remove(0);
            proof {
                assert(entries_view(entries@) =~= entries_view(before).remove(0));
                assert(entries_view(before)[0] == s[i as int]);
            }
            out.push(v);
            proof {
                assert(s.take(i + 1).map_values(|e: (Seq<char>, T)| e.1) =~= s.take(
                    i as int,
                ).map_values(|e: (Seq<char>, T)| e.1).push(s[i as int].1));
            }
            i = i + 1;
        }
        assert(s.take(n as int) =~= s);
        assert(self@ =~= Seq::<(Seq<char>, T)>::empty());
        out
    }

    /// Removes every entry whose key runs on one of `toys` (see
    /// [`task_covers_any`]); gives back their values in entry order.
    pub fn remove_covering(&mut self, toys: &Vec<String>) -> (removed: Vec<T>)
        ensures
            final(self)@ == entries_kept(old(self)@, toys.deep_view()),
            removed@ == values_taken(old(self)@, toys.deep_view()),
            keys_unique(final(self)@),
    {
        proof {
            use_type_invariant(&*self);
        }
        let ghost s = self@;
        let ghost tv = toys.deep_view();
        let mut entries: Vec<(String, T)> = Vec::new();
        std::mem::swap(&mut entries, &mut self.entries);
        assert(entries_view(entries@) == s);
        let mut kept: Vec<(String, T)> = Vec::new();
        let mut out: Vec<T> = Vec::new();
        let mut i: usize = 0;
        let n = entries.len();
        assert(s.take(0) =~= Seq::<(Seq<char>, T)>::empty());
        assert(entries_view(kept@) =~= Seq::<(Seq<char>, T)>::empty());
        while entries.len() > 0
            invariant
                i + entries.len() == n,
                n == s.len(),
                tv == toys.deep_view(),
                keys_unique(s),
                entries_view(entries@) =~= s.skip(i as int),
                entries_view(kept@) == entries_kept(s.take(i as int), tv),
                out@ == values_taken(s.take(i as int), tv),
            decreases entries.len(),
        {
            let ghost before = entries@;
            let (k, v) = entries.remove(0);
            proof {
                assert(entries_view(entries@) =~= entries_view(before).remove(0));
                assert(entries_view(before)[0] == s[i as int]);
                assert(s.take(i + 1).drop_last() =~= s.take(i as int));
                assert(s.take(i + 1).last() == s[i as int]);
            }
            if task_covers_any_exec(&k, toys) {
                out.push(v);
            } else {
                let ghost kr = kept@;
                kept.push((k, v));
                assert(entries_view(kept@) =~= entries_view(kr).push(s[i as int]));
            }
            i = i + 1;
        }
        proof {
            assert(s.take(n as int) =~= s);
            lemma_kept_unique(s, tv);
        }
        self.entries = kept;
        out
    }
}

// ---------------------------------------------------------------------------
// Stored PatternV2 timelines
// ---------------------------------------------------------------------------

/// A copy of a timeline.
pub fn copy_actions(v: &Vec<PatternAction>) -> (r: Vec<PatternAction>)
    ensures
        r@ == v@,
{
    let mut r: Vec<PatternAction> = Vec::new();
    let mut i: usize = 0;
    while i < v.len()
        invariant
            i <= v.len(),
            r@ == v@.take(i as int),
        decreases v.len() - i,
    {
        r.push(v[i]);
        assert(v@.take(i + 1) =~= v@.take(i as int).push(v@[i as int]));
        i = i + 1;
    }
    assert(v@.take(v@.len() as int) =~= v@);
    r
}

impl StringKeyedMap<Vec<PatternAction>> {
    /// A copy of the timeline stored for `key`.
    pub fn get_actions(&self, key: &str) -> (r: Option<Vec<PatternAction>>)
        ensures
            match value_of(self@, key@) {
                Some(a) => r matches Some(x) && x@ == a@,
                None => r is None,
            },
    {
        proof {
            lemma_index_of_key(self@, key@);
        }
        match self.find(key) {
            Some(i) => Some(copy_actions(&self.entries[i].1)),
            None => None,
        }
    }
}

// ---------------------------------------------------------------------------
// Cancellation of running tasks
// ---------------------------------------------------------------------------

/// The id of the task that runs on every toy.
pub open spec fn all_toys_task_id() -> Seq<char> {
    "_global_"@
}

/// Whether the task registered under `key` runs on `toy`: the task for every
/// toy runs on all of them; any other task runs on the toy whose id is its
/// key (a single toy id may itself hold commas) and on each toy its key lists,
/// separated by commas.
pub open spec fn task_covers(key: Seq<char>, toy: Seq<char>) -> bool {
    key == all_toys_task_id() || key == toy || split_seq(key, ',').contains(toy)
}

/// Whether the task registered under `key` runs on one of `toys`.
pub open spec fn task_covers_any(key: Seq<char>, toys: Seq<Seq<char>>) -> bool {
    exists|i: int| 0 <= i < toys.len() && task_covers(key, #[trigger] toys[i])
}

/// The entries whose task runs on none of `toys`, in order.
pub open spec fn entries_kept<T>(s: Entries<T>, toys: Seq<Seq<char>>) -> Entries<T>
    decreases s.len(),
{
    if s.len() == 0 {
        s
    } else if task_covers_any(s.last().0, toys) {
        entries_kept(s.drop_last(), toys)
    } else {
        entries_kept(s.drop_last(), toys).push(s.last())
    }
}

/// The values of the entries whose task runs on one of `toys`, in order.
pub open spec fn values_taken<T>(s: Entries<T>, toys: Seq<Seq<char>>) -> Seq<T>
    decreases s.len(),
{
    if s.len() == 0 {
        Seq::<T>::empty()
    } else if task_covers_any(s.last().0, toys) {
        values_taken(s.drop_last(), toys).push(s.last().1)
    } else {
        values_taken(s.drop_last(), toys)
    }
}

/// Whether `key` names a task that runs on one of `toys`.
pub fn task_covers_any_exec(key: &String, toys: &Vec<String>) -> (r: bool)
    ensures
        r == task_covers_any(key@, toys.deep_view()),
{
    let k = chars_of(key.as_str());
    let is_global = str_equals(&k, "_global_");
    let parts = split_chars(&k, ',');
    let ghost tv = toys.deep_view();
    let mut i: usize = 0;
    while i < toys.len()
        invariant
            i <= toys.len(),
            tv == toys.deep_view(),
            k@ == key@,
            is_global == (key@ == all_toys_task_id()),
            parts.deep_view() == split_seq(key@, ','),
            forall|j: int| 0 <= j < i ==> !task_covers(key@, #[trigger] tv[j]),
        decreases toys.len() - i,
    {
        let t = chars_of(toys[i].as_str());
        assert(tv[i as int] == t@);
        if is_global || chars_equal(&k, &t) {
            assert(task_covers(key@, tv[i as int]));
            return true;
        }
        let mut j: usize = 0;
        while j < parts.len()
            invariant
                j <= parts.len(),
                i < toys.len(),
                tv == toys.deep_view(),
                t@ == tv[i as int],
                parts.deep_view() == split_seq(key@, ','),
                forall|m: int| 0 <= m < j ==> #[trigger] parts.deep_view()[m] != t@,
            decreases parts.len() - j,
        {
            proof {
                crate::text::lemma_chars_deep_view(parts@[j as int]);
            }
            assert(parts.deep_view()[j as int] == parts@[j as int]@);
            if chars_equal(&parts[j], &t) {
                assert(split_seq(key@, ',')[j as int] == tv[i as int]);
                assert(task_covers(key@, tv[i as int]));
                return true;
            }
            j = j + 1;
        }
        proof {
            if split_seq(key@, ',').contains(t@) {
                let m = choose|m: int| 0 <= m < split_seq(key@, ',').len() && split_seq(key@, ',')[m] == t@;
                assert(parts.deep_view()[m] != t@);
            }
        }
        i = i + 1;
    }
    false
}

proof fn lemma_kept_is_subsequence<T>(s: Entries<T>, toys: Seq<Seq<char>>)
    ensures
        forall|a: int| 0 <= a < entries_kept(s, toys).len() ==> exists|b: int|
            0 <= b < s.len() && #[trigger] entries_kept(s, toys)[a] == s[b] && !task_covers_any(s[b].0, toys),
        forall|a: int, c: int| 0 <= a < c < entries_kept(s, toys).len() ==> exists|b: int, d: int|
            0 <= b < d < s.len() && #[trigger] entries_kept(s, toys)[a] == s[b]
                && #[trigger] entries_kept(s, toys)[c] == s[d],
    decreases s.len(),
{
    if s.len() > 0 {
        let p = s.drop_last();
        lemma_kept_is_subsequence(p, toys);
        let kp = entries_kept(p, toys);
        let k = entries_kept(s, toys);
        assert forall|a: int| 0 <= a < k.len() implies exists|b: int|
            0 <= b < s.len() && #[trigger] k[a] == s[b] && !task_covers_any(s[b].0, toys) by {
            if a < kp.len() {
                assert(k[a] == kp[a]);
                let b = choose|b: int| 0 <= b < p.len() && kp[a] == p[b] && !task_covers_any(p[b].0, toys);
                assert(s[b] == p[b]);
            } else {
                assert(k[a] == s[s.len() - 1]);
            }
        }
        assert forall|a: int, c: int| 0 <= a < c < k.len() implies exists|b: int, d: int|
            0 <= b < d < s.len() && #[trigger] k[a] == s[b] && #[trigger] k[c] == s[d] by {
            if c < kp.len() {
                assert(k[a] == kp[a] && k[c] == kp[c]);
                let (b, d) = choose|b: int, d: int| 0 <= b < d < p.len() && kp[a] == p[b] && kp[c] == p[d];
                assert(s[b] == p[b] && s[d] == p[d]);
            } else {
                assert(k[a] == kp[a]);
                let b = choose|b: int| 0 <= b < p.len() && kp[a] == p[b] && !task_covers_any(p[b].0, toys);
                assert(s[b] == p[b]);
                assert(k[c] == s[s.len() - 1]);
            }
        }
    }
}

proof fn lemma_kept_unique<T>(s: Entries<T>, toys: Seq<Seq<char>>)
    requires
        keys_unique(s),
    ensures
        keys_unique(entries_kept(s, toys)),
{
    lemma_kept_is_subsequence(s, toys);
    let k = entries_kept(s, toys);
    assert forall|a: int, c: int| 0 <= a < k.len() && 0 <= c < k.len() && a != c implies #[trigger] k[a].0 != #[trigger] k[c].0 by {
        if a < c {
            let (b, d) = choose|b: int, d: int| 0 <= b < d < s.len() && k[a] == s[b] && k[c] == s[d];
            assert(s[b].0 != s[d].0);
        } else {
            let (b, d) = choose|b: int, d: int| 0 <= b < d < s.len() && k[c] == s[b] && k[a] == s[d];
            assert(s[b].0 != s[d].0);
        }
    }
}

/// Cancels the tasks that run on any of `toys` (the task for every toy among
/// them), or every task when `toys` is empty; gives back the handles of the
/// cancelled tasks, each of which is to be signalled.
pub fn cancel_tasks<T>(registry: &mut StringKeyedMap<T>, toys: &Vec<String>) -> (cancelled: Vec<T>)
    ensures
        keys_unique(final(registry)@),
        toys.len() == 0 ==> final(registry)@ == Seq::<(Seq<char>, T)>::empty() && cancelled@
            == old(registry)@.map_values(|e: (Seq<char>, T)| e.1),
        toys.len() > 0 ==> final(registry)@ == entries_kept(old(registry)@, toys.deep_view())
            && cancelled@ == values_taken(old(registry)@, toys.deep_view()),
{
    if toys.len() == 0 {
        let r = registry.drain();
        assert(keys_unique(registry@));
        return r;
    }
    registry.remove_covering(toys)
}

/// Registers the cancellation handle of a new task under `id`; gives back the
/// handle of the task it replaces, which is to be signalled.
pub fn register_task<T>(registry: &mut StringKeyedMap<T>, id: String, handle: T) -> (replaced:
    Option<T>)
    ensures
        keys_unique(final(registry)@),
        final(registry)@ == put(old(registry)@, id@, handle),
        replaced == value_of(old(registry)@, id@),
{
    registry.insert(id, handle)
}

// ---------------------------------------------------------------------------
// Laws
// ---------------------------------------------------------------------------

/// A value written under a key is what a later read of that key gives back.
pub proof fn law_read_after_write<T>(s: Entries<T>, key: Seq<char>, v: T)
    requires
        keys_unique(s),
    ensures
        value_of(put(s, key, v), key) == Some(v),
{
    lemma_index_of_key(s, key);
    lemma_put_unique(s, key, v);
    let u = put(s, key, v);
    let i = index_of_key(s, key);
    if i >= 0 {
        lemma_index_unique(u, key, i);
    } else {
        lemma_index_unique(u, key, s.len() as int);
    }
}

/// Writing under one key leaves what is read under every other key unchanged.
pub proof fn law_write_keeps_other_keys<T>(s: Entries<T>, key: Seq<char>, v: T, other: Seq<char>)
    requires
        keys_unique(s),
        other != key,
    ensures
        value_of(put(s, key, v), other) == value_of(s, other),
{
    lemma_index_of_key(s, key);
    lemma_index_of_key(s, other);
    lemma_put_unique(s, key, v);
    let u = put(s, key, v);
    lemma_index_of_key(u, other);
    let j = index_of_key(s, other);
    if j >= 0 {
        assert(u[j] == s[j]);
        lemma_index_unique(u, other, j);
    } else {
        if index_of_key(u, other) >= 0 {
            let k = index_of_key(u, other);
            if k < s.len() && (index_of_key(s, key) < 0 || k != index_of_key(s, key)) {
                assert(u[k] == s[k]);
            }
        }
    }
}

/// Registering a task under an id that already has one gives back the earlier
/// task's handle, so that at most one task per id keeps running.
pub proof fn law_register_replaces<T>(s: Entries<T>, id: Seq<char>, old_handle: T, new_handle: T)
    requires
        keys_unique(s),
        value_of(s, id) == Some(old_handle),
    ensures
        value_of(put(s, id, new_handle), id) == Some(new_handle),
        put(s, id, new_handle).len() == s.len(),
{
    lemma_index_of_key(s, id);
    law_read_after_write(s, id, new_handle);
}

proof fn lemma_kept_and_taken<T>(s: Entries<T>, toys: Seq<Seq<char>>)
    ensures
        forall|a: int| 0 <= a < entries_kept(s, toys).len() ==> !task_covers_any(
            #[trigger] entries_kept(s, toys)[a].0,
            toys,
        ),
        forall|b: int|
            0 <= b < s.len() && !task_covers_any(#[trigger] s[b].0, toys) ==> entries_kept(
                s,
                toys,
            ).contains(s[b]),
        forall|b: int|
            0 <= b < s.len() && task_covers_any(#[trigger] s[b].0, toys) ==> values_taken(
                s,
                toys,
            ).contains(s[b].1),
    decreases s.len(),
{
    if s.len() > 0 {
        let p = s.drop_last();
        lemma_kept_and_taken(p, toys);
        let kp = entries_kept(p, toys);
        let k = entries_kept(s, toys);
        let tp = values_taken(p, toys);
        let t = values_taken(s, toys);
        assert forall|a: int| 0 <= a < k.len() implies !task_covers_any(#[trigger] k[a].0, toys) by {
            if a < kp.len() {
                assert(k[a] == kp[a]);
            }
        }
        assert forall|b: int| 0 <= b < s.len() && !task_covers_any(#[trigger] s[b].0, toys) implies k.contains(s[b]) by {
            if b < p.len() {
                assert(s[b] == p[b]);
                let i = choose|i: int| 0 <= i < kp.len() && kp[i] == p[b];
                assert(k[i] == kp[i]);
            } else {
                assert(k[k.len() - 1] == s[b]);
            }
        }
        assert forall|b: int| 0 <= b < s.len() && task_covers_any(#[trigger] s[b].0, toys) implies t.contains(s[b].1) by {
            if b < p.len() {
                assert(s[b] == p[b]);
                let i = choose|i: int| 0 <= i < tp.len() && tp[i] == p[b].1;
                assert(t[i] == tp[i]);
            } else {
                assert(t[t.len() - 1] == s[b].1);
            }
        }
    }
}

/// What a new command's cancellation leaves: no task left runs on any of the
/// commanded toys (so neither the task for every toy, nor one registered under
/// exactly a commanded toy's id, nor one registered for several toys among
/// them survives), every task that ran on one of them has
/// its handle given back to be signalled, the tasks of other toys all keep
/// running, and each id is still held at most once.
pub proof fn law_cancel_covers_toys<T>(s: Entries<T>, toys: Seq<Seq<char>>)
    requires
        keys_unique(s),
    ensures
        forall|a: int| 0 <= a < entries_kept(s, toys).len() ==> !task_covers_any(
            #[trigger] entries_kept(s, toys)[a].0,
            toys,
        ),
        toys.len() > 0 ==> forall|a: int| 0 <= a < entries_kept(s, toys).len() ==> (
        #[trigger] entries_kept(s, toys)[a]).0 != all_toys_task_id(),
        forall|b: int|
            0 <= b < s.len() && task_covers_any(#[trigger] s[b].0, toys) ==> values_taken(
                s,
                toys,
            ).contains(s[b].1),
        forall|b: int|
            0 <= b < s.len() && !task_covers_any(#[trigger] s[b].0, toys) ==> entries_kept(
                s,
                toys,
            ).contains(s[b]),
        keys_unique(entries_kept(s, toys)),
{
    lemma_kept_and_taken(s, toys);
    lemma_kept_unique(s, toys);
    let k = entries_kept(s, toys);
    assert forall|a: int| 0 <= a < k.len() implies !toys.contains((#[trigger] k[a]).0) by {
        if toys.contains(k[a].0) {
            let i = choose|i: int| 0 <= i < toys.len() && toys[i] == k[a].0;
            assert(task_covers(k[a].0, toys[i]));
        }
    }
    assert forall|b: int| 0 <= b < s.len() && toys.contains(#[trigger] s[b].0) implies values_taken(
        s,
        toys,
    ).contains(s[b].1) by {
        let i = choose|i: int| 0 <= i < toys.len() && toys[i] == s[b].0;
        assert(task_covers(s[b].0, toys[i]));
    }
    if toys.len() > 0 {
        let k = entries_kept(s, toys);
        assert forall|a: int| 0 <= a < k.len() implies (#[trigger] k[a]).0 != all_toys_task_id() by {
            if k[a].0 == all_toys_task_id() {
                assert(task_covers(k[a].0, toys[0]));
            }
        }
    }
}

} // verus!
