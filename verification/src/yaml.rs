//! The YAML value tree the conversion works on, and its mathematical view.
use vstd::prelude::*;

verus! {

/// A YAML value, with the same shape as the value trees that YAML parsers build.
/// Numbers are carried as their canonical text: the conversion never reads them.
pub enum Yaml {
    Null,
    Bool(bool),
    Number(String),
    String(String),
    Sequence(Vec<Yaml>),
    Mapping(Mapping),
    Tagged(String, Box<Yaml>),
}

/// An insertion-ordered YAML mapping. A lookup by key finds the first entry with that key;
/// a mapping read from YAML never holds a key twice (see `unique_keys`), and the updates keep
/// it so.
pub struct Mapping {
    pub entries: Vec<(Yaml, Yaml)>,
}

/// The view of a mapping: its entries, in order.
pub type MapV = Seq<(YamlV, YamlV)>;

/// The mathematical view of a YAML value.
pub enum YamlV {
    Null,
    Bool(bool),
    Number(Seq<char>),
    String(Seq<char>),
    Sequence(Seq<YamlV>),
    Mapping(Seq<(YamlV, YamlV)>),
    Tagged(Seq<char>, Box<YamlV>),
}

/// The view of a value: strings as their characters, sequences and mappings as the views of
/// what they hold.
pub open spec fn yaml_view(y: Yaml) -> YamlV
    decreases y,
{
    match y {
        Yaml::Null => YamlV::Null,
        Yaml::Bool(b) => YamlV::Bool(b),
        Yaml::Number(n) => YamlV::Number(n@),
        Yaml::String(s) => YamlV::String(s@),
        Yaml::Sequence(items) => YamlV::Sequence(items_view(items@)),
        Yaml::Mapping(m) => YamlV::Mapping(entries_view(m.entries@)),
        Yaml::Tagged(t, b) => YamlV::Tagged(t@, Box::new(yaml_view(*b))),
    }
}

/// The views of a sequence of values.
pub open spec fn items_view(s: Seq<Yaml>) -> Seq<YamlV>
    decreases s,
{
    if s.len() == 0 {
        Seq::empty()
    } else {
        items_view(s.subrange(0, s.len() - 1)).push(yaml_view(s[s.len() - 1]))
    }
}

/// The views of a sequence of entries.
pub open spec fn entries_view(s: Seq<(Yaml, Yaml)>) -> MapV
    decreases s,
{
    if s.len() == 0 {
        Seq::empty()
    } else {
        entries_view(s.subrange(0, s.len() - 1)).push(
            (yaml_view(s[s.len() - 1].0), yaml_view(s[s.len() - 1].1)),
        )
    }
}

impl View for Yaml {
    type V = YamlV;

    open spec fn view(&self) -> YamlV {
        yaml_view(*self)
    }
}

impl View for Mapping {
    type V = MapV;

    open spec fn view(&self) -> MapV {
        entries_view(self.entries@)
    }
}


/// The view of a sequence of values is the sequence of their views.
pub proof fn lemma_items_view(s: Seq<Yaml>)
    ensures
        items_view(s).len() == s.len(),
        forall|i: int| 0 <= i < s.len() ==> #[trigger] items_view(s)[i] == yaml_view(s[i]),
    decreases s.len(),
{
    if s.len() > 0 {
        let p = s.subrange(0, s.len() - 1);
        lemma_items_view(p);
        assert forall|i: int| 0 <= i < s.len() implies #[trigger] items_view(s)[i] == yaml_view(
            s[i],
        ) by {
            if i < s.len() - 1 {
                assert(p[i] == s[i]);
            }
        }
    }
}

/// The view of a sequence of entries is the sequence of the entries' views.
pub proof fn lemma_entries_view(s: Seq<(Yaml, Yaml)>)
    ensures
        entries_view(s).len() == s.len(),
        forall|i: int|
            0 <= i < s.len() ==> #[trigger] entries_view(s)[i] == (
                yaml_view(s[i].0),
                yaml_view(s[i].1),
            ),
    decreases s.len(),
{
    if s.len() > 0 {
        let p = s.subrange(0, s.len() - 1);
        lemma_entries_view(p);
        assert forall|i: int| 0 <= i < s.len() implies #[trigger] entries_view(s)[i] == (
            yaml_view(s[i].0),
            yaml_view(s[i].1),
        ) by {
            if i < s.len() - 1 {
                assert(p[i] == s[i]);
            }
        }
    }
}

/// The value under any number of tags.
pub open spec fn untag(v: YamlV) -> YamlV
    decreases v,
{
    match v {
        YamlV::Tagged(_, b) => untag(*b),
        _ => v,
    }
}

/// The entries of a value that is a mapping under its tags.
pub open spec fn as_map(v: YamlV) -> Option<MapV> {
    match untag(v) {
        YamlV::Mapping(m) => Some(m),
        _ => None,
    }
}

/// The items of a value that is a sequence under its tags.
pub open spec fn as_seq(v: YamlV) -> Option<Seq<YamlV>> {
    match untag(v) {
        YamlV::Sequence(s) => Some(s),
        _ => None,
    }
}

/// Whether a value is null under its tags.
pub open spec fn is_null(v: YamlV) -> bool {
    untag(v) is Null
}

/// Whether a value is a string under its tags.
pub open spec fn is_string(v: YamlV) -> bool {
    untag(v) is String
}

/// Whether a value is the string `s` under its tags.
pub open spec fn is_str(v: YamlV, s: Seq<char>) -> bool {
    untag(v) == YamlV::String(s)
}

/// `v` with the mapping under its tags replaced by `m`; the tags stay.
pub open spec fn with_map(v: YamlV, m: MapV) -> YamlV
    decreases v,
{
    match v {
        YamlV::Tagged(t, b) => YamlV::Tagged(t, Box::new(with_map(*b, m))),
        _ => YamlV::Mapping(m),
    }
}

/// Putting back the mapping that a value holds gives the value back.
pub proof fn lemma_with_map_same(v: YamlV)
    requires
        as_map(v) is Some,
    ensures
        with_map(v, as_map(v).unwrap()) == v,
    decreases v,
{
    if let YamlV::Tagged(t, b) = v {
        lemma_with_map_same(*b);
    }
}

/// Replacing the mapping of a mapping value gives a mapping value with those entries.
pub proof fn lemma_with_map_as_map(v: YamlV, m: MapV)
    requires
        as_map(v) is Some,
    ensures
        as_map(with_map(v, m)) == Some(m),
    decreases v,
{
    if let YamlV::Tagged(t, b) = v {
        lemma_with_map_as_map(*b, m);
    }
}

/// Whether a key is the plain (untagged) string `key`.
pub open spec fn is_key(k: YamlV, key: Seq<char>) -> bool {
    k == YamlV::String(key)
}

/// Whether some entry of `m` has the key `key`.
pub open spec fn has_key(m: MapV, key: Seq<char>) -> bool {
    exists|i: int| 0 <= i < m.len() && is_key(#[trigger] m[i].0, key)
}

/// The index of the first entry of `m` whose key is `key`, or -1 where there is none.
pub open spec fn key_index(m: MapV, key: Seq<char>) -> int
    decreases m.len(),
{
    if m.len() == 0 {
        -1
    } else {
        let i = key_index(m.subrange(0, m.len() - 1), key);
        if i >= 0 {
            i
        } else if is_key(m[m.len() - 1].0, key) {
            m.len() - 1
        } else {
            -1
        }
    }
}

/// `key_index` is the first index holding the key, and -1 exactly where none does.
pub proof fn lemma_key_index(m: MapV, key: Seq<char>)
    ensures
        -1 <= key_index(m, key) < m.len(),
        key_index(m, key) == -1 <==> !has_key(m, key),
        key_index(m, key) >= 0 ==> is_key(m[key_index(m, key)].0, key),
        forall|j: int| 0 <= j < key_index(m, key) ==> !is_key(#[trigger] m[j].0, key),
    decreases m.len(),
{
    if m.len() > 0 {
        let p = m.subrange(0, m.len() - 1);
        lemma_key_index(p, key);
        if has_key(p, key) {
            let w = choose|i: int| 0 <= i < p.len() && is_key(#[trigger] p[i].0, key);
            assert(m[w] == p[w]);
        }
        if has_key(m, key) && !has_key(p, key) {
            let w = choose|i: int| 0 <= i < m.len() && is_key(#[trigger] m[i].0, key);
            if w < m.len() - 1 {
                assert(p[w] == m[w]);
            }
        }
        assert forall|j: int| 0 <= j < key_index(m, key) implies !is_key(#[trigger] m[j].0, key) by {
            assert(p[j] == m[j]);
        }
    }
}

/// A forward scan characterizes `key_index`: an entry with the key and none before it.
pub proof fn lemma_key_index_first(m: MapV, key: Seq<char>, i: int)
    requires
        0 <= i < m.len(),
        is_key(m[i].0, key),
        forall|j: int| 0 <= j < i ==> !is_key(#[trigger] m[j].0, key),
    ensures
        key_index(m, key) == i,
{
    lemma_key_index(m, key);
    assert(has_key(m, key));
}

/// The value under `key`, where there is one.
pub open spec fn map_get(m: MapV, key: Seq<char>) -> Option<YamlV> {
    let i = key_index(m, key);
    if i < 0 {
        None
    } else {
        Some(m[i].1)
    }
}

/// Sets the value under `key`: in place where the key is present, else as a new last entry.
pub open spec fn map_insert(m: MapV, key: Seq<char>, v: YamlV) -> MapV {
    let i = key_index(m, key);
    if i < 0 {
        m.push((YamlV::String(key), v))
    } else {
        m.update(i, (m[i].0, v))
    }
}

/// Removes the entry under `key` where there is one, moving the last entry into its place.
pub open spec fn map_remove(m: MapV, key: Seq<char>) -> MapV {
    let i = key_index(m, key);
    if i < 0 {
        m
    } else {
        m.update(i, m.last()).drop_last()
    }
}

/// No two entries of a mapping have the same string key (a YAML mapping never has).
pub open spec fn unique_keys(m: MapV) -> bool {
    forall|i: int, j: int|
        0 <= i < m.len() && 0 <= j < m.len() && i != j && (#[trigger] m[i]).0 is String ==> m[i].0
            != (#[trigger] m[j]).0
}

/// A read after a write gives what was written.
pub proof fn law_get_after_insert(m: MapV, key: Seq<char>, v: YamlV)
    ensures
        map_get(map_insert(m, key, v), key) == Some(v),
{
    lemma_key_index(m, key);
    let r = map_insert(m, key, v);
    lemma_key_index(r, key);
    if key_index(m, key) < 0 {
        assert(is_key(r[m.len() as int].0, key));
        assert forall|j: int| 0 <= j < m.len() implies !is_key(#[trigger] r[j].0, key) by {
            assert(r[j] == m[j]);
            assert(!has_key(m, key));
            if is_key(m[j].0, key) {
                assert(has_key(m, key));
            }
        }
        lemma_key_index_first(r, key, m.len() as int);
    } else {
        let i = key_index(m, key);
        assert forall|j: int| 0 <= j < i implies !is_key(#[trigger] r[j].0, key) by {
            assert(r[j] == m[j]);
        }
        lemma_key_index_first(r, key, i);
    }
}

/// A write leaves the value under any other key as it was.
pub proof fn law_insert_keeps_other_keys(m: MapV, key: Seq<char>, v: YamlV, other: Seq<char>)
    requires
        other != key,
    ensures
        map_get(map_insert(m, key, v), other) == map_get(m, other),
{
    lemma_key_index(m, key);
    lemma_key_index(m, other);
    let r = map_insert(m, key, v);
    lemma_key_index(r, other);
    let k = key_index(m, key);
    if k >= 0 {
        assert(r[k].0 == m[k].0);
    }
    if key_index(m, other) >= 0 {
        let o = key_index(m, other);
        assert(r[o] == m[o]);
        assert forall|j: int| 0 <= j < o implies !is_key(#[trigger] r[j].0, other) by {
            assert(r[j].0 == m[j].0);
        }
        lemma_key_index_first(r, other, o);
    } else {
        assert forall|j: int| 0 <= j < r.len() implies !is_key(#[trigger] r[j].0, other) by {
            if j < m.len() {
                assert(r[j].0 == m[j].0);
                if is_key(m[j].0, other) {
                    assert(has_key(m, other));
                }
            }
        }
    }
}

/// After a removal, nothing is left under the removed key.
pub proof fn law_get_after_remove(m: MapV, key: Seq<char>)
    requires
        unique_keys(m),
    ensures
        map_get(map_remove(m, key), key) is None,
{
    lemma_key_index(m, key);
    let r = map_remove(m, key);
    lemma_key_index(r, key);
    let k = key_index(m, key);
    if k >= 0 {
        let last = m.len() - 1;
        assert forall|j: int| 0 <= j < r.len() implies !is_key(#[trigger] r[j].0, key) by {
            if j == k {
                assert(r[j] == m[last]);
                assert(m[k].0 != m[last].0);
            } else {
                assert(r[j] == m[j]);
                assert(m[k].0 != m[j].0);
            }
        }
    } else {
        assert forall|j: int| 0 <= j < r.len() implies !is_key(#[trigger] r[j].0, key) by {
            if is_key(m[j].0, key) {
                assert(has_key(m, key));
            }
        }
    }
}

/// A removal leaves the value under any other key as it was.
pub proof fn law_remove_keeps_other_keys(m: MapV, key: Seq<char>, other: Seq<char>)
    requires
        unique_keys(m),
        other != key,
    ensures
        map_get(map_remove(m, key), other) == map_get(m, other),
{
    lemma_key_index(m, key);
    lemma_key_index(m, other);
    let r = map_remove(m, key);
    lemma_key_index(r, other);
    let k = key_index(m, key);
    if k >= 0 {
        let last = m.len() - 1;
        let o = key_index(m, other);
        if o >= 0 {
            // the entry under `other` is the one at `o`, moved to `k` when it was the last
            let p = if o == last {
                k
            } else {
                o
            };
            assert(r[p] == m[o]);
            assert forall|j: int| 0 <= j < r.len() && j != p implies !is_key(
                #[trigger] r[j].0,
                other,
            ) by {
                if j == k {
                    assert(r[j] == m[last]);
                    assert(m[o].0 != m[last].0);
                } else {
                    assert(r[j] == m[j]);
                    assert(m[o].0 != m[j].0);
                }
            }
            lemma_key_index_first(r, other, p);
        } else {
            assert forall|j: int| 0 <= j < r.len() implies !is_key(#[trigger] r[j].0, other) by {
                let src = if j == k {
                    last
                } else {
                    j
                };
                assert(r[j] == m[src]);
                if is_key(m[src].0, other) {
                    assert(has_key(m, other));
                }
            }
        }
    }
}

/// Writing and removing keep the keys of a mapping unique.
pub proof fn law_updates_keep_keys_unique(m: MapV, key: Seq<char>, v: YamlV)
    requires
        unique_keys(m),
    ensures
        unique_keys(map_insert(m, key, v)),
        unique_keys(map_remove(m, key)),
{
    lemma_key_index(m, key);
    let k = key_index(m, key);
    let r = map_insert(m, key, v);
    assert forall|i: int, j: int|
        0 <= i < r.len() && 0 <= j < r.len() && i != j && (#[trigger] r[i]).0 is String implies r[i].0
        != (#[trigger] r[j]).0 by {
        if k < 0 {
            if i == m.len() && j < m.len() {
                if is_key(m[j].0, key) {
                    assert(has_key(m, key));
                }
            } else if j == m.len() && i < m.len() {
                if is_key(m[i].0, key) {
                    assert(has_key(m, key));
                }
            } else {
                assert(r[i] == m[i] && r[j] == m[j]);
            }
        } else {
            assert(r[i].0 == m[i].0 && r[j].0 == m[j].0);
        }
    }
    let d = map_remove(m, key);
    if k >= 0 {
        let last = m.len() - 1;
        assert forall|i: int, j: int|
            0 <= i < d.len() && 0 <= j < d.len() && i != j && (#[trigger] d[i]).0 is String implies d[i].0
            != (#[trigger] d[j]).0 by {
            let si = if i == k {
                last
            } else {
                i
            };
            let sj = if j == k {
                last
            } else {
                j
            };
            assert(d[i] == m[si] && d[j] == m[sj]);
        }
    }
}


/// Whether `v` is the string `s` under its tags.
pub fn str_is(v: &Yaml, s: &str) -> (r: bool)
    ensures
        r == is_str(v@, s@),
    decreases v,
{
    match v {
        Yaml::Tagged(_, b) => str_is(b, s),
        Yaml::String(x) => *x == s.to_owned(),
        _ => false,
    }
}

/// Whether `v` is null under its tags.
pub fn null_is(v: &Yaml) -> (r: bool)
    ensures
        r == is_null(v@),
    decreases v,
{
    match v {
        Yaml::Tagged(_, b) => null_is(b),
        Yaml::Null => true,
        _ => false,
    }
}

/// Whether `v` is a string under its tags.
pub fn string_is(v: &Yaml) -> (r: bool)
    ensures
        r == is_string(v@),
    decreases v,
{
    match v {
        Yaml::Tagged(_, b) => string_is(b),
        Yaml::String(_) => true,
        _ => false,
    }
}

/// The mapping under the tags of `v`.
pub fn as_mapping(v: &Yaml) -> (r: Option<&Mapping>)
    ensures
        match r {
            Some(m) => as_map(v@) == Some(m@),
            None => as_map(v@) is None,
        },
    decreases v,
{
    match v {
        Yaml::Tagged(_, b) => as_mapping(b),
        Yaml::Mapping(m) => Some(m),
        _ => None,
    }
}

/// The items of the sequence under the tags of `v`.
pub fn as_sequence(v: &Yaml) -> (r: Option<&Vec<Yaml>>)
    ensures
        match r {
            Some(s) => as_seq(v@) == Some(items_view(s@)),
            None => as_seq(v@) is None,
        },
    decreases v,
{
    match v {
        Yaml::Tagged(_, b) => as_sequence(b),
        Yaml::Sequence(s) => Some(s),
        _ => None,
    }
}

/// The items of the sequence under the tags of `v`, taken out of it.
pub fn into_sequence(v: Yaml) -> (r: Option<Vec<Yaml>>)
    ensures
        match r {
            Some(s) => as_seq(v@) == Some(items_view(s@)),
            None => as_seq(v@) is None,
        },
    decreases v,
{
    match v {
        Yaml::Tagged(_, b) => into_sequence(*b),
        Yaml::Sequence(s) => Some(s),
        _ => None,
    }
}

/// Whether `k` is the string `key`.
pub fn key_is(k: &Yaml, key: &str) -> (r: bool)
    ensures
        r == is_key(k@, key@),
{
    match k {
        Yaml::String(s) => *s == key.to_owned(),
        _ => false,
    }
}

impl Mapping {
    /// An empty mapping.
    pub fn new() -> (m: Mapping)
        ensures
            m@ == Seq::<(YamlV, YamlV)>::empty(),
    {
        Mapping { entries: Vec::new() }
    }

    /// The number of entries.
    pub fn len(&self) -> (n: usize)
        ensures
            n == self@.len(),
    {
        proof {
            lemma_entries_view(self.entries@);
        }
        self.entries.len()
    }

    /// The position of the entry under `key`.
    pub fn find(&self, key: &str) -> (r: Option<usize>)
        ensures
            match r {
                Some(i) => i == key_index(self@, key@),
                None => key_index(self@, key@) == -1,
            },
    {
        proof {
            lemma_entries_view(self.entries@);
            lemma_key_index(self@, key@);
        }
        let mut i: usize = 0;
        while i < self.entries.len()
            invariant
                0 <= i <= self.entries@.len(),
                entries_view(self.entries@).len() == self.entries@.len(),
                forall|j: int| 0 <= j < i ==> !is_key(#[trigger] self@[j].0, key@),
            decreases self.entries@.len() - i,
        {
            proof {
                lemma_entries_view(self.entries@);
            }
            if key_is(&self.entries[i].0, key) {
                proof {
                    lemma_key_index_first(self@, key@, i as int);
                }
                return Some(i);
            }
            i = i + 1;
        }
        proof {
            if has_key(self@, key@) {
                let w = choose|j: int| 0 <= j < self@.len() && is_key(#[trigger] self@[j].0, key@);
                assert(!is_key(self@[w].0, key@));
            }
        }
        None
    }

    /// Whether an entry has the key `key`.
    pub fn contains_key(&self, key: &str) -> (r: bool)
        ensures
            r == has_key(self@, key@),
    {
        proof {
            lemma_key_index(self@, key@);
        }
        self.find(key).is_some()
    }

    /// The value under `key`.
    pub fn get(&self, key: &str) -> (r: Option<&Yaml>)
        ensures
            match r {
                Some(v) => map_get(self@, key@) == Some(v@),
                None => map_get(self@, key@) == None::<YamlV>,
            },
    {
        proof {
            lemma_entries_view(self.entries@);
            lemma_key_index(self@, key@);
        }
        match self.find(key) {
            Some(i) => Some(&self.entries[i].1),
            None => None,
        }
    }

    /// Sets the value under `key`, giving back the value it replaced.
    pub fn insert(&mut self, key: &str, value: Yaml) -> (r: Option<Yaml>)
        ensures
            final(self)@ == map_insert(old(self)@, key@, value@),
            unique_keys(old(self)@) ==> unique_keys(final(self)@),
            match r {
                Some(v) => map_get(old(self)@, key@) == Some(v@),
                None => map_get(old(self)@, key@) == None::<YamlV>,
            },
    {
        proof {
            lemma_entries_view(self.entries@);
            lemma_key_index(self@, key@);
            if unique_keys(self@) {
                law_updates_keep_keys_unique(self@, key@, value@);
            }
        }
        match self.find(key) {
            Some(i) => {
                let mut v = value;
                std::mem::swap(&mut self.entries[i].1, &mut v);
                proof {
                    lemma_entries_view(self.entries@);
                    assert(self@ =~= map_insert(old(self)@, key@, value@));
                }
                Some(v)
            },
            None => {
                let k = Yaml::String(key.to_owned());
                self.entries.push((k, value));
                proof {
                    lemma_entries_view(self.entries@);
                    assert(self@ =~= map_insert(old(self)@, key@, value@));
                }
                None
            },
        }
    }

    /// Removes the entry under `key`, moving the last entry into its place, and gives back
    /// its value.
    pub fn remove(&mut self, key: &str) -> (r: Option<Yaml>)
        ensures
            final(self)@ == map_remove(old(self)@, key@),
            unique_keys(old(self)@) ==> unique_keys(final(self)@),
            match r {
                Some(v) => map_get(old(self)@, key@) == Some(v@),
                None => map_get(old(self)@, key@) == None::<YamlV>,
            },
    {
        proof {
            lemma_entries_view(self.entries@);
            lemma_key_index(self@, key@);
            if unique_keys(self@) {
                law_updates_keep_keys_unique(self@, key@, YamlV::Null);
            }
        }
        match self.find(key) {
            Some(i) => {
                let (_k, v) = self.entries.swap_remove(i);
                proof {
                    lemma_entries_view(self.entries@);
                    assert(self@ =~= map_remove(old(self)@, key@));
                }
                Some(v)
            },
            None => None,
        }
    }
}

} // verus!
