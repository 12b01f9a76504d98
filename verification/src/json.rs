use vstd::prelude::*;

use crate::sys::{is_number_text, json_quote, json_quoted, number_parsed, number_text};
use crate::text::{lemma_str_lt_irreflexive, lemma_str_lt_total, lemma_str_lt_transitive, str_less, str_lt};

verus! {

/// The mathematical content of a JSON value: strings and numbers by their
/// characters, arrays and objects by the content of their members.
pub enum JsonData {
    Null,
    Bool(bool),
    Number(Seq<char>),
    Str(Seq<char>),
    Array(Seq<JsonData>),
    Object(Seq<(Seq<char>, JsonData)>),
}

/// A JSON number, held as the text that serde_json writes for it (for
/// example `42` or `1000.5`).
#[derive(Debug)]
pub struct JsonNumber {
    text: String,
}

/// A JSON value.
#[derive(Debug)]
pub enum JsonValue {
    Null,
    Bool(bool),
    Number(JsonNumber),
    String(String),
    Array(Vec<JsonValue>),
    Object(JsonMap),
}

/// A JSON object: string keys, each present at most once, with their values
/// in insertion order.
#[derive(Debug)]
pub struct JsonMap {
    entries: Vec<(String, JsonValue)>,
}

impl JsonNumber {
    #[verifier::type_invariant]
    closed spec fn is_written_number(self) -> bool {
        is_number_text(self.text@)
    }

    /// The text of this number.
    pub closed spec fn text_view(&self) -> Seq<char> {
        self.text@
    }

    /// The number that a JSON number literal denotes, held as the text that
    /// serde_json writes for it; none when the text is no JSON number (or
    /// one out of range).
    pub fn parse(text: &str) -> (r: Option<JsonNumber>)
        ensures
            r is Some <==> number_parsed(text@) is Some,
            r matches Some(n) ==> Some(n.text_view()) == number_parsed(text@),
    {
        match number_text(text) {
            Some(t) => Some(JsonNumber { text: t }),
            None => None,
        }
    }

    /// The number held as the given text, which serde_json writes for it.
    fn from_written(text: String) -> (r: JsonNumber)
        requires
            is_number_text(text@),
        ensures
            r.text_view() == text@,
    {
        JsonNumber { text }
    }

    /// The text of this number.
    pub fn text(&self) -> (r: &String)
        ensures
            r@ == self.text_view(),
            is_number_text(r@),
    {
        proof {
            use_type_invariant(self);
        }
        &self.text
    }

    /// A copy of this number.
    pub fn duplicate(&self) -> (r: JsonNumber)
        ensures
            r.text_view() == self.text_view(),
    {
        proof {
            use_type_invariant(self);
        }
        JsonNumber { text: self.text.clone() }
    }
}

impl JsonValue {
    /// The content of this value.
    pub open spec fn data(&self) -> JsonData
        decreases self,
    {
        match self {
            JsonValue::Null => JsonData::Null,
            JsonValue::Bool(b) => JsonData::Bool(*b),
            JsonValue::Number(n) => JsonData::Number(n.text_view()),
            JsonValue::String(s) => JsonData::Str(s@),
            JsonValue::Array(items) => JsonData::Array(values_data(items@)),
            JsonValue::Object(m) => JsonData::Object(m.entries_view()),
        }
    }
}

/// The contents of a sequence of JSON values.
pub open spec fn values_data(s: Seq<JsonValue>) -> Seq<JsonData>
    decreases s,
{
    if s.len() == 0 {
        Seq::empty()
    } else {
        values_data(s.subrange(0, s.len() - 1)).push(s[s.len() - 1].data())
    }
}

impl JsonMap {
    /// The entries of this object, in insertion order.
    pub closed spec fn entries_view(&self) -> Seq<(Seq<char>, JsonData)>
        decreases self,
    {
        entries_data(self.entries@)
    }
}

/// The contents of a sequence of object entries.
pub open spec fn entries_data(s: Seq<(String, JsonValue)>) -> Seq<(Seq<char>, JsonData)>
    decreases s,
{
    if s.len() == 0 {
        Seq::empty()
    } else {
        entries_data(s.subrange(0, s.len() - 1)).push((s[s.len() - 1].0@, s[s.len() - 1].1.data()))
    }
}


/// Each member of `values_data(s)` is the content of the member of `s` at the same place.
pub proof fn lemma_values_data(s: Seq<JsonValue>)
    ensures
        values_data(s).len() == s.len(),
        forall|i: int| 0 <= i < s.len() ==> #[trigger] values_data(s)[i] == s[i].data(),
    decreases s.len(),
{
    if s.len() > 0 {
        lemma_values_data(s.subrange(0, s.len() - 1));
    }
}

/// Each member of `entries_data(s)` is the key and content of the entry of `s` at the same place.
pub proof fn lemma_entries_data(s: Seq<(String, JsonValue)>)
    ensures
        entries_data(s).len() == s.len(),
        forall|i: int|
            0 <= i < s.len() ==> #[trigger] entries_data(s)[i] == (s[i].0@, s[i].1.data()),
    decreases s.len(),
{
    if s.len() > 0 {
        lemma_entries_data(s.subrange(0, s.len() - 1));
    }
}

/// No key occurs twice among the entries.
pub open spec fn keys_unique(s: Seq<(Seq<char>, JsonData)>) -> bool {
    forall|i: int, j: int| 0 <= i < j < s.len() ==> #[trigger] s[i].0 != #[trigger] s[j].0
}

/// The map that a sequence of entries denotes (a later entry for a key wins).
pub open spec fn entries_map(s: Seq<(Seq<char>, JsonData)>) -> Map<Seq<char>, JsonData>
    decreases s.len(),
{
    if s.len() == 0 {
        Map::empty()
    } else {
        entries_map(s.drop_last()).insert(s.last().0, s.last().1)
    }
}

/// The position of the entry with the given key, if any.
pub open spec fn key_index(s: Seq<(Seq<char>, JsonData)>, k: Seq<char>) -> Option<int> {
    if exists|i: int| 0 <= i < s.len() && #[trigger] s[i].0 == k {
        Some(choose|i: int| 0 <= i < s.len() && #[trigger] s[i].0 == k)
    } else {
        None
    }
}

/// With unique keys, the map holds exactly the entries' keys, each with its entry's content.
pub proof fn lemma_entries_map(s: Seq<(Seq<char>, JsonData)>)
    requires
        keys_unique(s),
    ensures
        forall|k: Seq<char>|
            #[trigger] entries_map(s).dom().contains(k) <==> exists|i: int|
                0 <= i < s.len() && s[i].0 == k,
        forall|i: int| 0 <= i < s.len() ==> #[trigger] entries_map(s)[s[i].0] == s[i].1,
    decreases s.len(),
{
    if s.len() > 0 {
        let p = s.drop_last();
        assert(keys_unique(p));
        lemma_entries_map(p);
        assert(entries_map(s) == entries_map(p).insert(s.last().0, s.last().1));
        assert forall|k: Seq<char>|
            #[trigger] entries_map(s).dom().contains(k) <==> exists|i: int|
                0 <= i < s.len() && s[i].0 == k by {
            if k == s.last().0 {
                assert(s[s.len() - 1].0 == k);
            }
            if entries_map(s).dom().contains(k) && k != s.last().0 {
                assert(entries_map(p).dom().contains(k));
                let i = choose|i: int| 0 <= i < p.len() && p[i].0 == k;
                assert(s[i].0 == k);
            }
            if exists|i: int| 0 <= i < s.len() && s[i].0 == k {
                let i = choose|i: int| 0 <= i < s.len() && s[i].0 == k;
                if i < s.len() - 1 {
                    assert(p[i].0 == k);
                }
            }
        }
        assert forall|i: int| 0 <= i < s.len() implies #[trigger] entries_map(s)[s[i].0] == s[i].1 by {
            if i < s.len() - 1 {
                assert(p[i] == s[i]);
                assert(s[i].0 != s[s.len() - 1].0);
                assert(entries_map(p)[p[i].0] == p[i].1);
            }
        }
    }
}

impl JsonValue {
    /// A copy of this value with the same content.
    pub fn duplicate(&self) -> (r: JsonValue)
        ensures
            r.data() == self.data(),
        decreases self,
    {
        match self {
            JsonValue::Null => JsonValue::Null,
            JsonValue::Bool(b) => JsonValue::Bool(*b),
            JsonValue::Number(n) => JsonValue::Number(n.duplicate()),
            JsonValue::String(s) => JsonValue::String(s.clone()),
            JsonValue::Array(items) => {
                let mut out: Vec<JsonValue> = Vec::new();
                let mut i: usize = 0;
                while i < items.len()
                    invariant
                        *self == JsonValue::Array(*items),
                        i <= items@.len(),
                        out@.len() == i,
                        forall|j: int| 0 <= j < i ==> #[trigger] out@[j].data() == items@[j].data(),
                    decreases items@.len() - i,
                {
                    proof {
                        vstd::std_specs::vec::axiom_vec_index_decreases(*items, i as int);
                        assert(decreases_to!(*items => items@[i as int]));
                        assert(decreases_to!(*self => self->Array_0));
                    }
                    let v = items[i].duplicate();
                    out.push(v);
                    i = i + 1;
                }
                proof {
                    lemma_values_data(out@);
                    lemma_values_data(items@);
                    assert(values_data(out@) =~= values_data(items@));
                }
                JsonValue::Array(out)
            },
            JsonValue::Object(m) => JsonValue::Object(m.duplicate()),
        }
    }
}

impl View for JsonMap {
    type V = Map<Seq<char>, JsonData>;

    open spec fn view(&self) -> Map<Seq<char>, JsonData> {
        entries_map(self.entries_view())
    }
}

impl JsonMap {
    #[verifier::type_invariant]
    closed spec fn keys_are_unique(self) -> bool {
        keys_unique(entries_data(self.entries@))
    }

    /// An empty object.
    pub fn new() -> (m: JsonMap)
        ensures
            m.entries_view() == Seq::<(Seq<char>, JsonData)>::empty(),
            m@ == Map::<Seq<char>, JsonData>::empty(),
            keys_unique(m.entries_view()),
    {
        let m = JsonMap { entries: Vec::new() };
        assert(entries_data(m.entries@) =~= Seq::<(Seq<char>, JsonData)>::empty());
        m
    }

    /// The number of entries.
    pub fn len(&self) -> (n: usize)
        ensures
            n == self.entries_view().len(),
    {
        proof {
            lemma_entries_data(self.entries@);
        }
        self.entries.len()
    }

    /// The position of the entry with the given key.
    fn find(&self, key: &str) -> (r: Option<usize>)
        ensures
            r == (match key_index(self.entries_view(), key@) {
                Some(i) => Some(i as usize),
                None => None::<usize>,
            }),
            r is Some ==> r.unwrap() < self.entries_view().len() && self.entries_view()[r.unwrap() as int].0 == key@,
    {
        proof {
            use_type_invariant(self);
            lemma_entries_data(self.entries@);
        }
        let ghost ev = self.entries_view();
        let mut i: usize = 0;
        while i < self.entries.len()
            invariant
                i <= self.entries@.len(),
                ev == self.entries_view(),
                ev.len() == self.entries@.len(),
                keys_unique(ev),
                forall|j: int| 0 <= j < ev.len() ==> #[trigger] ev[j] == (self.entries@[j].0@, self.entries@[j].1.data()),
                forall|j: int| 0 <= j < i ==> #[trigger] ev[j].0 != key@,
            decreases self.entries@.len() - i,
        {
            if crate::text::string_eq_str(&self.entries[i].0, key) {
                assert(ev[i as int].0 == key@);
                assert(exists|j: int| 0 <= j < ev.len() && #[trigger] ev[j].0 == key@);
                let ghost c = choose|j: int| 0 <= j < ev.len() && #[trigger] ev[j].0 == key@;
                assert(c == i);
                return Some(i);
            }
            i = i + 1;
        }
        None
    }

    /// A copy of this object with the same entries.
    pub fn duplicate(&self) -> (r: JsonMap)
        ensures
            r.entries_view() == self.entries_view(),
            r@ == self@,
            keys_unique(r.entries_view()),
        decreases self,
    {
        proof {
            use_type_invariant(self);
            lemma_entries_data(self.entries@);
        }
        let ghost ev = self.entries_view();
        let mut out: Vec<(String, JsonValue)> = Vec::new();
        let mut i: usize = 0;
        while i < self.entries.len()
            invariant
                i <= self.entries@.len(),
                ev == entries_data(self.entries@),
                ev.len() == self.entries@.len(),
                forall|j: int| 0 <= j < ev.len() ==> #[trigger] ev[j] == (self.entries@[j].0@, self.entries@[j].1.data()),
                out@.len() == i,
                forall|j: int| 0 <= j < i ==> (#[trigger] out@[j]).0@ == ev[j].0 && out@[j].1.data() == ev[j].1,
            decreases self.entries@.len() - i,
        {
            proof {
                assert(decreases_to!(self => self.entries@[i as int].1));
            }
            let v = self.entries[i].1.duplicate();
            let k = self.entries[i].0.clone();
            out.push((k, v));
            i = i + 1;
        }
        proof {
            lemma_entries_data(out@);
            assert(entries_data(out@) =~= ev);
        }
        JsonMap { entries: out }
    }

    /// The key and value of the entry at place `i`, in insertion order.
    pub fn entry(&self, i: usize) -> (r: (&String, &JsonValue))
        requires
            i < self.entries_view().len(),
        ensures
            (r.0@, r.1.data()) == self.entries_view()[i as int],
    {
        proof {
            lemma_entries_data(self.entries@);
        }
        (&self.entries[i].0, &self.entries[i].1)
    }

    /// The object holding the given entries, a later entry for a key
    /// replacing an earlier one.
    pub fn from_entries(entries: Vec<(String, JsonValue)>) -> (r: JsonMap)
        ensures
            r@ == entries_map(entries_data(entries@)),
            keys_unique(r.entries_view()),
            keys_unique(entries_data(entries@)) ==> r.entries_view() == entries_data(entries@),
    {
        let mut m = JsonMap::new();
        let mut rest = entries;
        let ghost all = rest@;
        let ghost mut taken: Seq<(String, JsonValue)> = Seq::empty();
        proof {
            lemma_entries_data(all);
        }
        while rest.len() > 0
            invariant
                all == taken + rest@,
                m@ == entries_map(entries_data(taken)),
                keys_unique(m.entries_view()),
                keys_unique(entries_data(all)) ==> m.entries_view() == entries_data(taken),
            decreases rest@.len(),
        {
            let ghost before = taken;
            let ghost old_rest = rest@;
            let e = rest.remove(0);
            let ghost eg = e;
            proof {
                if keys_unique(entries_data(all)) {
                    let n = before.len() as int;
                    lemma_entries_data(all);
                    assert(eg == old_rest[0]);
                    assert(n < all.len());
                    assert(all[n] == eg);
                    assert(entries_data(all)[n] == (eg.0@, eg.1.data()));
                    assert(keys_unique(entries_data(before))) by {
                        lemma_entries_data(before);
                        assert forall|a: int, b: int| 0 <= a < b < before.len() implies #[trigger] entries_data(before)[a].0 != #[trigger] entries_data(before)[b].0 by {
                            assert(all[a] == before[a] && all[b] == before[b]);
                            assert(entries_data(all)[a].0 != entries_data(all)[b].0);
                        }
                    }
                    lemma_entries_data(before);
                    lemma_entries_map(entries_data(before));
                    assert(!m@.dom().contains(eg.0@)) by {
                        if m@.dom().contains(eg.0@) {
                            let j = choose|j: int| 0 <= j < entries_data(before).len() && entries_data(before)[j].0 == eg.0@;
                            assert(all[j] == before[j]);
                            assert(entries_data(all)[j].0 == entries_data(all)[n].0);
                        }
                    }
                }
                assert(before.push(eg).subrange(0, before.len() as int) =~= before);
                assert(entries_data(before.push(eg)) == entries_data(before).push((eg.0@, eg.1.data())));
            }
            m.insert(e.0, e.1);
            proof {
                taken = before.push(eg);
                assert(all =~= taken + rest@);
                assert(entries_data(taken).drop_last() =~= entries_data(before));
                assert(entries_data(taken).last() == (eg.0@, eg.1.data()));
            }
        }
        proof {
            assert(taken =~= all);
        }
        m
    }

    /// Whether the object has an entry with the given key.
    pub fn contains_key(&self, key: &str) -> (r: bool)
        ensures
            r == self@.dom().contains(key@),
    {
        proof {
            use_type_invariant(self);
            lemma_entries_data(self.entries@);
            lemma_entries_map(self.entries_view());
        }
        let found = self.find(key);
        found.is_some()
    }

    /// The value held under the given key, if any.
    pub fn get(&self, key: &str) -> (r: Option<&JsonValue>)
        ensures
            r is Some <==> self@.dom().contains(key@),
            r matches Some(v) ==> v.data() == self@[key@],
    {
        proof {
            use_type_invariant(self);
            lemma_entries_data(self.entries@);
            lemma_entries_map(self.entries_view());
        }
        match self.find(key) {
            Some(i) => Some(&self.entries[i].1),
            None => None,
        }
    }

    /// Sets the value under a key: an existing entry keeps its place and takes
    /// the new value, a new key is appended.
    pub fn insert(&mut self, key: String, value: JsonValue)
        ensures
            final(self)@ == old(self)@.insert(key@, value.data()),
            keys_unique(final(self).entries_view()),
            old(self)@.dom().contains(key@) ==> final(self).entries_view().len() == old(self).entries_view().len(),
            !old(self)@.dom().contains(key@) ==> final(self).entries_view() == old(self).entries_view().push((key@, value.data())),
    {
        proof {
            use_type_invariant(&*self);
            lemma_entries_data(self.entries@);
            lemma_entries_map(self.entries_view());
        }
        let ghost old_ev = self.entries_view();
        let ghost entry = (key@, value.data());
        let found = self.find(key.as_str());
        let mut entries: Vec<(String, JsonValue)> = Vec::new();
        std::mem::swap(&mut entries, &mut self.entries);
        let ghost pos: int;
        match found {
            Some(i) => {
                entries.set(i, (key, value));
                proof {
                    pos = i as int;
                    lemma_entries_data(entries@);
                    assert(entries_data(entries@) =~= old_ev.update(i as int, entry));
                }
            },
            None => {
                entries.push((key, value));
                proof {
                    pos = old_ev.len() as int;
                    lemma_entries_data(entries@);
                    assert(entries_data(entries@) =~= old_ev.push(entry));
                }
            },
        }
        proof {
            let nev = entries_data(entries@);
            assert(0 <= pos < nev.len() && nev[pos] == entry);
            assert forall|x: int, y: int| 0 <= x < y < nev.len() implies #[trigger] nev[x].0 != #[trigger] nev[y].0 by {
                if x != pos && y != pos {
                    assert(nev[x] == old_ev[x] && nev[y] == old_ev[y]);
                } else if x == pos {
                    assert(nev[y] == old_ev[y]);
                } else {
                    assert(nev[x] == old_ev[x]);
                }
            }
        }
        self.entries = entries;
        proof {
            let nev = self.entries_view();
            lemma_entries_map(nev);
            let target = entries_map(old_ev).insert(key@, value.data());
            assert forall|k: Seq<char>| #[trigger] self@.dom().contains(k) <==> target.dom().contains(k) by {
                if self@.dom().contains(k) {
                    let j = choose|j: int| 0 <= j < nev.len() && nev[j].0 == k;
                    if j < old_ev.len() && k != key@ {
                        assert(old_ev[j].0 == k);
                    }
                }
                if target.dom().contains(k) && k != key@ {
                    let j = choose|j: int| 0 <= j < old_ev.len() && old_ev[j].0 == k;
                    assert(nev[j].0 == k);
                }
                if k == key@ {
                    assert(nev[pos].0 == k);
                }
            }
            assert forall|k: Seq<char>| #[trigger] self@.dom().contains(k) implies self@[k] == target[k] by {
                let j = choose|j: int| 0 <= j < nev.len() && nev[j].0 == k;
                assert(self@[nev[j].0] == nev[j].1);
                if k != key@ {
                    assert(old_ev[j] == nev[j]);
                    assert(entries_map(old_ev)[old_ev[j].0] == old_ev[j].1);
                }
            }
            assert(self@ =~= target);
        }
    }
}


/// Parts joined by commas.
pub open spec fn join_commas(parts: Seq<Seq<char>>) -> Seq<char>
    decreases parts.len(),
{
    if parts.len() == 0 {
        Seq::empty()
    } else if parts.len() == 1 {
        parts[0]
    } else {
        join_commas(parts.drop_last()) + ","@ + parts.last()
    }
}

/// Each key comes strictly before the next.
pub open spec fn strictly_increasing(ks: Seq<Seq<char>>) -> bool {
    forall|i: int, j: int| 0 <= i < j < ks.len() ==> str_lt(#[trigger] ks[i], #[trigger] ks[j])
}

/// `ks` holds the keys of the entries, each once, in increasing order.
pub open spec fn is_key_order(ks: Seq<Seq<char>>, entries: Seq<(Seq<char>, JsonData)>) -> bool {
    &&& strictly_increasing(ks)
    &&& forall|k: Seq<char>| ks.contains(k) <==> exists|j: int| 0 <= j < entries.len() && #[trigger] entries[j].0 == k
}

/// The keys of the entries in increasing order.
pub open spec fn key_order(entries: Seq<(Seq<char>, JsonData)>) -> Seq<Seq<char>> {
    choose|ks: Seq<Seq<char>>| is_key_order(ks, entries)
}

/// The place of the entry with the given key.
pub open spec fn position_of_key(entries: Seq<(Seq<char>, JsonData)>, k: Seq<char>) -> int {
    choose|j: int| 0 <= j < entries.len() && #[trigger] entries[j].0 == k
}

/// The canonical JSON text of a value: no whitespace, object members in
/// increasing order of their keys, array members in their order, strings as
/// serde_json writes them, numbers by their text.
pub open spec fn canonical(v: JsonData) -> Seq<char>
    decreases v, 0nat,
{
    match v {
        JsonData::Null => "null"@,
        JsonData::Bool(b) => if b {
            "true"@
        } else {
            "false"@
        },
        JsonData::Number(t) => t,
        JsonData::Str(s) => json_quoted(s),
        JsonData::Array(items) => "["@ + join_commas(canonical_items(items)) + "]"@,
        JsonData::Object(entries) => "{"@ + join_commas(canonical_members(entries, key_order(entries))) + "}"@,
    }
}

/// The canonical texts of the members of an array.
pub open spec fn canonical_items(items: Seq<JsonData>) -> Seq<Seq<char>>
    decreases items, 0nat,
{
    if items.len() == 0 {
        Seq::empty()
    } else {
        canonical_items(items.drop_last()).push(canonical(items.last()))
    }
}

/// The canonical texts `"key":value` of the members of an object with the given keys.
pub open spec fn canonical_members(entries: Seq<(Seq<char>, JsonData)>, keys: Seq<Seq<char>>) -> Seq<Seq<char>>
    decreases entries, keys.len(),
{
    if keys.len() == 0 {
        Seq::empty()
    } else {
        let k = keys.last();
        let j = position_of_key(entries, k);
        let text = if 0 <= j < entries.len() {
            json_quoted(k) + ":"@ + canonical(entries[j].1)
        } else {
            Seq::empty()
        };
        canonical_members(entries, keys.drop_last()).push(text)
    }
}


/// Two increasing sequences of keys that hold the same keys are equal.
pub proof fn lemma_increasing_unique(x: Seq<Seq<char>>, y: Seq<Seq<char>>)
    requires
        strictly_increasing(x),
        strictly_increasing(y),
        forall|k: Seq<char>| x.contains(k) <==> y.contains(k),
    ensures
        x == y,
    decreases x.len(),
{
    if x.len() == 0 {
        if y.len() > 0 {
            assert(y.contains(y[0]));
        }
        assert(x =~= y);
    } else {
        assert(x.contains(x[0]));
        assert(y.len() > 0);
        assert(y.contains(y[0]));
        let q = choose|q: int| 0 <= q < y.len() && y[q] == x[0];
        let p = choose|p: int| 0 <= p < x.len() && x[p] == y[0];
        if q > 0 {
            assert(str_lt(y[0], y[q]));
            if p == 0 {
                lemma_str_lt_irreflexive(x[0]);
            } else {
                assert(str_lt(x[0], x[p]));
                lemma_str_lt_total(x[0], x[p]);
            }
        }
        assert(x[0] == y[0]);
        let xs = x.drop_first();
        let ys = y.drop_first();
        assert forall|k: Seq<char>| xs.contains(k) <==> ys.contains(k) by {
            if xs.contains(k) {
                let i = choose|i: int| 0 <= i < xs.len() && xs[i] == k;
                assert(x[i + 1] == k);
                assert(str_lt(x[0], x[i + 1]));
                lemma_str_lt_irreflexive(x[0]);
                assert(x.contains(k));
                let j = choose|j: int| 0 <= j < y.len() && y[j] == k;
                assert(j != 0);
                assert(ys[j - 1] == k);
            }
            if ys.contains(k) {
                let i = choose|i: int| 0 <= i < ys.len() && ys[i] == k;
                assert(y[i + 1] == k);
                assert(str_lt(y[0], y[i + 1]));
                lemma_str_lt_irreflexive(y[0]);
                assert(y.contains(k));
                let j = choose|j: int| 0 <= j < x.len() && x[j] == k;
                assert(j != 0);
                assert(xs[j - 1] == k);
            }
        }
        lemma_increasing_unique(xs, ys);
        assert(x =~= seq![x[0]] + xs);
        assert(y =~= seq![y[0]] + ys);
    }
}

impl JsonMap {
    /// The key of the entry at a place.
    closed spec fn key_at(&self, p: int) -> Seq<char> {
        self.entries@[p].0@
    }

    /// The places of the entries in increasing order of their keys.
    fn sorted_positions(&self) -> (order: Vec<usize>)
        ensures
            order@.len() == self.entries@.len(),
            forall|a: int| 0 <= a < order@.len() ==> #[trigger] order@[a] < self.entries@.len(),
            forall|a: int, b: int| 0 <= a < b < order@.len() ==> str_lt(self.key_at(#[trigger] order@[a] as int), self.key_at(#[trigger] order@[b] as int)),
            forall|t: usize| t < self.entries@.len() ==> #[trigger] order@.contains(t),
    {
        proof {
            use_type_invariant(self);
            lemma_entries_data(self.entries@);
        }
        let n = self.entries.len();
        let mut order: Vec<usize> = Vec::new();
        let mut j: usize = 0;
        while j < n
            invariant
                n == self.entries@.len(),
                j <= n,
                keys_unique(entries_data(self.entries@)),
                entries_data(self.entries@).len() == n,
                forall|x: int| 0 <= x < n ==> #[trigger] entries_data(self.entries@)[x].0 == self.key_at(x),
                order@.len() == j,
                forall|a: int| 0 <= a < order@.len() ==> #[trigger] order@[a] < j,
                forall|a: int, b: int| 0 <= a < b < order@.len() ==> str_lt(self.key_at(#[trigger] order@[a] as int), self.key_at(#[trigger] order@[b] as int)),
                forall|t: usize| t < j ==> #[trigger] order@.contains(t),
            decreases n - j,
        {
            let mut p: usize = 0;
            while p < order.len() && !str_less(self.entries[j].0.as_str(), self.entries[order[p]].0.as_str())
                invariant
                    n == self.entries@.len(),
                    j < n,
                    p <= order@.len(),
                    keys_unique(entries_data(self.entries@)),
                    entries_data(self.entries@).len() == n,
                    forall|x: int| 0 <= x < n ==> #[trigger] entries_data(self.entries@)[x].0 == self.key_at(x),
                    forall|a: int| 0 <= a < order@.len() ==> #[trigger] order@[a] < j,
                    forall|q: int| 0 <= q < p ==> str_lt(self.key_at(#[trigger] order@[q] as int), self.key_at(j as int)),
                decreases order@.len() - p,
            {
                proof {
                    let o = order@[p as int] as int;
                    assert(o < j);
                    assert(entries_data(self.entries@)[o].0 != entries_data(self.entries@)[j as int].0);
                    lemma_str_lt_total(self.key_at(j as int), self.key_at(o));
                }
                p = p + 1;
            }
            let ghost old_order = order@;
            order.insert(p, j);
            proof {
                assert(order@ == old_order.insert(p as int, j));
                old_order.insert_ensures(p as int, j);
                assert forall|a: int, b: int| 0 <= a < b < order@.len() implies str_lt(self.key_at(#[trigger] order@[a] as int), self.key_at(#[trigger] order@[b] as int)) by {
                    if b < p {
                        assert(order@[a] == old_order[a] && order@[b] == old_order[b]);
                    } else if b == p {
                        assert(order@[a] == old_order[a]);
                    } else if a == p {
                        assert(order@[b] == old_order[b - 1]);
                        assert(str_lt(self.key_at(j as int), self.key_at(old_order[p as int] as int)));
                        if b - 1 > p {
                            lemma_str_lt_transitive(self.key_at(j as int), self.key_at(old_order[p as int] as int), self.key_at(old_order[b - 1] as int));
                        }
                    } else if a < p {
                        assert(order@[a] == old_order[a] && order@[b] == old_order[b - 1]);
                    } else {
                        assert(order@[a] == old_order[a - 1] && order@[b] == old_order[b - 1]);
                    }
                }
                assert forall|t: usize| t < j + 1 implies #[trigger] order@.contains(t) by {
                    if t == j {
                        assert(order@[p as int] == j);
                    } else {
                        assert(old_order.contains(t));
                        let a = choose|a: int| 0 <= a < old_order.len() && old_order[a] == t;
                        if a < p {
                            assert(order@[a] == t);
                        } else {
                            assert(order@[a + 1] == t);
                        }
                    }
                }
                assert forall|a: int| 0 <= a < order@.len() implies #[trigger] order@[a] < j + 1 by {
                    if a < p {
                        assert(order@[a] == old_order[a]);
                    } else if a > p {
                        assert(order@[a] == old_order[a - 1]);
                    }
                }
            }
            j = j + 1;
        }
        order
    }
}


/// Joining one more part adds a comma and the part, or just the part when it is the first.
pub proof fn lemma_join_push(parts: Seq<Seq<char>>, x: Seq<char>)
    ensures
        join_commas(parts.push(x)) == if parts.len() == 0 {
            x
        } else {
            join_commas(parts) + ","@ + x
        },
{
    assert(parts.push(x).drop_last() =~= parts);
    if parts.len() == 0 {
        assert(parts.push(x)[0] == x);
    }
}

/// The canonical JSON text of a value (see `canonical`): what is written to a
/// chain, byte for byte the same for the same content.
pub fn canonical_json(value: &JsonValue) -> (r: String)
    ensures
        r@ == canonical(value.data()),
    decreases value,
{
    match value {
        JsonValue::Null => String::from_str("null"),
        JsonValue::Bool(b) => if *b {
            String::from_str("true")
        } else {
            String::from_str("false")
        },
        JsonValue::Number(n) => n.text().clone(),
        JsonValue::String(s) => match json_quote(s.as_str()) {
            Ok(q) => q,
            Err(_) => {
                proof {
                    assert(false);
                }
                String::new()
            },
        },
        JsonValue::Array(items) => {
            let ghost d = values_data(items@);
            proof {
                lemma_values_data(items@);
                assert(d.take(0) =~= Seq::<JsonData>::empty());
            }
            let mut parts: Vec<String> = Vec::new();
            let mut i: usize = 0;
            while i < items.len()
                invariant
                    *value == JsonValue::Array(*items),
                    d == values_data(items@),
                    d.len() == items@.len(),
                    forall|x: int| 0 <= x < d.len() ==> #[trigger] d[x] == items@[x].data(),
                    i <= items@.len(),
                    part_texts(parts@) == canonical_items(d.take(i as int)),
                decreases items@.len() - i,
            {
                proof {
                    vstd::std_specs::vec::axiom_vec_index_decreases(*items, i as int);
                    assert(decreases_to!(*value => value->Array_0));
                }
                let t = canonical_json(&items[i]);
                let ghost before = parts@;
                proof {
                    let pre = d.take(i as int);
                    let post = d.take(i + 1);
                    assert(post.drop_last() =~= pre);
                    assert(post.last() == d[i as int]);
                    assert(canonical_items(post) == canonical_items(pre).push(canonical(d[i as int])));
                }
                parts.push(t);
                proof {
                    assert(part_texts(parts@) =~= part_texts(before).push(parts@.last()@));
                }
                i = i + 1;
            }
            proof {
                assert(d.take(d.len() as int) =~= d);
            }
            array_text(&parts)
        },
        JsonValue::Object(m) => {
            proof {
                assert(decreases_to!(*value => value->Object_0));
            }
            m.canonical_text()
        },
    }
}

impl JsonMap {
    /// The canonical JSON text of this object (see `canonical`).
    #[verifier::spinoff_prover]
    fn canonical_text(&self) -> (r: String)
        ensures
            r@ == "{"@ + join_commas(canonical_members(self.entries_view(), key_order(self.entries_view()))) + "}"@,
        decreases self,
    {
        proof {
            use_type_invariant(self);
            lemma_entries_data(self.entries@);
        }
        let ghost ev = self.entries_view();
        let count = self.entries.len();
        let order = self.sorted_positions();
        let ghost ks = order@.map_values(|p: usize| self.key_at(p as int));
        proof {
            assert(strictly_increasing(ks)) by {
                assert forall|a: int, b: int| 0 <= a < b < ks.len() implies str_lt(#[trigger] ks[a], #[trigger] ks[b]) by {
                    assert(str_lt(self.key_at(order@[a] as int), self.key_at(order@[b] as int)));
                }
            }
            assert forall|k: Seq<char>| ks.contains(k) <==> exists|j: int| 0 <= j < ev.len() && #[trigger] ev[j].0 == k by {
                if ks.contains(k) {
                    let a = choose|a: int| 0 <= a < ks.len() && ks[a] == k;
                    let p = order@[a] as int;
                    assert(ev[p].0 == k);
                }
                if exists|j: int| 0 <= j < ev.len() && #[trigger] ev[j].0 == k {
                    let j = choose|j: int| 0 <= j < ev.len() && #[trigger] ev[j].0 == k;
                    assert(j < count);
                    assert((j as usize) as int == j);
                    assert(order@.contains(j as usize));
                    let a = choose|a: int| 0 <= a < order@.len() && order@[a] == j as usize;
                    assert(ks.len() == order@.len());
                    assert(ks[a] == self.key_at(order@[a] as int));
                    assert(order@[a] as int == j);
                    assert(ks[a] == self.key_at(j));
                    assert(ev[j] == (self.entries@[j].0@, self.entries@[j].1.data()));
                    assert(ks[a] == k);
                }
            }
            assert(is_key_order(ks, ev));
            lemma_increasing_unique(key_order(ev), ks);
            assert(ks.take(0) =~= Seq::<Seq<char>>::empty());
        }
        let mut members: Vec<(String, String)> = Vec::new();
        let mut i: usize = 0;
        while i < order.len()
            invariant
                ev == self.entries_view(),
                ev == entries_data(self.entries@),
                ev.len() == self.entries@.len(),
                keys_unique(ev),
                forall|x: int| 0 <= x < ev.len() ==> #[trigger] ev[x] == (self.entries@[x].0@, self.entries@[x].1.data()),
                ks == order@.map_values(|p: usize| self.key_at(p as int)),
                ks.len() == order@.len(),
                forall|a: int| 0 <= a < order@.len() ==> #[trigger] order@[a] < self.entries@.len(),
                i <= order@.len(),
                member_texts(members@) == canonical_members(ev, ks.take(i as int)),
            decreases order@.len() - i,
        {
            let p = order[i];
            proof {
                vstd::std_specs::vec::axiom_vec_index_decreases(self.entries, p as int);
                assert(decreases_to!(self => self.entries));
            }
            let v = canonical_json(&self.entries[p].1);
            let q = match json_quote(self.entries[p].0.as_str()) {
                Ok(q) => q,
                Err(_) => {
                    proof {
                        assert(false);
                    }
                    String::new()
                },
            };
            let ghost before = members@;
            proof {
                let pre = ks.take(i as int);
                let post = ks.take(i + 1);
                assert(post.drop_last() =~= pre);
                let k = ks[i as int];
                assert(post.last() == k);
                assert(k == ev[p as int].0);
                let c = position_of_key(ev, k);
                if c != p as int {
                    if c < p as int {
                        assert(ev[c].0 != ev[p as int].0);
                    } else {
                        assert(ev[p as int].0 != ev[c].0);
                    }
                }
                assert(canonical_members(ev, post) == canonical_members(ev, pre).push(json_quoted(k) + ":"@ + canonical(ev[p as int].1)));
            }
            members.push((q, v));
            proof {
                assert(member_texts(members@) =~= member_texts(before).push(members@.last().0@ + ":"@ + members@.last().1@));
            }
            i = i + 1;
        }
        proof {
            assert(ks.take(ks.len() as int) =~= ks);
        }
        object_text(&members)
    }
}

/// The characters of each string.
pub open spec fn part_texts(parts: Seq<String>) -> Seq<Seq<char>> {
    parts.map_values(|p: String| p@)
}

/// The text of an array from the texts of its members, in the order given:
/// `[member,...]`.
pub fn array_text(parts: &Vec<String>) -> (r: String)
    ensures
        r@ == "["@ + join_commas(part_texts(parts@)) + "]"@,
{
    let mut out = String::from_str("[");
    let mut i: usize = 0;
    while i < parts.len()
        invariant
            i <= parts@.len(),
            out@ == "["@ + join_commas(part_texts(parts@.take(i as int))),
        decreases parts@.len() - i,
    {
        proof {
            assert(part_texts(parts@.take(i + 1)) =~= part_texts(parts@.take(i as int)).push(parts@[i as int]@));
            lemma_join_push(part_texts(parts@.take(i as int)), parts@[i as int]@);
        }
        if i > 0 {
            out.append(",");
        }
        out.append(parts[i].as_str());
        proof {
            assert(out@ =~= "["@ + join_commas(part_texts(parts@.take(i + 1))));
        }
        i = i + 1;
    }
    out.append("]");
    proof {
        assert(parts@.take(parts@.len() as int) =~= parts@);
    }
    out
}

/// The texts `key:value` of object members given as their key and value texts.
pub open spec fn member_texts(members: Seq<(String, String)>) -> Seq<Seq<char>> {
    members.map_values(|m: (String, String)| m.0@ + ":"@ + m.1@)
}

/// The text of an object from the texts of its members' keys and values, in
/// the order given: `{key:value,...}`.
pub fn object_text(members: &Vec<(String, String)>) -> (r: String)
    ensures
        r@ == "{"@ + join_commas(member_texts(members@)) + "}"@,
{
    let mut out = String::from_str("{");
    let mut i: usize = 0;
    while i < members.len()
        invariant
            i <= members@.len(),
            out@ == "{"@ + join_commas(member_texts(members@.take(i as int))),
        decreases members@.len() - i,
    {
        proof {
            assert(member_texts(members@.take(i + 1)) =~= member_texts(members@.take(i as int)).push(
                members@[i as int].0@ + ":"@ + members@[i as int].1@,
            ));
            lemma_join_push(member_texts(members@.take(i as int)), members@[i as int].0@ + ":"@ + members@[i as int].1@);
        }
        if i > 0 {
            out.append(",");
        }
        out.append(members[i].0.as_str());
        out.append(":");
        out.append(members[i].1.as_str());
        proof {
            assert(out@ =~= "{"@ + join_commas(member_texts(members@.take(i + 1))));
        }
        i = i + 1;
    }
    out.append("}");
    proof {
        assert(members@.take(members@.len() as int) =~= members@);
    }
    out
}


/// `ks` with `k` put in its place.
pub open spec fn insert_in_order(ks: Seq<Seq<char>>, k: Seq<char>) -> Seq<Seq<char>>
    decreases ks.len(),
{
    if ks.len() == 0 {
        seq![k]
    } else if str_lt(k, ks[0]) {
        seq![k] + ks
    } else {
        seq![ks[0]] + insert_in_order(ks.drop_first(), k)
    }
}

/// Putting a new key in its place in an increasing sequence keeps it increasing.
proof fn lemma_insert_in_order(ks: Seq<Seq<char>>, k: Seq<char>)
    requires
        strictly_increasing(ks),
        !ks.contains(k),
    ensures
        strictly_increasing(insert_in_order(ks, k)),
        forall|x: Seq<char>| #[trigger] insert_in_order(ks, k).contains(x) <==> (ks.contains(x) || x == k),
        insert_in_order(ks, k).len() > 0,
        insert_in_order(ks, k)[0] == k || (ks.len() > 0 && insert_in_order(ks, k)[0] == ks[0]),
    decreases ks.len(),
{
    let r = insert_in_order(ks, k);
    if ks.len() == 0 {
        assert(r[0] == k);
    } else if str_lt(k, ks[0]) {
        assert forall|i: int, j: int| 0 <= i < j < r.len() implies str_lt(#[trigger] r[i], #[trigger] r[j]) by {
            if i == 0 {
                assert(r[j] == ks[j - 1]);
                if j - 1 > 0 {
                    lemma_str_lt_transitive(k, ks[0], ks[j - 1]);
                }
            } else {
                assert(r[i] == ks[i - 1] && r[j] == ks[j - 1]);
            }
        }
        assert forall|x: Seq<char>| #[trigger] r.contains(x) <==> (ks.contains(x) || x == k) by {
            if r.contains(x) {
                let i = choose|i: int| 0 <= i < r.len() && r[i] == x;
                if i > 0 {
                    assert(ks[i - 1] == x);
                }
            }
            if ks.contains(x) {
                let i = choose|i: int| 0 <= i < ks.len() && ks[i] == x;
                assert(r[i + 1] == x);
            }
            if x == k {
                assert(r[0] == x);
            }
        }
    } else {
        let t = ks.drop_first();
        assert(strictly_increasing(t)) by {
            assert forall|i: int, j: int| 0 <= i < j < t.len() implies str_lt(#[trigger] t[i], #[trigger] t[j]) by {
                assert(t[i] == ks[i + 1] && t[j] == ks[j + 1]);
            }
        }
        assert(!t.contains(k)) by {
            if t.contains(k) {
                let i = choose|i: int| 0 <= i < t.len() && t[i] == k;
                assert(ks[i + 1] == k);
            }
        }
        lemma_insert_in_order(t, k);
        let rt = insert_in_order(t, k);
        assert(k != ks[0]) by {
            assert(ks.contains(ks[0]));
        }
        lemma_str_lt_total(k, ks[0]);
        assert(str_lt(ks[0], k));
        assert forall|i: int, j: int| 0 <= i < j < r.len() implies str_lt(#[trigger] r[i], #[trigger] r[j]) by {
            if i == 0 {
                assert(r[j] == rt[j - 1]);
                assert(rt.contains(rt[j - 1]));
                if rt[j - 1] != k {
                    let q = choose|q: int| 0 <= q < t.len() && t[q] == rt[j - 1];
                    assert(ks[q + 1] == rt[j - 1]);
                }
            } else {
                assert(r[i] == rt[i - 1] && r[j] == rt[j - 1]);
            }
        }
        assert forall|x: Seq<char>| #[trigger] r.contains(x) <==> (ks.contains(x) || x == k) by {
            if r.contains(x) {
                let i = choose|i: int| 0 <= i < r.len() && r[i] == x;
                if i > 0 {
                    assert(rt[i - 1] == x);
                    assert(rt.contains(x));
                    if t.contains(x) {
                        let q = choose|q: int| 0 <= q < t.len() && t[q] == x;
                        assert(ks[q + 1] == x);
                    }
                } else {
                    assert(ks[0] == x);
                }
            }
            if ks.contains(x) {
                let i = choose|i: int| 0 <= i < ks.len() && ks[i] == x;
                if i == 0 {
                    assert(r[0] == x);
                } else {
                    assert(t[i - 1] == x);
                    assert(rt.contains(x));
                    let q = choose|q: int| 0 <= q < rt.len() && rt[q] == x;
                    assert(r[q + 1] == x);
                }
            }
            if x == k {
                assert(rt.contains(k));
                let q = choose|q: int| 0 <= q < rt.len() && rt[q] == k;
                assert(r[q + 1] == x);
            }
        }
    }
}

/// Every object with unique keys has its keys in increasing order.
pub proof fn lemma_key_order(entries: Seq<(Seq<char>, JsonData)>)
    requires
        keys_unique(entries),
    ensures
        is_key_order(key_order(entries), entries),
    decreases entries.len(),
{
    let ks = ordered_keys(entries);
    assert(is_key_order(ks, entries));
}

/// The keys of the entries, in increasing order, built one entry at a time.
proof fn ordered_keys(entries: Seq<(Seq<char>, JsonData)>) -> (ks: Seq<Seq<char>>)
    requires
        keys_unique(entries),
    ensures
        is_key_order(ks, entries),
    decreases entries.len(),
{
    if entries.len() == 0 {
        let ks = Seq::<Seq<char>>::empty();
        assert forall|k: Seq<char>| ks.contains(k) <==> exists|j: int| 0 <= j < entries.len() && #[trigger] entries[j].0 == k by {}
        ks
    } else {
        let p = entries.drop_last();
        assert(keys_unique(p));
        let ks0 = ordered_keys(p);
        let k = entries.last().0;
        assert(!ks0.contains(k)) by {
            if ks0.contains(k) {
                let j = choose|j: int| 0 <= j < p.len() && #[trigger] p[j].0 == k;
                assert(entries[j].0 == entries[entries.len() - 1].0);
            }
        }
        lemma_insert_in_order(ks0, k);
        let ks = insert_in_order(ks0, k);
        assert forall|x: Seq<char>| ks.contains(x) <==> exists|j: int| 0 <= j < entries.len() && #[trigger] entries[j].0 == x by {
            if ks.contains(x) {
                if x == k {
                    assert(entries[entries.len() - 1].0 == x);
                } else {
                    assert(ks0.contains(x));
                    let j = choose|j: int| 0 <= j < p.len() && #[trigger] p[j].0 == x;
                    assert(entries[j].0 == x);
                }
            }
            if exists|j: int| 0 <= j < entries.len() && #[trigger] entries[j].0 == x {
                let j = choose|j: int| 0 <= j < entries.len() && #[trigger] entries[j].0 == x;
                if j < entries.len() - 1 {
                    assert(p[j].0 == x);
                }
            }
        }
        ks
    }
}

/// The member texts for keys that both objects hold, with the same values, agree.
proof fn lemma_members_agree(a: Seq<(Seq<char>, JsonData)>, b: Seq<(Seq<char>, JsonData)>, ks: Seq<Seq<char>>)
    requires
        keys_unique(a),
        keys_unique(b),
        entries_map(a) == entries_map(b),
        forall|i: int| 0 <= i < ks.len() ==> entries_map(a).dom().contains(#[trigger] ks[i]),
    ensures
        canonical_members(a, ks) == canonical_members(b, ks),
    decreases ks.len(),
{
    if ks.len() > 0 {
        lemma_members_agree(a, b, ks.drop_last());
        lemma_entries_map(a);
        lemma_entries_map(b);
        let k = ks.last();
        assert(entries_map(a).dom().contains(ks[ks.len() - 1]));
        let ja = position_of_key(a, k);
        let jb = position_of_key(b, k);
        assert(0 <= ja < a.len() && a[ja].0 == k);
        assert(0 <= jb < b.len() && b[jb].0 == k);
        assert(entries_map(a)[a[ja].0] == a[ja].1);
        assert(entries_map(b)[b[jb].0] == b[jb].1);
    }
}

/// Two objects with the same members (each key held once) have the same
/// canonical text, in whatever order their members were inserted.
pub proof fn law_canonical_ignores_member_order(
    ea: Seq<(Seq<char>, JsonData)>,
    eb: Seq<(Seq<char>, JsonData)>,
)
    requires
        keys_unique(ea),
        keys_unique(eb),
        entries_map(ea) == entries_map(eb),
    ensures
        canonical(JsonData::Object(ea)) == canonical(JsonData::Object(eb)),
{
    lemma_key_order(ea);
    lemma_key_order(eb);
    lemma_entries_map(ea);
    lemma_entries_map(eb);
    let ka = key_order(ea);
    let kb = key_order(eb);
    assert forall|k: Seq<char>| ka.contains(k) <==> kb.contains(k) by {
        if ka.contains(k) {
            assert(entries_map(ea).dom().contains(k));
        }
        if kb.contains(k) {
            assert(entries_map(eb).dom().contains(k));
        }
    }
    lemma_increasing_unique(ka, kb);
    assert forall|i: int| 0 <= i < ka.len() implies entries_map(ea).dom().contains(#[trigger] ka[i]) by {
        assert(ka.contains(ka[i]));
    }
    lemma_members_agree(ea, eb, ka);
}

/// A JSON value as a parser reads it, before its objects are built: numbers
/// by their text, objects by their members in the order read.
#[derive(Debug)]
pub enum ParsedJson {
    Null,
    Bool(bool),
    Number(String),
    String(String),
    Array(Vec<ParsedJson>),
    Object(Vec<(String, ParsedJson)>),
}

/// The content of a parsed value.
pub open spec fn parsed_data(p: ParsedJson) -> JsonData
    decreases p,
{
    match p {
        ParsedJson::Null => JsonData::Null,
        ParsedJson::Bool(b) => JsonData::Bool(b),
        ParsedJson::Number(t) => JsonData::Number(t@),
        ParsedJson::String(s) => JsonData::Str(s@),
        ParsedJson::Array(items) => JsonData::Array(parsed_items(items@)),
        ParsedJson::Object(members) => JsonData::Object(parsed_members(members@)),
    }
}

/// The contents of a sequence of parsed values.
pub open spec fn parsed_items(s: Seq<ParsedJson>) -> Seq<JsonData>
    decreases s,
{
    if s.len() == 0 {
        Seq::empty()
    } else {
        parsed_items(s.subrange(0, s.len() - 1)).push(parsed_data(s[s.len() - 1]))
    }
}

/// The keys and contents of a sequence of parsed object members.
pub open spec fn parsed_members(s: Seq<(String, ParsedJson)>) -> Seq<(Seq<char>, JsonData)>
    decreases s,
{
    if s.len() == 0 {
        Seq::empty()
    } else {
        parsed_members(s.subrange(0, s.len() - 1)).push((s[s.len() - 1].0@, parsed_data(s[s.len() - 1].1)))
    }
}

/// A parsed value is well formed: its numbers are texts that serde_json
/// writes for a number, and each of its objects holds a key once.
pub open spec fn parsed_wf(p: ParsedJson) -> bool
    decreases p,
{
    match p {
        ParsedJson::Number(t) => is_number_text(t@),
        ParsedJson::Array(items) => parsed_items_wf(items@),
        ParsedJson::Object(members) => parsed_members_wf(members@) && keys_unique(parsed_members(members@)),
        _ => true,
    }
}

/// Every parsed value of the sequence is well formed.
pub open spec fn parsed_items_wf(s: Seq<ParsedJson>) -> bool
    decreases s,
{
    s.len() == 0 || (parsed_items_wf(s.subrange(0, s.len() - 1)) && parsed_wf(s[s.len() - 1]))
}

/// The value of every parsed member of the sequence is well formed.
pub open spec fn parsed_members_wf(s: Seq<(String, ParsedJson)>) -> bool
    decreases s,
{
    s.len() == 0 || (parsed_members_wf(s.subrange(0, s.len() - 1)) && parsed_wf(s[s.len() - 1].1))
}

/// Each member of `parsed_items(s)` is the content of the member of `s` at
/// the same place, and the sequence is well formed when each member is.
pub proof fn lemma_parsed_items(s: Seq<ParsedJson>)
    ensures
        parsed_items(s).len() == s.len(),
        forall|i: int| 0 <= i < s.len() ==> #[trigger] parsed_items(s)[i] == parsed_data(s[i]),
        parsed_items_wf(s) <==> forall|i: int| 0 <= i < s.len() ==> #[trigger] parsed_wf(s[i]),
    decreases s.len(),
{
    if s.len() > 0 {
        let p = s.subrange(0, s.len() - 1);
        lemma_parsed_items(p);
        assert forall|i: int| 0 <= i < p.len() implies #[trigger] p[i] == s[i] by {}
        if forall|i: int| 0 <= i < s.len() ==> #[trigger] parsed_wf(s[i]) {
            assert forall|i: int| 0 <= i < p.len() implies #[trigger] parsed_wf(p[i]) by {
                assert(p[i] == s[i]);
            }
            assert(parsed_wf(s[s.len() - 1]));
        }
        if parsed_items_wf(s) {
            assert forall|i: int| 0 <= i < s.len() implies #[trigger] parsed_wf(s[i]) by {
                if i < s.len() - 1 {
                    assert(p[i] == s[i]);
                    assert(parsed_wf(p[i]));
                }
            }
        }
    }
}

/// Each member of `parsed_members(s)` is the key and content of the member
/// of `s` at the same place, and the sequence is well formed when each
/// member's value is.
pub proof fn lemma_parsed_members(s: Seq<(String, ParsedJson)>)
    ensures
        parsed_members(s).len() == s.len(),
        forall|i: int| 0 <= i < s.len() ==> #[trigger] parsed_members(s)[i] == (s[i].0@, parsed_data(s[i].1)),
        parsed_members_wf(s) <==> forall|i: int| 0 <= i < s.len() ==> #[trigger] parsed_wf(s[i].1),
    decreases s.len(),
{
    if s.len() > 0 {
        let p = s.subrange(0, s.len() - 1);
        lemma_parsed_members(p);
        assert forall|i: int| 0 <= i < p.len() implies #[trigger] p[i] == s[i] by {}
        if forall|i: int| 0 <= i < s.len() ==> #[trigger] parsed_wf(s[i].1) {
            assert forall|i: int| 0 <= i < p.len() implies #[trigger] parsed_wf(p[i].1) by {
                assert(p[i] == s[i]);
            }
            assert(parsed_wf(s[s.len() - 1].1));
        }
        if parsed_members_wf(s) {
            assert forall|i: int| 0 <= i < s.len() implies #[trigger] parsed_wf(s[i].1) by {
                if i < s.len() - 1 {
                    assert(p[i] == s[i]);
                    assert(parsed_wf(p[i].1));
                }
            }
        }
    }
}

impl JsonValue {
    /// The value that a well-formed parsed value stands for, with the same
    /// content.
    pub fn from_parsed(p: &ParsedJson) -> (r: JsonValue)
        requires
            parsed_wf(*p),
        ensures
            r.data() == parsed_data(*p),
        decreases p,
    {
        match p {
            ParsedJson::Null => JsonValue::Null,
            ParsedJson::Bool(b) => JsonValue::Bool(*b),
            ParsedJson::Number(t) => JsonValue::Number(JsonNumber::from_written(t.clone())),
            ParsedJson::String(s) => JsonValue::String(s.clone()),
            ParsedJson::Array(items) => {
                proof {
                    lemma_parsed_items(items@);
                }
                let mut out: Vec<JsonValue> = Vec::new();
                let mut i: usize = 0;
                while i < items.len()
                    invariant
                        *p == ParsedJson::Array(*items),
                        forall|j: int| 0 <= j < items@.len() ==> #[trigger] parsed_wf(items@[j]),
                        i <= items@.len(),
                        out@.len() == i,
                        forall|j: int| 0 <= j < i ==> #[trigger] out@[j].data() == parsed_data(items@[j]),
                    decreases items@.len() - i,
                {
                    proof {
                        vstd::std_specs::vec::axiom_vec_index_decreases(*items, i as int);
                        assert(decreases_to!(*p => p->Array_0));
                    }
                    let v = JsonValue::from_parsed(&items[i]);
                    out.push(v);
                    i = i + 1;
                }
                proof {
                    lemma_values_data(out@);
                    assert(values_data(out@) =~= parsed_items(items@));
                }
                JsonValue::Array(out)
            },
            ParsedJson::Object(members) => {
                proof {
                    lemma_parsed_members(members@);
                }
                let mut entries: Vec<(String, JsonValue)> = Vec::new();
                let mut i: usize = 0;
                while i < members.len()
                    invariant
                        *p == ParsedJson::Object(*members),
                        forall|j: int| 0 <= j < members@.len() ==> #[trigger] parsed_wf(members@[j].1),
                        i <= members@.len(),
                        entries@.len() == i,
                        forall|j: int|
                            0 <= j < i ==> (#[trigger] entries@[j]).0@ == members@[j].0@ && entries@[j].1.data() == parsed_data(members@[j].1),
                    decreases members@.len() - i,
                {
                    proof {
                        vstd::std_specs::vec::axiom_vec_index_decreases(*members, i as int);
                        assert(decreases_to!(*p => p->Object_0));
                        assert(decreases_to!(members@[i as int] => members@[i as int].1));
                    }
                    let v = JsonValue::from_parsed(&members[i].1);
                    entries.push((members[i].0.clone(), v));
                    i = i + 1;
                }
                proof {
                    lemma_entries_data(entries@);
                    assert(entries_data(entries@) =~= parsed_members(members@));
                }
                JsonValue::Object(JsonMap::from_entries(entries))
            },
        }
    }
}

} // verus!
