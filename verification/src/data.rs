//! Data attached to tasks: values keyed by name, each key carrying the
//! tags written into it (`"request_id #dontprint"`).

use vstd::prelude::*;
use crate::sorted::{
    insert_sorted_v, keys_sorted, keys_sorted_v, lemma_insert_sorted_v_law, lemma_insert_view,
    lemma_lookup_view, lemma_sorted_view, lookup_v, merge_v, sorted_get, sorted_insert,
    str_views, strs_sorted, view_entries,
};
use crate::strs::{int_decimal, push_i64};
use crate::tags::{extract_tags, name_part, tag_list};

verus! {

/// A floating-point value, held as its IEEE-754 bits and the text its
/// `Display` gives.
pub struct FloatValue {
    pub bits: u64,
    pub text: String,
}

/// A piece of task data.
pub enum DataValue {
    String(String),
    Int(i64),
    Float(FloatValue),
    NoValue,
}

/// What a `DataValue` holds, by views.
pub enum DataValueView {
    String(Seq<char>),
    Int(int),
    Float(u64, Seq<char>),
    NoValue,
}

impl DataValue {
    pub open spec fn view(&self) -> DataValueView {
        match self {
            DataValue::String(s) => DataValueView::String(s@),
            DataValue::Int(i) => DataValueView::Int(*i as int),
            DataValue::Float(f) => DataValueView::Float(f.bits, f.text@),
            DataValue::NoValue => DataValueView::NoValue,
        }
    }

    /// A copy of the value.
    pub fn copy(&self) -> (r: DataValue)
        ensures
            r@ == self@,
    {
        match self {
            DataValue::String(s) => DataValue::String(s.clone()),
            DataValue::Int(i) => DataValue::Int(*i),
            DataValue::Float(f) => DataValue::Float(FloatValue { bits: f.bits, text: f.text.clone() }),
            DataValue::NoValue => DataValue::NoValue,
        }
    }

    /// The text of the value as it is printed (its `Display`).
    pub fn to_display_string(&self) -> (r: String)
        ensures
            r@ == value_text(self@),
    {
        match self {
            DataValue::String(s) => s.clone(),
            DataValue::Int(i) => {
                let mut r = String::new();
                push_i64(&mut r, *i);
                r
            },
            DataValue::Float(f) => f.text.clone(),
            DataValue::NoValue => String::from_str("None"),
        }
    }
}

/// The printed text of a value.
pub open spec fn value_text(v: DataValueView) -> Seq<char> {
    match v {
        DataValueView::String(s) => s,
        DataValueView::Int(i) => int_decimal(i),
        DataValueView::Float(_, t) => t,
        DataValueView::NoValue => "None"@,
    }
}

/// A value with the tags of its key.
pub struct DataEntry(pub DataValue, pub Vec<String>);

/// What an entry holds, by views: the value and the key's tags.
pub type DataEntryView = (DataValueView, Seq<Seq<char>>);

impl DataEntry {
    pub open spec fn view(&self) -> DataEntryView {
        (self.0@, str_views(self.1@))
    }

    pub open spec fn wf(&self) -> bool {
        strs_sorted(self.1@)
    }

    /// A copy of the entry.
    pub fn copy(&self) -> (r: DataEntry)
        ensures
            r@ == self@,
            r.1@ == self.1@,
    {
        DataEntry(self.0.copy(), clone_strings(&self.1))
    }

    /// Whether the entry's key carries `tag`.
    pub fn has_tag(&self, tag: &str) -> (r: bool)
        ensures
            r == self@.1.contains(tag@),
    {
        crate::sorted::str_contains(&self.1, tag)
    }
}

/// A copy of a vector of strings.
pub fn clone_strings(v: &Vec<String>) -> (r: Vec<String>)
    ensures
        r@ == v@,
{
    let mut r: Vec<String> = Vec::new();
    let n = v.len();
    let mut i: usize = 0;
    while i < n
        invariant
            n == v@.len(),
            i <= n,
            r@ == v@.take(i as int),
        decreases n - i,
    {
        r.push(v[i].clone());
        assert(r@ =~= v@.take(i + 1));
        i = i + 1;
    }
    assert(v@.take(n as int) =~= v@);
    r
}

pub open spec fn entry_view(e: DataEntry) -> DataEntryView {
    e@
}

/// Data keyed by name, in key order.
pub struct Data {
    pub map: Vec<(String, DataEntry)>,
}

/// What data holds: its entries by views, in key order.
pub type DataView = Seq<(Seq<char>, DataEntryView)>;

impl Data {
    pub open spec fn view(&self) -> DataView {
        view_entries(self.map@, |e: DataEntry| entry_view(e))
    }

    /// Keys are in strictly increasing order and each entry's tags are too.
    pub open spec fn wf(&self) -> bool {
        &&& keys_sorted(self.map@)
        &&& forall|i: int| 0 <= i < self.map@.len() ==> (#[trigger] self.map@[i]).1.wf()
    }

    /// No data.
    pub fn empty() -> (r: Data)
        ensures
            r.wf(),
            r@ == Seq::<(Seq<char>, DataEntryView)>::empty(),
    {
        let r = Data { map: Vec::new() };
        assert(r@ =~= Seq::<(Seq<char>, DataEntryView)>::empty());
        r
    }

    /// Sets `key` to `value`. The key is parsed as a tagged name: its name
    /// part is the key and its tags go with the value.
    pub fn add(&mut self, key: &str, value: DataValue)
        requires
            old(self).wf(),
        ensures
            final(self).wf(),
            final(self)@ == insert_sorted_v(old(self)@, name_part(key@), (value@, tag_list(key@))),
    {
        let (k, tags) = extract_tags(key);
        let ghost tv = str_views(tags@);
        let ghost vv = value@;
        let entry = DataEntry(value, tags);
        let ghost f = |e: DataEntry| entry_view(e);
        proof {
            lemma_insert_view(self.map@, k, entry, f);
            crate::sorted::lemma_insert_sorted_keeps_order(self.map@, k, entry);
        }
        let ghost old_map = self.map@;
        proof {
            crate::sorted::lemma_insert_sorted_elements(self.map@, k, entry);
        }
        sorted_insert(&mut self.map, k, entry);
        proof {
            assert forall|i: int| 0 <= i < self.map@.len() implies (#[trigger] self.map@[i]).1.wf() by {
                if self.map@[i] != (k, entry) {
                    let j = choose|j: int| 0 <= j < old_map.len() && old_map[j] == self.map@[i];
                }
            }
            assert(entry_view(entry) == (vv, tv));
            assert(self@ == insert_sorted_v(old(self)@, name_part(key@), (vv, tv)));
        }
    }

    /// The value stored under `key`, if any.
    pub fn get(&self, key: &str) -> (r: Option<&DataEntry>)
        ensures
            match r {
                Some(e) => lookup_v(self@, key@) == Some(e@),
                None => lookup_v(self@, key@) is None,
            },
    {
        let ghost f = |e: DataEntry| entry_view(e);
        proof {
            lemma_lookup_view(self.map@, key@, f);
        }
        sorted_get(&self.map, key)
    }

    /// Copies every entry of `other` into `self`; entries of `other` replace
    /// entries of `self` with the same key.
    pub fn merge(&mut self, other: &Data)
        requires
            old(self).wf(),
            other.wf(),
        ensures
            final(self).wf(),
            final(self)@ == merge_v(old(self)@, other@),
    {
        let ghost f = |e: DataEntry| entry_view(e);
        let ghost start = self@;
        let n = other.map.len();
        let mut i: usize = 0;
        while i < n
            invariant
                n == other.map@.len(),
                i <= n,
                other.wf(),
                self.wf(),
                self@ == merge_v(start, other@.take(i as int)),
                f == (|e: DataEntry| entry_view(e)),
            decreases n - i,
        {
            let k = other.map[i].0.clone();
            let e = other.map[i].1.copy();
            proof {
                lemma_insert_view(self.map@, k, e, f);
                crate::sorted::lemma_insert_sorted_keeps_order(self.map@, k, e);
                assert(other@.take(i + 1).drop_last() =~= other@.take(i as int));
                assert(other@.take(i + 1).last() == other@[i as int]);
                assert(other@[i as int] == (k@, e@));
                assert(other.map@[i as int].1.wf());
            }
            let ghost old_map = self.map@;
            proof {
                crate::sorted::lemma_insert_sorted_elements(self.map@, k, e);
            }
            sorted_insert(&mut self.map, k, e);
            proof {
                assert forall|j: int| 0 <= j < self.map@.len() implies (#[trigger] self.map@[j]).1.wf() by {
                    if self.map@[j] != (k, e) {
                        let q = choose|q: int| 0 <= q < old_map.len() && old_map[q] == self.map@[j];
                    }
                }
            }
            i = i + 1;
        }
        assert(other@.take(n as int) =~= other@);
    }

    /// A copy of the data.
    pub fn copy(&self) -> (r: Data)
        ensures
            r.wf() == self.wf(),
            r@ == self@,
    {
        let mut map: Vec<(String, DataEntry)> = Vec::new();
        let n = self.map.len();
        let mut i: usize = 0;
        while i < n
            invariant
                n == self.map@.len(),
                i <= n,
                map@.len() == i,
                forall|j: int| 0 <= j < i ==> (#[trigger] map@[j]).0 == self.map@[j].0
                    && map@[j].1@ == self.map@[j].1@ && map@[j].1.1@ == self.map@[j].1.1@,
            decreases n - i,
        {
            let k = self.map[i].0.clone();
            let e = self.map[i].1.copy();
            map.push((k, e));
            i = i + 1;
        }
        let r = Data { map };
        assert(r@ =~= self@);
        proof {
            if self.wf() {
                assert forall|a: int, b: int| 0 <= a < b < r.map@.len() implies crate::strs::chars_lt(#[trigger] r.map@[a].0@, #[trigger] r.map@[b].0@) by {
                    assert(r.map@[a].0 == self.map@[a].0);
                    assert(r.map@[b].0 == self.map@[b].0);
                }
                assert forall|j: int| 0 <= j < r.map@.len() implies (#[trigger] r.map@[j]).1.wf() by {
                    assert(self.map@[j].1.wf());
                }
            }
            if r.wf() {
                assert forall|a: int, b: int| 0 <= a < b < self.map@.len() implies crate::strs::chars_lt(#[trigger] self.map@[a].0@, #[trigger] self.map@[b].0@) by {
                    assert(r.map@[a].0 == self.map@[a].0);
                    assert(r.map@[b].0 == self.map@[b].0);
                }
                assert forall|j: int| 0 <= j < self.map@.len() implies (#[trigger] self.map@[j]).1.wf() by {
                    assert(r.map@[j].1.wf());
                }
            }
        }
        r
    }
}

/// Data values are looked up by key; a key present in both `data` and
/// `transitive` takes its value from `transitive`.
pub open spec fn all_data_lookup(data: DataView, transitive: DataView, k: Seq<char>) -> Option<DataEntryView> {
    match lookup_v(transitive, k) {
        Some(e) => Some(e),
        None => lookup_v(data, k),
    }
}

/// The data laws: after `add`, looking up the added key gives the added
/// value and other keys are unchanged; merged data takes each key from the
/// merged-in data where present.
pub proof fn law_data_add_lookup(d: DataView, key: Seq<char>, v: DataEntryView, other: Seq<char>)
    requires
        keys_sorted_v(d),
    ensures
        keys_sorted_v(insert_sorted_v(d, key, v)),
        lookup_v(insert_sorted_v(d, key, v), key) == Some(v),
        other != key ==> lookup_v(insert_sorted_v(d, key, v), other) == lookup_v(d, other),
{
    lemma_insert_sorted_v_law(d, key, v);
}

/// Data views of well-formed data are key-ordered.
pub proof fn lemma_data_view_sorted(d: &Data)
    requires
        d.wf(),
    ensures
        keys_sorted_v(d@),
{
    lemma_sorted_view(d.map@, |e: DataEntry| entry_view(e));
}

} // verus!
