//! Collections keyed by strings and kept in string order: the entries of a
//! task's data and the tags of a task or a data key. Insertion replaces an
//! entry with an equal key and otherwise places the new one at its sorted
//! position, so walking the vector visits keys in increasing order.

use vstd::prelude::*;
use crate::strs::{chars_lt, lemma_chars_lt_irreflexive, lemma_chars_lt_total, lemma_chars_lt_transitive, str_eq, str_lt};

verus! {

/// Keys strictly increase along the sequence (hence are unique).
pub open spec fn keys_sorted<V>(s: Seq<(String, V)>) -> bool {
    forall|i: int, j: int| 0 <= i < j < s.len() ==> chars_lt(#[trigger] s[i].0@, #[trigger] s[j].0@)
}

/// Strings strictly increase along the sequence (hence are unique).
pub open spec fn strs_sorted(s: Seq<String>) -> bool {
    forall|i: int, j: int| 0 <= i < j < s.len() ==> chars_lt(#[trigger] s[i]@, #[trigger] s[j]@)
}

/// Number of leading entries whose key comes before `k`.
pub open spec fn lower_bound<V>(s: Seq<(String, V)>, k: Seq<char>) -> nat
    decreases s.len(),
{
    if s.len() == 0 {
        0
    } else if chars_lt(s[0].0@, k) {
        1 + lower_bound(s.drop_first(), k)
    } else {
        0
    }
}

/// Number of leading strings that come before `k`.
pub open spec fn str_lower_bound(s: Seq<String>, k: Seq<char>) -> nat
    decreases s.len(),
{
    if s.len() == 0 {
        0
    } else if chars_lt(s[0]@, k) {
        1 + str_lower_bound(s.drop_first(), k)
    } else {
        0
    }
}

/// The entries after inserting `(k, v)`: an entry with an equal key is
/// replaced, otherwise the new entry goes before the first larger key.
pub open spec fn insert_sorted<V>(s: Seq<(String, V)>, k: String, v: V) -> Seq<(String, V)> {
    let p = lower_bound(s, k@) as int;
    if p < s.len() && s[p].0@ == k@ {
        s.update(p, (k, v))
    } else {
        s.insert(p, (k, v))
    }
}

/// The strings after adding `k`; an equal string is replaced.
pub open spec fn str_insert_sorted(s: Seq<String>, k: String) -> Seq<String> {
    let p = str_lower_bound(s, k@) as int;
    if p < s.len() && s[p]@ == k@ {
        s.update(p, k)
    } else {
        s.insert(p, k)
    }
}

/// The value of the first entry whose key equals `k`.
pub open spec fn lookup<V>(s: Seq<(String, V)>, k: Seq<char>) -> Option<V>
    decreases s.len(),
{
    if s.len() == 0 {
        None
    } else if s[0].0@ == k {
        Some(s[0].1)
    } else {
        lookup(s.drop_first(), k)
    }
}

/// The strings as character sequences.
pub open spec fn str_views(s: Seq<String>) -> Seq<Seq<char>> {
    s.map_values(|e: String| e@)
}

proof fn lemma_lower_bound_props<V>(s: Seq<(String, V)>, k: Seq<char>)
    ensures
        lower_bound(s, k) <= s.len(),
        forall|i: int| 0 <= i < lower_bound(s, k) ==> chars_lt(#[trigger] s[i].0@, k),
        lower_bound(s, k) < s.len() ==> !chars_lt(s[lower_bound(s, k) as int].0@, k),
    decreases s.len(),
{
    if s.len() > 0 && chars_lt(s[0].0@, k) {
        lemma_lower_bound_props(s.drop_first(), k);
        assert forall|i: int| 0 <= i < lower_bound(s, k) implies chars_lt(#[trigger] s[i].0@, k) by {
            if i > 0 {
                assert(s[i] == s.drop_first()[i - 1]);
            }
        }
    }
}

proof fn lemma_str_lower_bound_props(s: Seq<String>, k: Seq<char>)
    ensures
        str_lower_bound(s, k) <= s.len(),
        forall|i: int| 0 <= i < str_lower_bound(s, k) ==> chars_lt(#[trigger] s[i]@, k),
        str_lower_bound(s, k) < s.len() ==> !chars_lt(s[str_lower_bound(s, k) as int]@, k),
    decreases s.len(),
{
    if s.len() > 0 && chars_lt(s[0]@, k) {
        lemma_str_lower_bound_props(s.drop_first(), k);
        assert forall|i: int| 0 <= i < str_lower_bound(s, k) implies chars_lt(#[trigger] s[i]@, k) by {
            if i > 0 {
                assert(s[i] == s.drop_first()[i - 1]);
            }
        }
    }
}

proof fn lemma_lower_bound_of_prefix<V>(s: Seq<(String, V)>, k: Seq<char>, p: int)
    requires
        0 <= p <= s.len(),
        forall|i: int| 0 <= i < p ==> chars_lt(#[trigger] s[i].0@, k),
        p < s.len() ==> !chars_lt(s[p].0@, k),
    ensures
        lower_bound(s, k) == p,
    decreases p,
{
    if p > 0 {
        assert(chars_lt(s[0].0@, k));
        assert forall|i: int| 0 <= i < p - 1 implies chars_lt(#[trigger] s.drop_first()[i].0@, k) by {
            assert(s.drop_first()[i] == s[i + 1]);
        }
        if p - 1 < s.drop_first().len() {
            assert(s.drop_first()[p - 1] == s[p]);
        }
        lemma_lower_bound_of_prefix(s.drop_first(), k, p - 1);
    }
}

proof fn lemma_str_lower_bound_of_prefix(s: Seq<String>, k: Seq<char>, p: int)
    requires
        0 <= p <= s.len(),
        forall|i: int| 0 <= i < p ==> chars_lt(#[trigger] s[i]@, k),
        p < s.len() ==> !chars_lt(s[p]@, k),
    ensures
        str_lower_bound(s, k) == p,
    decreases p,
{
    if p > 0 {
        assert(chars_lt(s[0]@, k));
        assert forall|i: int| 0 <= i < p - 1 implies chars_lt(#[trigger] s.drop_first()[i]@, k) by {
            assert(s.drop_first()[i] == s[i + 1]);
        }
        if p - 1 < s.drop_first().len() {
            assert(s.drop_first()[p - 1] == s[p]);
        }
        lemma_str_lower_bound_of_prefix(s.drop_first(), k, p - 1);
    }
}

/// Inserting into a sorted sequence keeps it sorted.
pub proof fn lemma_insert_sorted_keeps_order<V>(s: Seq<(String, V)>, k: String, v: V)
    requires
        keys_sorted(s),
    ensures
        keys_sorted(insert_sorted(s, k, v)),
{
    lemma_lower_bound_props(s, k@);
    let p = lower_bound(s, k@) as int;
    let r = insert_sorted(s, k, v);
    if p < s.len() && s[p].0@ == k@ {
        assert forall|i: int, j: int| 0 <= i < j < r.len() implies chars_lt(#[trigger] r[i].0@, #[trigger] r[j].0@) by {
            assert(r[i].0@ == s[i].0@);
            assert(r[j].0@ == s[j].0@);
        }
    } else {
        if p < s.len() {
            lemma_chars_lt_total(s[p].0@, k@);
        }
        assert forall|i: int, j: int| 0 <= i < j < r.len() implies chars_lt(#[trigger] r[i].0@, #[trigger] r[j].0@) by {
            if j < p {
            } else if j == p {
            } else if i < p {
                assert(r[j] == s[j - 1]);
                if j - 1 > p {
                    lemma_chars_lt_transitive(s[i].0@, s[p].0@, s[j - 1].0@);
                }
            } else if i == p {
                assert(r[j] == s[j - 1]);
                if j - 1 > p {
                    lemma_chars_lt_transitive(k@, s[p].0@, s[j - 1].0@);
                }
            } else {
                assert(r[i] == s[i - 1]);
                assert(r[j] == s[j - 1]);
            }
        }
    }
}

/// Adding to a sorted sequence of strings keeps it sorted.
pub proof fn lemma_str_insert_sorted_keeps_order(s: Seq<String>, k: String)
    requires
        strs_sorted(s),
    ensures
        strs_sorted(str_insert_sorted(s, k)),
{
    lemma_str_lower_bound_props(s, k@);
    let p = str_lower_bound(s, k@) as int;
    let r = str_insert_sorted(s, k);
    if p < s.len() && s[p]@ == k@ {
        assert forall|i: int, j: int| 0 <= i < j < r.len() implies chars_lt(#[trigger] r[i]@, #[trigger] r[j]@) by {
            assert(r[i]@ == s[i]@);
            assert(r[j]@ == s[j]@);
        }
    } else {
        if p < s.len() {
            lemma_chars_lt_total(s[p]@, k@);
        }
        assert forall|i: int, j: int| 0 <= i < j < r.len() implies chars_lt(#[trigger] r[i]@, #[trigger] r[j]@) by {
            if j < p {
            } else if j == p {
            } else if i < p {
                assert(r[j] == s[j - 1]);
                if j - 1 > p {
                    lemma_chars_lt_transitive(s[i]@, s[p]@, s[j - 1]@);
                }
            } else if i == p {
                assert(r[j] == s[j - 1]);
                if j - 1 > p {
                    lemma_chars_lt_transitive(k@, s[p]@, s[j - 1]@);
                }
            } else {
                assert(r[i] == s[i - 1]);
                assert(r[j] == s[j - 1]);
            }
        }
    }
}

/// Inserts `(k, v)` in key order, replacing an entry with an equal key.
pub fn sorted_insert<V>(v: &mut Vec<(String, V)>, k: String, val: V)
    ensures
        final(v)@ == insert_sorted(old(v)@, k, val),
{
    let n = v.len();
    let mut p: usize = 0;
    while p < n && str_lt(v[p].0.as_str(), k.as_str())
        invariant
            n == v@.len(),
            p <= n,
            v@ == old(v)@,
            forall|i: int| 0 <= i < p ==> chars_lt(#[trigger] v@[i].0@, k@),
        decreases n - p,
    {
        p = p + 1;
    }
    proof {
        lemma_lower_bound_of_prefix(v@, k@, p as int);
    }
    if p < n && str_eq(v[p].0.as_str(), k.as_str()) {
        v.set(p, (k, val));
    } else {
        v.insert(p, (k, val));
    }
}

/// Adds `k` in string order, replacing an equal string.
pub fn str_sorted_insert(v: &mut Vec<String>, k: String)
    ensures
        final(v)@ == str_insert_sorted(old(v)@, k),
{
    let n = v.len();
    let mut p: usize = 0;
    while p < n && str_lt(v[p].as_str(), k.as_str())
        invariant
            n == v@.len(),
            p <= n,
            v@ == old(v)@,
            forall|i: int| 0 <= i < p ==> chars_lt(#[trigger] v@[i]@, k@),
        decreases n - p,
    {
        p = p + 1;
    }
    proof {
        lemma_str_lower_bound_of_prefix(v@, k@, p as int);
    }
    if p < n && str_eq(v[p].as_str(), k.as_str()) {
        v.set(p, k);
    } else {
        v.insert(p, k);
    }
}

/// The value stored under the first key equal to `k`.
pub fn sorted_get<'a, V>(v: &'a Vec<(String, V)>, k: &str) -> (r: Option<&'a V>)
    ensures
        match r {
            Some(x) => lookup(v@, k@) == Some(*x),
            None => lookup(v@, k@) is None,
        },
{
    let n = v.len();
    let mut i: usize = 0;
    assert(v@.skip(0) =~= v@);
    while i < n
        invariant
            n == v@.len(),
            i <= n,
            lookup(v@, k@) == lookup(v@.skip(i as int), k@),
        decreases n - i,
    {
        assert(v@.skip(i as int)[0] == v@[i as int]);
        assert(v@.skip(i as int).drop_first() =~= v@.skip(i + 1));
        if str_eq(v[i].0.as_str(), k) {
            return Some(&v[i].1);
        }
        i = i + 1;
    }
    None
}

/// Whether some string in `v` equals `k`.
pub fn str_contains(v: &Vec<String>, k: &str) -> (r: bool)
    ensures
        r == str_views(v@).contains(k@),
{
    let n = v.len();
    let mut i: usize = 0;
    while i < n
        invariant
            n == v@.len(),
            i <= n,
            forall|j: int| 0 <= j < i ==> v@[j]@ != k@,
        decreases n - i,
    {
        if str_eq(v[i].as_str(), k) {
            assert(str_views(v@)[i as int] == k@);
            return true;
        }
        i = i + 1;
    }
    assert forall|j: int| 0 <= j < str_views(v@).len() implies str_views(v@)[j] != k@ by {
        assert(str_views(v@)[j] == v@[j]@);
    }
    false
}

} // verus!

verus! {

/// Adding `k` to a string sequence adds exactly `k` to what it contains.
pub proof fn lemma_str_insert_contains(s: Seq<String>, k: String, t: Seq<char>)
    ensures
        str_views(str_insert_sorted(s, k)).contains(t) <==> (str_views(s).contains(t) || t == k@),
{
    lemma_str_lower_bound_props(s, k@);
    let p = str_lower_bound(s, k@) as int;
    let r = str_insert_sorted(s, k);
    if str_views(s).contains(t) {
        let j = choose|j: int| 0 <= j < str_views(s).len() && str_views(s)[j] == t;
        if p < s.len() && s[p]@ == k@ {
            if j == p {
                assert(str_views(r)[p] == t);
            } else {
                assert(str_views(r)[j] == t);
            }
        } else {
            if j < p {
                assert(str_views(r)[j] == t);
            } else {
                assert(r[j + 1] == s[j]);
                assert(str_views(r)[j + 1] == t);
            }
        }
    }
    if t == k@ {
        assert(r[p] == k);
        assert(str_views(r)[p] == t);
    }
    if str_views(r).contains(t) {
        let j = choose|j: int| 0 <= j < str_views(r).len() && str_views(r)[j] == t;
        if p < s.len() && s[p]@ == k@ {
            if j != p {
                assert(str_views(s)[j] == t);
            }
        } else {
            if j < p {
                assert(str_views(s)[j] == t);
            } else if j > p {
                assert(r[j] == s[j - 1]);
                assert(str_views(s)[j - 1] == t);
            }
        }
    }
}

} // verus!

verus! {

/// Keys strictly increase along the sequence.
pub open spec fn keys_sorted_v<W>(s: Seq<(Seq<char>, W)>) -> bool {
    forall|i: int, j: int| 0 <= i < j < s.len() ==> chars_lt(#[trigger] s[i].0, #[trigger] s[j].0)
}

pub open spec fn lower_bound_v<W>(s: Seq<(Seq<char>, W)>, k: Seq<char>) -> nat
    decreases s.len(),
{
    if s.len() == 0 {
        0
    } else if chars_lt(s[0].0, k) {
        1 + lower_bound_v(s.drop_first(), k)
    } else {
        0
    }
}

/// Inserting into a key-ordered map held as a sequence: an entry with an
/// equal key is replaced, otherwise the entry goes before the first larger key.
pub open spec fn insert_sorted_v<W>(s: Seq<(Seq<char>, W)>, k: Seq<char>, w: W) -> Seq<(Seq<char>, W)> {
    let p = lower_bound_v(s, k) as int;
    if p < s.len() && s[p].0 == k {
        s.update(p, (k, w))
    } else {
        s.insert(p, (k, w))
    }
}

/// The value of the first entry whose key is `k`.
pub open spec fn lookup_v<W>(s: Seq<(Seq<char>, W)>, k: Seq<char>) -> Option<W>
    decreases s.len(),
{
    if s.len() == 0 {
        None
    } else if s[0].0 == k {
        Some(s[0].1)
    } else {
        lookup_v(s.drop_first(), k)
    }
}

/// Inserting each entry of `o`, in order, into `s`.
pub open spec fn merge_v<W>(s: Seq<(Seq<char>, W)>, o: Seq<(Seq<char>, W)>) -> Seq<(Seq<char>, W)>
    decreases o.len(),
{
    if o.len() == 0 {
        s
    } else {
        insert_sorted_v(merge_v(s, o.drop_last()), o.last().0, o.last().1)
    }
}

/// The entries with their keys and values taken by views.
pub open spec fn view_entries<V, W>(s: Seq<(String, V)>, f: spec_fn(V) -> W) -> Seq<(Seq<char>, W)> {
    s.map_values(|e: (String, V)| (e.0@, f(e.1)))
}

proof fn lemma_lower_bound_view<V, W>(s: Seq<(String, V)>, k: Seq<char>, f: spec_fn(V) -> W)
    ensures
        lower_bound(s, k) == lower_bound_v(view_entries(s, f), k),
    decreases s.len(),
{
    if s.len() > 0 {
        assert(view_entries(s.drop_first(), f) =~= view_entries(s, f).drop_first());
        lemma_lower_bound_view(s.drop_first(), k, f);
    }
}

/// Taking views commutes with insertion.
pub proof fn lemma_insert_view<V, W>(s: Seq<(String, V)>, k: String, v: V, f: spec_fn(V) -> W)
    ensures
        view_entries(insert_sorted(s, k, v), f) == insert_sorted_v(view_entries(s, f), k@, f(v)),
{
    lemma_lower_bound_view(s, k@, f);
    let p = lower_bound(s, k@) as int;
    lemma_lower_bound_props(s, k@);
    if p < s.len() && s[p].0@ == k@ {
        assert(view_entries(insert_sorted(s, k, v), f) =~= view_entries(s, f).update(p, (k@, f(v))));
    } else {
        assert(view_entries(insert_sorted(s, k, v), f) =~= view_entries(s, f).insert(p, (k@, f(v))));
    }
}

/// Taking views commutes with lookup.
pub proof fn lemma_lookup_view<V, W>(s: Seq<(String, V)>, k: Seq<char>, f: spec_fn(V) -> W)
    ensures
        lookup_v(view_entries(s, f), k) == (match lookup(s, k) {
            Some(v) => Some(f(v)),
            None => None,
        }),
    decreases s.len(),
{
    if s.len() > 0 {
        assert(view_entries(s.drop_first(), f) =~= view_entries(s, f).drop_first());
        lemma_lookup_view(s.drop_first(), k, f);
    }
}

/// Taking views keeps key order.
pub proof fn lemma_sorted_view<V, W>(s: Seq<(String, V)>, f: spec_fn(V) -> W)
    ensures
        keys_sorted(s) <==> keys_sorted_v(view_entries(s, f)),
{
    let t = view_entries(s, f);
    if keys_sorted(s) {
        assert forall|i: int, j: int| 0 <= i < j < t.len() implies chars_lt(#[trigger] t[i].0, #[trigger] t[j].0) by {
            assert(t[i].0 == s[i].0@);
            assert(t[j].0 == s[j].0@);
        }
    }
    if keys_sorted_v(t) {
        assert forall|i: int, j: int| 0 <= i < j < s.len() implies chars_lt(#[trigger] s[i].0@, #[trigger] s[j].0@) by {
            assert(t[i].0 == s[i].0@);
            assert(t[j].0 == s[j].0@);
        }
    }
}

proof fn lemma_lower_bound_v_props<W>(s: Seq<(Seq<char>, W)>, k: Seq<char>)
    ensures
        lower_bound_v(s, k) <= s.len(),
        forall|i: int| 0 <= i < lower_bound_v(s, k) ==> chars_lt(#[trigger] s[i].0, k),
        lower_bound_v(s, k) < s.len() ==> !chars_lt(s[lower_bound_v(s, k) as int].0, k),
    decreases s.len(),
{
    if s.len() > 0 && chars_lt(s[0].0, k) {
        lemma_lower_bound_v_props(s.drop_first(), k);
        assert forall|i: int| 0 <= i < lower_bound_v(s, k) implies chars_lt(#[trigger] s[i].0, k) by {
            if i > 0 {
                assert(s[i] == s.drop_first()[i - 1]);
            }
        }
    }
}

proof fn lemma_lookup_v_index<W>(s: Seq<(Seq<char>, W)>, k: Seq<char>, i: int)
    requires
        keys_sorted_v(s),
        0 <= i < s.len(),
        s[i].0 == k,
    ensures
        lookup_v(s, k) == Some(s[i].1),
    decreases s.len(),
{
    if i > 0 {
        if s[0].0 == k {
            lemma_chars_lt_irreflexive(k);
        }
        assert(s.drop_first()[i - 1] == s[i]);
        lemma_lookup_v_index(s.drop_first(), k, i - 1);
    }
}

proof fn lemma_lookup_v_absent<W>(s: Seq<(Seq<char>, W)>, k: Seq<char>)
    requires
        forall|i: int| 0 <= i < s.len() ==> #[trigger] s[i].0 != k,
    ensures
        lookup_v(s, k) is None,
    decreases s.len(),
{
    if s.len() > 0 {
        assert forall|i: int| 0 <= i < s.drop_first().len() implies #[trigger] s.drop_first()[i].0 != k by {
            assert(s.drop_first()[i] == s[i + 1]);
        }
        lemma_lookup_v_absent(s.drop_first(), k);
    }
}

proof fn lemma_lookup_v_found<W>(s: Seq<(Seq<char>, W)>, k: Seq<char>)
    requires
        lookup_v(s, k) is Some,
    ensures
        exists|i: int| 0 <= i < s.len() && #[trigger] s[i].0 == k && lookup_v(s, k) == Some(s[i].1),
    decreases s.len(),
{
    if s[0].0 != k {
        lemma_lookup_v_found(s.drop_first(), k);
        let i = choose|i: int| 0 <= i < s.drop_first().len() && #[trigger] s.drop_first()[i].0 == k
            && lookup_v(s.drop_first(), k) == Some(s.drop_first()[i].1);
        assert(s[i + 1] == s.drop_first()[i]);
    }
}

/// Inserting keeps a key-ordered sequence ordered, makes `k` map to `w`,
/// and leaves every other key's value as it was.
pub proof fn lemma_insert_sorted_v_law<W>(s: Seq<(Seq<char>, W)>, k: Seq<char>, w: W)
    requires
        keys_sorted_v(s),
    ensures
        keys_sorted_v(insert_sorted_v(s, k, w)),
        lookup_v(insert_sorted_v(s, k, w), k) == Some(w),
        forall|k2: Seq<char>| k2 != k ==> #[trigger] lookup_v(insert_sorted_v(s, k, w), k2) == lookup_v(s, k2),
{
    lemma_lower_bound_v_props(s, k);
    let p = lower_bound_v(s, k) as int;
    let r = insert_sorted_v(s, k, w);
    if p < s.len() && s[p].0 == k {
        assert forall|i: int, j: int| 0 <= i < j < r.len() implies chars_lt(#[trigger] r[i].0, #[trigger] r[j].0) by {
            assert(r[i].0 == s[i].0);
            assert(r[j].0 == s[j].0);
        }
    } else {
        if p < s.len() {
            lemma_chars_lt_total(s[p].0, k);
        }
        assert forall|i: int, j: int| 0 <= i < j < r.len() implies chars_lt(#[trigger] r[i].0, #[trigger] r[j].0) by {
            if j < p {
            } else if j == p {
            } else if i < p {
                assert(r[j] == s[j - 1]);
                if j - 1 > p {
                    lemma_chars_lt_transitive(s[i].0, s[p].0, s[j - 1].0);
                }
            } else if i == p {
                assert(r[j] == s[j - 1]);
                if j - 1 > p {
                    lemma_chars_lt_transitive(k, s[p].0, s[j - 1].0);
                }
            } else {
                assert(r[i] == s[i - 1]);
                assert(r[j] == s[j - 1]);
            }
        }
    }
    assert(r[p] == (k, w));
    lemma_lookup_v_index(r, k, p);
    assert forall|k2: Seq<char>| k2 != k implies #[trigger] lookup_v(r, k2) == lookup_v(s, k2) by {
        if lookup_v(s, k2) is Some {
            lemma_lookup_v_found(s, k2);
            let i = choose|i: int| 0 <= i < s.len() && #[trigger] s[i].0 == k2 && lookup_v(s, k2) == Some(s[i].1);
            if p < s.len() && s[p].0 == k {
                assert(r[i] == s[i]);
                lemma_lookup_v_index(r, k2, i);
            } else if i < p {
                assert(r[i] == s[i]);
                lemma_lookup_v_index(r, k2, i);
            } else {
                assert(r[i + 1] == s[i]);
                lemma_lookup_v_index(r, k2, i + 1);
            }
        } else {
            if exists|i: int| 0 <= i < r.len() && #[trigger] r[i].0 == k2 {
                let i = choose|i: int| 0 <= i < r.len() && #[trigger] r[i].0 == k2;
                if p < s.len() && s[p].0 == k {
                    assert(r[i] == s[i]);
                    lemma_lookup_v_index(s, k2, i);
                } else if i < p {
                    assert(r[i] == s[i]);
                    lemma_lookup_v_index(s, k2, i);
                } else {
                    assert(r[i] == s[i - 1]);
                    lemma_lookup_v_index(s, k2, i - 1);
                }
            }
            lemma_lookup_v_absent(r, k2);
        }
    }
}

/// Merging `o` into `s` keeps `s` ordered; a key of `o` maps to its value
/// in `o`, any other key keeps its value in `s`.
pub proof fn lemma_merge_v_law<W>(s: Seq<(Seq<char>, W)>, o: Seq<(Seq<char>, W)>, k: Seq<char>)
    requires
        keys_sorted_v(s),
        keys_sorted_v(o),
    ensures
        keys_sorted_v(merge_v(s, o)),
        lookup_v(merge_v(s, o), k) == (match lookup_v(o, k) {
            Some(w) => Some(w),
            None => lookup_v(s, k),
        }),
    decreases o.len(),
{
    if o.len() > 0 {
        let o2 = o.drop_last();
        assert(keys_sorted_v(o2)) by {
            assert forall|i: int, j: int| 0 <= i < j < o2.len() implies chars_lt(#[trigger] o2[i].0, #[trigger] o2[j].0) by {
                assert(o2[i] == o[i]);
                assert(o2[j] == o[j]);
            }
        }
        lemma_merge_v_law(s, o2, k);
        lemma_insert_sorted_v_law(merge_v(s, o2), o.last().0, o.last().1);
        let last = o.len() - 1;
        if k == o.last().0 {
            lemma_lookup_v_index(o, k, last);
        } else {
            // lookup in o equals lookup in o2 for keys other than the last one
            if lookup_v(o2, k) is Some {
                lemma_lookup_v_found(o2, k);
                let i = choose|i: int| 0 <= i < o2.len() && #[trigger] o2[i].0 == k && lookup_v(o2, k) == Some(o2[i].1);
                assert(o[i] == o2[i]);
                lemma_lookup_v_index(o, k, i);
            } else {
                assert forall|i: int| 0 <= i < o.len() implies #[trigger] o[i].0 != k by {
                    if i < last {
                        assert(o[i] == o2[i]);
                        if o2[i].0 == k {
                            lemma_lookup_v_index(o2, k, i);
                        }
                    }
                }
                lemma_lookup_v_absent(o, k);
            }
        }
    }
}

} // verus!

verus! {

/// Every entry after an insertion is the inserted one or was there before.
pub proof fn lemma_insert_sorted_elements<V>(s: Seq<(String, V)>, k: String, v: V)
    ensures
        forall|j: int| 0 <= j < insert_sorted(s, k, v).len() ==> #[trigger] insert_sorted(s, k, v)[j] == (k, v)
            || s.contains(insert_sorted(s, k, v)[j]),
{
    lemma_lower_bound_props(s, k@);
    let p = lower_bound(s, k@) as int;
    let r = insert_sorted(s, k, v);
    assert forall|j: int| 0 <= j < r.len() implies #[trigger] r[j] == (k, v) || s.contains(r[j]) by {
        if p < s.len() && s[p].0@ == k@ {
            if j != p {
                assert(r[j] == s[j]);
            }
        } else if j < p {
            assert(r[j] == s[j]);
        } else if j > p {
            assert(r[j] == s[j - 1]);
        }
    }
}

} // verus!
