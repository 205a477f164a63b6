//! Tags written into names: `"build #l2 #nostatus"` names the task `build`
//! and tags it `l2` and `nostatus`. The same syntax tags data keys.

use vstd::prelude::*;
use vstd::string::*;
use crate::sorted::{lemma_str_insert_contains, lemma_str_insert_sorted_keeps_order, str_sorted_insert, str_views, strs_sorted};

verus! {

/// The characters that `char::is_whitespace` accepts (Unicode `White_Space`).
pub open spec fn is_white_space(c: char) -> bool {
    let u = c as int;
    ||| 0x9 <= u <= 0xD
    ||| u == 0x20
    ||| u == 0x85
    ||| u == 0xA0
    ||| u == 0x1680
    ||| 0x2000 <= u <= 0x200A
    ||| u == 0x2028
    ||| u == 0x2029
    ||| u == 0x202F
    ||| u == 0x205F
    ||| u == 0x3000
}

pub open spec fn trim_start(s: Seq<char>) -> Seq<char>
    decreases s.len(),
{
    if s.len() > 0 && is_white_space(s[0]) {
        trim_start(s.drop_first())
    } else {
        s
    }
}

pub open spec fn trim_end(s: Seq<char>) -> Seq<char>
    decreases s.len(),
{
    if s.len() > 0 && is_white_space(s.last()) {
        trim_end(s.drop_last())
    } else {
        s
    }
}

/// `s` without leading and trailing white space (`str::trim`).
pub open spec fn trim(s: Seq<char>) -> Seq<char> {
    trim_end(trim_start(s))
}

/// The pieces of `s` between occurrences of `sep` (`str::split`).
pub open spec fn split_on(s: Seq<char>, sep: char) -> Seq<Seq<char>>
    decreases s.len(),
{
    if s.len() == 0 {
        seq![Seq::empty()]
    } else {
        let p = split_on(s.drop_last(), sep);
        if s.last() == sep {
            p.push(Seq::empty())
        } else {
            p.update(p.len() - 1, p.last().push(s.last()))
        }
    }
}

/// The name part of a tagged name: the text before the first `#`, trimmed.
pub open spec fn name_part(s: Seq<char>) -> Seq<char> {
    trim(split_on(s, '#')[0])
}

/// `t` is one of the tags of `s`: a non-empty, trimmed piece after a `#`.
pub open spec fn is_tag_of(s: Seq<char>, t: Seq<char>) -> bool {
    let pieces = split_on(s, '#');
    t.len() > 0 && exists|j: int| 1 <= j < pieces.len() && trim(#[trigger] pieces[j]) == t
}

pub proof fn lemma_split_on_nonempty(s: Seq<char>, sep: char)
    ensures
        split_on(s, sep).len() >= 1,
    decreases s.len(),
{
    if s.len() > 0 {
        lemma_split_on_nonempty(s.drop_last(), sep);
    }
}

fn is_ws(c: char) -> (r: bool)
    ensures
        r == is_white_space(c),
{
    let u = c as u32;
    (0x9 <= u && u <= 0xD) || u == 0x20 || u == 0x85 || u == 0xA0 || u == 0x1680
        || (0x2000 <= u && u <= 0x200A) || u == 0x2028 || u == 0x2029 || u == 0x202F
        || u == 0x205F || u == 0x3000
}

proof fn lemma_trim_start_skip(s: Seq<char>, a: int)
    requires
        0 <= a <= s.len(),
        forall|i: int| 0 <= i < a ==> is_white_space(#[trigger] s[i]),
        a < s.len() ==> !is_white_space(s[a]),
    ensures
        trim_start(s) == s.skip(a),
    decreases a,
{
    if a == 0 {
        assert(s.skip(0) =~= s);
    } else {
        assert forall|i: int| 0 <= i < a - 1 implies is_white_space(#[trigger] s.drop_first()[i]) by {
            assert(s.drop_first()[i] == s[i + 1]);
        }
        if a - 1 < s.drop_first().len() {
            assert(s.drop_first()[a - 1] == s[a]);
        }
        lemma_trim_start_skip(s.drop_first(), a - 1);
        assert(s.drop_first().skip(a - 1) =~= s.skip(a));
    }
}

proof fn lemma_trim_end_take(s: Seq<char>, b: int)
    requires
        0 <= b <= s.len(),
        forall|i: int| b <= i < s.len() ==> is_white_space(#[trigger] s[i]),
        b > 0 ==> !is_white_space(s[b - 1]),
    ensures
        trim_end(s) == s.take(b),
    decreases s.len() - b,
{
    if b == s.len() {
        assert(s.take(b) =~= s);
    } else {
        assert forall|i: int| b <= i < s.drop_last().len() implies is_white_space(#[trigger] s.drop_last()[i]) by {
            assert(s.drop_last()[i] == s[i]);
        }
        if b > 0 {
            assert(s.drop_last()[b - 1] == s[b - 1]);
        }
        lemma_trim_end_take(s.drop_last(), b);
        assert(s.drop_last().take(b) =~= s.take(b));
    }
}

/// `s` trimmed of white space at both ends.
pub fn trim_str(s: &str) -> (r: String)
    ensures
        r@ == trim(s@),
{
    let n = s.unicode_len();
    let mut a: usize = 0;
    while a < n && is_ws(s.get_char(a))
        invariant
            n == s@.len(),
            a <= n,
            forall|i: int| 0 <= i < a ==> is_white_space(#[trigger] s@[i]),
        decreases n - a,
    {
        a = a + 1;
    }
    proof {
        lemma_trim_start_skip(s@, a as int);
    }
    let mut b: usize = n;
    while b > a && is_ws(s.get_char(b - 1))
        invariant
            n == s@.len(),
            a <= b <= n,
            forall|i: int| b <= i < n ==> is_white_space(#[trigger] s@[i]),
        decreases b,
    {
        b = b - 1;
    }
    proof {
        let t = s@.skip(a as int);
        assert forall|i: int| (b - a) <= i < t.len() implies is_white_space(#[trigger] t[i]) by {
            assert(t[i] == s@[i + a]);
        }
        if b > a {
            assert(t[b - a - 1] == s@[b - 1]);
        }
        lemma_trim_end_take(t, (b - a) as int);
        assert(t.take((b - a) as int) =~= s@.subrange(a as int, b as int));
    }
    let sub = s.substring_char(a, b);
    sub.to_owned()
}

/// Splits a tagged name into its name and its tags (sorted, without
/// duplicates): the text before the first `#` is the name, each later
/// `#`-separated piece is a tag; all pieces are trimmed and empty tags are
/// dropped.
pub fn extract_tags(s: &str) -> (r: (String, Vec<String>))
    ensures
        r.0@ == name_part(s@),
        strs_sorted(r.1@),
        forall|t: Seq<char>| str_views(r.1@).contains(t) <==> is_tag_of(s@, t),
        str_views(r.1@) == tag_list(s@),
{
    let n = s.unicode_len();
    let mut name = String::new();
    let mut tags: Vec<String> = Vec::new();
    let mut start: usize = 0;
    let mut seen_hash = false;
    let mut i: usize = 0;
    proof {
        assert(s@.take(0) =~= Seq::<char>::empty());
        assert(split_on(s@.take(0), '#') =~= seq![Seq::<char>::empty()]);
    }
    while i < n
        invariant
            n == s@.len(),
            start <= i <= n,
            split_on(s@.take(i as int), '#').len() >= 1,
            split_on(s@.take(i as int), '#').last() == s@.subrange(start as int, i as int),
            seen_hash == (split_on(s@.take(i as int), '#').len() > 1),
            seen_hash ==> name@ == trim(split_on(s@.take(i as int), '#')[0]),
            strs_sorted(tags@),
            forall|t: Seq<char>| str_views(tags@).contains(t) <==> (t.len() > 0
                && exists|j: int| 1 <= j < split_on(s@.take(i as int), '#').len() - 1
                    && trim(#[trigger] split_on(s@.take(i as int), '#')[j]) == t),
        decreases n - i,
    {
        let c = s.get_char(i);
        let ghost prev = split_on(s@.take(i as int), '#');
        proof {
            assert(s@.take(i + 1).drop_last() =~= s@.take(i as int));
            assert(s@.take(i + 1).last() == c);
        }
        if c == '#' {
            let piece = s.substring_char(start, i);
            let t = trim_str(piece);
            let ghost old_tags = tags@;
            let ghost tv = t@;
            let ghost was_seen = seen_hash;
            if !seen_hash {
                name = t;
                seen_hash = true;
            } else if t.unicode_len() > 0 {
                proof {
                    lemma_str_insert_sorted_keeps_order(tags@, t);
                }
                str_sorted_insert(&mut tags, t);
                proof {
                    assert forall|u: Seq<char>| str_views(tags@).contains(u) <==> (str_views(old_tags).contains(u) || u == tv) by {
                        lemma_str_insert_contains(old_tags, t, u);
                    }
                }
            }
            proof {
                assert(tv == trim(prev.last()));
                assert forall|u: Seq<char>| #[trigger] str_views(tags@).contains(u) <==> (str_views(old_tags).contains(u)
                    || (was_seen && u == tv && u.len() > 0)) by {
                    if was_seen && tv.len() > 0 {
                        lemma_str_insert_contains(old_tags, t, u);
                    }
                }
            }
            start = i + 1;
            let ghost next = split_on(s@.take(i + 1), '#');
            proof {
                assert(next == prev.push(Seq::<char>::empty()));
                assert(next.last() =~= s@.subrange(start as int, i + 1));
                assert forall|j: int| 0 <= j < prev.len() implies next[j] == prev[j] by {}
                assert forall|t: Seq<char>| str_views(tags@).contains(t) <==> (t.len() > 0
                    && exists|j: int| 1 <= j < next.len() - 1 && trim(#[trigger] next[j]) == t) by {
                    if t.len() > 0 && exists|j: int| 1 <= j < next.len() - 1 && trim(#[trigger] next[j]) == t {
                        let j = choose|j: int| 1 <= j < next.len() - 1 && trim(#[trigger] next[j]) == t;
                        if j < prev.len() - 1 {
                            assert(trim(prev[j]) == t);
                            assert(str_views(old_tags).contains(t));
                        } else {
                            assert(j == prev.len() - 1);
                            assert(was_seen);
                            assert(t == tv);
                        }
                        assert(str_views(tags@).contains(t));
                    }
                    if str_views(tags@).contains(t) {
                        if str_views(old_tags).contains(t) {
                            let j = choose|j: int| 1 <= j < prev.len() - 1 && trim(#[trigger] prev[j]) == t;
                            assert(trim(next[j]) == t);
                        } else {
                            assert(trim(next[prev.len() - 1]) == t);
                        }
                    }
                }
            }
        } else {
            let ghost next = split_on(s@.take(i + 1), '#');
            proof {
                assert(next == prev.update(prev.len() - 1, prev.last().push(c)));
                assert(next.last() =~= s@.subrange(start as int, i + 1));
                assert forall|t: Seq<char>| str_views(tags@).contains(t) <==> (t.len() > 0
                    && exists|j: int| 1 <= j < next.len() - 1 && trim(#[trigger] next[j]) == t) by {
                    if t.len() > 0 && exists|j: int| 1 <= j < next.len() - 1 && trim(#[trigger] next[j]) == t {
                        let j = choose|j: int| 1 <= j < next.len() - 1 && trim(#[trigger] next[j]) == t;
                        assert(trim(prev[j]) == t);
                    }
                    if t.len() > 0 && exists|j: int| 1 <= j < prev.len() - 1 && trim(#[trigger] prev[j]) == t {
                        let j = choose|j: int| 1 <= j < prev.len() - 1 && trim(#[trigger] prev[j]) == t;
                        assert(trim(next[j]) == t);
                    }
                }
                if seen_hash {
                    assert(next[0] == prev[0]);
                }
            }
        }
        i = i + 1;
    }
    proof {
        assert(s@.take(n as int) =~= s@);
    }
    let ghost fin = split_on(s@, '#');
    let piece = s.substring_char(start, n);
    let t = trim_str(piece);
    let ghost old_tags = tags@;
    let ghost tv = t@;
    let ghost was_seen = seen_hash;
    if !seen_hash {
        name = t;
    } else if t.unicode_len() > 0 {
        proof {
            lemma_str_insert_sorted_keeps_order(tags@, t);
        }
        str_sorted_insert(&mut tags, t);
    }
    proof {
        assert(tv == trim(fin.last()));
        assert forall|u: Seq<char>| #[trigger] str_views(tags@).contains(u) <==> (str_views(old_tags).contains(u)
            || (was_seen && u == tv && u.len() > 0)) by {
            if was_seen && tv.len() > 0 {
                lemma_str_insert_contains(old_tags, t, u);
            }
        }
        assert forall|u: Seq<char>| str_views(tags@).contains(u) <==> is_tag_of(s@, u) by {
            if is_tag_of(s@, u) {
                let j = choose|j: int| 1 <= j < fin.len() && trim(#[trigger] fin[j]) == u;
                if j < fin.len() - 1 {
                    assert(trim(fin[j]) == u);
                }
            }
        }
        let tv = str_views(tags@);
        assert(seq_sorted(tv)) by {
            assert forall|a: int, b: int| 0 <= a < b < tv.len() implies crate::strs::chars_lt(#[trigger] tv[a], #[trigger] tv[b]) by {
                assert(tv[a] == tags@[a]@);
                assert(tv[b] == tags@[b]@);
            }
        }
        lemma_sorted_unique(tv, tag_list(s@));
    }
    (name, tags)
}

} // verus!

verus! {

/// Strings strictly increase along the sequence.
pub open spec fn seq_sorted(t: Seq<Seq<char>>) -> bool {
    forall|i: int, j: int| 0 <= i < j < t.len() ==> crate::strs::chars_lt(#[trigger] t[i], #[trigger] t[j])
}

/// The tags of a tagged name, in string order.
pub open spec fn tag_list(s: Seq<char>) -> Seq<Seq<char>> {
    choose|t: Seq<Seq<char>>| seq_sorted(t) && forall|x: Seq<char>| t.contains(x) <==> is_tag_of(s, x)
}

/// Two strictly sorted sequences with the same elements are equal.
pub proof fn lemma_sorted_unique(a: Seq<Seq<char>>, b: Seq<Seq<char>>)
    requires
        seq_sorted(a),
        seq_sorted(b),
        forall|x: Seq<char>| a.contains(x) <==> b.contains(x),
    ensures
        a == b,
    decreases a.len(),
{
    if a.len() == 0 {
        if b.len() > 0 {
            assert(b.contains(b[0]));
        }
        assert(a =~= b);
    } else {
        assert(a.contains(a[0]));
        assert(b.len() > 0);
        assert(b.contains(b[0]));
        let i = choose|i: int| 0 <= i < b.len() && b[i] == a[0];
        let j = choose|j: int| 0 <= j < a.len() && a[j] == b[0];
        if i > 0 && j > 0 {
            crate::strs::lemma_chars_lt_transitive(a[0], a[j], a[0]);
            crate::strs::lemma_chars_lt_irreflexive(a[0]);
        }
        if i > 0 && j == 0 {
            crate::strs::lemma_chars_lt_irreflexive(b[0]);
        }
        if j > 0 && i == 0 {
            crate::strs::lemma_chars_lt_irreflexive(a[0]);
        }
        assert(a[0] == b[0]);
        let a2 = a.drop_first();
        let b2 = b.drop_first();
        assert forall|x: Seq<char>| a2.contains(x) <==> b2.contains(x) by {
            if a2.contains(x) {
                let k = choose|k: int| 0 <= k < a2.len() && a2[k] == x;
                assert(a[k + 1] == x);
                assert(crate::strs::chars_lt(a[0], x));
                assert(b.contains(x));
                let m = choose|m: int| 0 <= m < b.len() && b[m] == x;
                if m == 0 {
                    crate::strs::lemma_chars_lt_irreflexive(x);
                }
                assert(b2[m - 1] == x);
            }
            if b2.contains(x) {
                let k = choose|k: int| 0 <= k < b2.len() && b2[k] == x;
                assert(b[k + 1] == x);
                assert(crate::strs::chars_lt(b[0], x));
                assert(a.contains(x));
                let m = choose|m: int| 0 <= m < a.len() && a[m] == x;
                if m == 0 {
                    crate::strs::lemma_chars_lt_irreflexive(x);
                }
                assert(a2[m - 1] == x);
            }
        }
        lemma_sorted_unique(a2, b2);
        assert(a =~= seq![a[0]] + a2);
        assert(b =~= seq![b[0]] + b2);
    }
}

} // verus!
