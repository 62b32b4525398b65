use vstd::prelude::*;
use crate::property_list::{
    array_from, dict_from, ends, pair_from, pairs_map, starts, step, text_at, value_from, decimal_i32,
    well_formed_stream, Plist, XmlEvent,
};

verus! {

/// The six events of a `<key>k</key>` entry at `i` whose value is a scalar
/// element (`string`, `date` or `integer`) that reads as `v`.
pub open spec fn scalar_entry_at(s: Seq<XmlEvent>, i: int, k: Seq<char>, v: Plist) -> bool {
    &&& 0 <= i && i + 6 < s.len()
    &&& starts(s[i], "key"@)
    &&& text_at(s, i + 1) == Some(k)
    &&& ends(s[i + 2], "key"@)
    &&& match v {
        Plist::String(t) => starts(s[i + 3], "string"@) && text_at(s, i + 4) == Some(t) && ends(s[i + 5], "string"@),
        Plist::Date(t) => starts(s[i + 3], "date"@) && text_at(s, i + 4) == Some(t) && ends(s[i + 5], "date"@),
        Plist::Integer(x) => {
            &&& starts(s[i + 3], "integer"@)
            &&& text_at(s, i + 4) matches Some(c) && decimal_i32(c) == Some(x)
            &&& ends(s[i + 5], "integer"@)
        },
        _ => false,
    }
}

/// Whether `p` holds no key twice.
pub open spec fn distinct_keys(p: Seq<(Seq<char>, Plist)>) -> bool {
    forall|a: int, b: int| 0 <= a < b < p.len() ==> p[a].0 != p[b].0
}

/// Whether `j` is the last position of key `k` in `p`.
pub open spec fn last_of(p: Seq<(Seq<char>, Plist)>, k: Seq<char>, j: int) -> bool {
    &&& 0 <= j < p.len()
    &&& p[j].0 == k
    &&& forall|n: int| j < n < p.len() ==> p[n].0 != k
}

proof fn lemma_names_differ()
    ensures
        "string"@ != "integer"@,
        "date"@ != "integer"@,
        "date"@ != "string"@,
        "string"@ != "dict"@,
        "date"@ != "dict"@,
        "integer"@ != "dict"@,
        "true"@ != "dict"@,
        "false"@ != "dict"@,
{
    reveal_strlit("true");
    reveal_strlit("false");
    reveal_strlit("string");
    reveal_strlit("integer");
    reveal_strlit("date");
    reveal_strlit("dict");
    assert("string"@.len() != "integer"@.len());
    assert("date"@.len() != "integer"@.len());
    assert("date"@.len() != "string"@.len());
    assert("string"@.len() != "dict"@.len());
    assert("date"@[1] != "dict"@[1]);
    assert("integer"@.len() != "dict"@.len());
    assert("true"@[0] != "dict"@[0]);
    assert("false"@.len() != "dict"@.len());
}

/// One scalar entry adds its key and value to the dictionary being read.
proof fn lemma_entry_step(s: Seq<XmlEvent>, i: int, k: Seq<char>, v: Plist, acc: Map<Seq<char>, Plist>)
    requires
        scalar_entry_at(s, i, k, v),
    ensures
        dict_from(s, i, acc) == dict_from(s, i + 6, acc.insert(k, v)),
{
    lemma_names_differ();
    assert(step(s, i + 1) == i + 2);
    assert(step(s, i + 2) == i + 3);
    assert(value_from(s, i + 3) == Some((Some(v), i + 5)));
    assert(pair_from(s, i + 1) == Some((Some((k, v)), i + 5)));
    assert(dict_from(s, i + 5, acc.insert(k, v)) == dict_from(s, i + 6, acc.insert(k, v)));
}

/// A run of scalar entries reads as the map that its pairs denote.
proof fn lemma_entries(s: Seq<XmlEvent>, i: int, p: Seq<(Seq<char>, Plist)>, n: int)
    requires
        0 <= n <= p.len(),
        forall|m: int| 0 <= m < p.len() ==> scalar_entry_at(s, i + 6 * m, #[trigger] p[m].0, p[m].1),
    ensures
        dict_from(s, i, Map::empty()) == dict_from(s, i + 6 * n, pairs_map(p.take(n))),
    decreases n,
{
    if n == 0 {
        assert(p.take(0) =~= Seq::<(Seq<char>, Plist)>::empty());
        assert(i + 6 * n == i);
    } else {
        lemma_entries(s, i, p, n - 1);
        let m = n - 1;
        assert(scalar_entry_at(s, i + 6 * m, p[m].0, p[m].1));
        lemma_entry_step(s, i + 6 * m, p[m].0, p[m].1, pairs_map(p.take(m)));
        assert(p.take(n).drop_last() =~= p.take(m));
        assert(i + 6 * m + 6 == i + 6 * n);
    }
}

/// A key maps to the value of its last pair.
proof fn lemma_pairs_map_last(p: Seq<(Seq<char>, Plist)>, k: Seq<char>, j: int)
    requires
        last_of(p, k, j),
    ensures
        pairs_map(p).contains_key(k),
        pairs_map(p)[k] == p[j].1,
    decreases p.len(),
{
    if j < p.len() - 1 {
        lemma_pairs_map_last(p.drop_last(), k, j);
    }
}

/// The keys of the map are the keys of the pairs.
proof fn lemma_pairs_map_keys(p: Seq<(Seq<char>, Plist)>)
    ensures
        pairs_map(p).dom().finite(),
        pairs_map(p).dom() =~= Set::new(|k: Seq<char>| exists|n: int| 0 <= n < p.len() && p[n].0 == k),
        distinct_keys(p) ==> pairs_map(p).dom().len() == p.len(),
    decreases p.len(),
{
    if p.len() > 0 {
        let q = p.drop_last();
        lemma_pairs_map_keys(q);
        assert forall|k: Seq<char>| #[trigger] pairs_map(p).dom().contains(k) implies exists|n: int| 0 <= n < p.len() && p[n].0 == k by {
            if k != p.last().0 {
                let n = choose|n: int| 0 <= n < q.len() && q[n].0 == k;
                assert(p[n].0 == k);
            } else {
                assert(p[p.len() - 1].0 == k);
            }
        }
        assert forall|k: Seq<char>| (exists|n: int| 0 <= n < p.len() && p[n].0 == k) implies #[trigger] pairs_map(p).dom().contains(k) by {
            let n = choose|n: int| 0 <= n < p.len() && p[n].0 == k;
            if n < p.len() - 1 {
                assert(q[n].0 == k);
            }
        }
        assert(pairs_map(p).dom() =~= pairs_map(q).dom().insert(p.last().0));
        if distinct_keys(p) {
            assert(distinct_keys(q));
            assert(!pairs_map(q).dom().contains(p.last().0)) by {
                if pairs_map(q).dom().contains(p.last().0) {
                    let n = choose|n: int| 0 <= n < q.len() && q[n].0 == p.last().0;
                    assert(p[n].0 == p[p.len() - 1].0);
                }
            }
        }
    }
}

/// Reads a `<dict>` element at `q` whose content is the scalar entries of `p`.
proof fn lemma_dict_element(s: Seq<XmlEvent>, q: int, p: Seq<(Seq<char>, Plist)>)
    requires
        well_formed_stream(s),
        0 <= q,
        starts(s[q], "dict"@),
        forall|m: int| 0 <= m < p.len() ==> scalar_entry_at(s, q + 1 + 6 * m, #[trigger] p[m].0, p[m].1),
        q + 1 + 6 * p.len() < s.len(),
        ends(s[q + 1 + 6 * p.len()], "dict"@),
    ensures
        value_from(s, q) == Some((Some(Plist::Dict(pairs_map(p))), step(s, q + 1 + 6 * p.len()))),
{
    lemma_names_differ();
    reveal_strlit("dict");
    reveal_strlit("key");
    lemma_entries(s, q + 1, p, p.len() as int);
    assert(p.take(p.len() as int) =~= p);
    let e = q + 1 + 6 * p.len();
    assert(dict_from(s, e, pairs_map(p)) == Some((pairs_map(p), step(s, e))));
}

/// A `<dict>` element of scalar entries with distinct keys reads as a map
/// with exactly one entry per pair, each key bound to its pair's value.
pub proof fn law_dict_of_distinct_entries(s: Seq<XmlEvent>, q: int, p: Seq<(Seq<char>, Plist)>)
    requires
        well_formed_stream(s),
        0 <= q,
        starts(s[q], "dict"@),
        forall|m: int| 0 <= m < p.len() ==> scalar_entry_at(s, q + 1 + 6 * m, #[trigger] p[m].0, p[m].1),
        q + 1 + 6 * p.len() < s.len(),
        ends(s[q + 1 + 6 * p.len()], "dict"@),
        distinct_keys(p),
    ensures
        value_from(s, q) matches Some((Some(Plist::Dict(d)), _)) && {
            &&& d.dom().len() == p.len()
            &&& forall|m: int| 0 <= m < p.len() ==> d.contains_key(#[trigger] p[m].0) && d[p[m].0] == p[m].1
        },
{
    lemma_dict_element(s, q, p);
    lemma_pairs_map_keys(p);
    assert forall|m: int| 0 <= m < p.len() implies pairs_map(p).contains_key(#[trigger] p[m].0) && pairs_map(p)[p[m].0] == p[m].1 by {
        lemma_pairs_map_last(p, p[m].0, m);
    }
}

/// In a `<dict>` element of scalar entries, a key that occurs more than once
/// is bound to the value of its last occurrence.
pub proof fn law_dict_last_entry_wins(s: Seq<XmlEvent>, q: int, p: Seq<(Seq<char>, Plist)>, k: Seq<char>, j: int)
    requires
        well_formed_stream(s),
        0 <= q,
        starts(s[q], "dict"@),
        forall|m: int| 0 <= m < p.len() ==> scalar_entry_at(s, q + 1 + 6 * m, #[trigger] p[m].0, p[m].1),
        q + 1 + 6 * p.len() < s.len(),
        ends(s[q + 1 + 6 * p.len()], "dict"@),
        last_of(p, k, j),
    ensures
        value_from(s, q) matches Some((Some(Plist::Dict(d)), _)) && d.contains_key(k) && d[k] == p[j].1,
{
    lemma_dict_element(s, q, p);
    lemma_pairs_map_last(p, k, j);
}

/// The dictionaries `ms`, as array elements.
pub open spec fn dict_values(ms: Seq<Map<Seq<char>, Plist>>) -> Seq<Plist> {
    Seq::new(ms.len(), |n: int| Plist::Dict(ms[n]))
}

/// Children `<dict>` elements at positions `b`, the `n`-th reading as `ms[n]`
/// and ending where the next one starts.
pub open spec fn dict_children_at(s: Seq<XmlEvent>, b: Seq<int>, ms: Seq<Map<Seq<char>, Plist>>) -> bool {
    &&& b.len() == ms.len() + 1
    &&& forall|n: int| 0 <= n < b.len() ==> 0 <= #[trigger] b[n] < s.len()
    &&& forall|n: int| 0 <= n < ms.len() ==> {
        &&& starts(s[#[trigger] b[n]], "dict"@)
        &&& b[n] < b[n + 1]
        &&& dict_from(s, b[n] + 1, Map::empty()) == Some((ms[n], b[n + 1]))
    }
}

proof fn lemma_dict_children(s: Seq<XmlEvent>, b: Seq<int>, ms: Seq<Map<Seq<char>, Plist>>, n: int)
    requires
        well_formed_stream(s),
        dict_children_at(s, b, ms),
        0 <= n <= ms.len(),
    ensures
        array_from(s, b[0], Seq::empty()) == array_from(s, b[n], dict_values(ms.take(n))),
    decreases n,
{
    if n == 0 {
        assert(dict_values(ms.take(0)) =~= Seq::<Plist>::empty());
    } else {
        let m = n - 1;
        lemma_dict_children(s, b, ms, m);
        assert(0 <= b[m] < s.len() && 0 <= b[n] < s.len());
        assert(starts(s[b[m]], "dict"@));
        assert(dict_values(ms.take(n)) =~= dict_values(ms.take(m)).push(Plist::Dict(ms[m])));
    }
}

/// An `<array>` element at `q` whose children are `<dict>` elements reads as
/// an array of as many dictionaries, in source order.
pub proof fn law_array_of_dicts(s: Seq<XmlEvent>, q: int, b: Seq<int>, ms: Seq<Map<Seq<char>, Plist>>)
    requires
        well_formed_stream(s),
        0 <= q,
        starts(s[q], "array"@),
        dict_children_at(s, b, ms),
        b[0] == q + 1,
        ends(s[b.last()], "array"@),
    ensures
        value_from(s, q) == Some((Some(Plist::Array(dict_values(ms))), step(s, b.last()))),
        dict_values(ms).len() == ms.len(),
        forall|n: int| 0 <= n < ms.len() ==> #[trigger] dict_values(ms)[n] == Plist::Dict(ms[n]),
{
    reveal_strlit("array");
    reveal_strlit("integer");
    reveal_strlit("string");
    reveal_strlit("date");
    reveal_strlit("true");
    reveal_strlit("false");
    reveal_strlit("dict");
    assert("array"@[0] != "integer"@[0]);
    assert("array"@[0] != "string"@[0]);
    assert("array"@[0] != "date"@[0]);
    assert("array"@[0] != "true"@[0]);
    assert("array"@[0] != "false"@[0]);
    assert("array"@[0] != "dict"@[0]);
    let k = ms.len() as int;
    lemma_dict_children(s, b, ms, k);
    assert(ms.take(k) =~= ms);
    assert(0 <= b[k] < s.len());
    assert(!starts(s[b[k]], "dict"@));
}

} // verus!
