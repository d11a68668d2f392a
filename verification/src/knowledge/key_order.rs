//! The canonical text of a JSON value does not depend on the order in which
//! an object lists its entries, where no two keys of an object are alike.
use vstd::prelude::*;
use crate::knowledge::claim::{canonical, canonical_entries, canonical_items, entry_texts, join_parts, insert_pair, sort_pairs, JsonValue};
use crate::knowledge::model::{derived_id, KnowledgeCategory};
use crate::terminal::invocation::json_string;
use crate::order::{key_lt, lemma_key_lt_asymmetric, lemma_key_lt_irreflexive, lemma_key_lt_total, lemma_key_lt_transitive, lemma_str_key_injective, str_key};

verus! {

/// The key of an entry of canonical text: its escaped key.
pub open spec fn pair_key(e: (Seq<char>, Seq<char>)) -> Seq<u32> {
    str_key(e.0)
}

/// No entry's key is greater than a later entry's key.
pub open spec fn pairs_sorted(s: Seq<(Seq<char>, Seq<char>)>) -> bool {
    forall|i: int, j: int| 0 <= i < j < s.len() ==> !key_lt(pair_key(#[trigger] s[j]), pair_key(#[trigger] s[i]))
}

/// Each entry's key is less than every later entry's key.
pub open spec fn pairs_strictly_sorted(s: Seq<(Seq<char>, Seq<char>)>) -> bool {
    forall|i: int, j: int| 0 <= i < j < s.len() ==> key_lt(pair_key(#[trigger] s[i]), pair_key(#[trigger] s[j]))
}

/// No two entries have the same key.
pub open spec fn pair_keys_distinct(s: Seq<(Seq<char>, Seq<char>)>) -> bool {
    forall|i: int, j: int| 0 <= i < j < s.len() ==> (#[trigger] s[i]).0 != (#[trigger] s[j]).0
}

/// Every entry of one occurs in the other, both ways.
pub open spec fn same_entries(s: Seq<(Seq<char>, Seq<char>)>, t: Seq<(Seq<char>, Seq<char>)>) -> bool {
    &&& forall|i: int| 0 <= i < s.len() ==> t.contains(#[trigger] s[i])
    &&& forall|j: int| 0 <= j < t.len() ==> s.contains(#[trigger] t[j])
}

proof fn lemma_insert_pair(s: Seq<(Seq<char>, Seq<char>)>, e: (Seq<char>, Seq<char>))
    ensures
        insert_pair(s, e).len() == s.len() + 1,
        forall|x: (Seq<char>, Seq<char>)| #[trigger] insert_pair(s, e).contains(x) <==> (s.contains(x) || x == e),
        pairs_sorted(s) ==> pairs_sorted(insert_pair(s, e)),
        pair_keys_distinct(s) && (forall|i: int| 0 <= i < s.len() ==> (#[trigger] s[i]).0 != e.0) ==> pair_keys_distinct(
            insert_pair(s, e),
        ),
    decreases s.len(),
{
    let r = insert_pair(s, e);
    if s.len() == 0 {
        assert(r =~= seq![e]);
        assert forall|x: (Seq<char>, Seq<char>)| #[trigger] r.contains(x) <==> (s.contains(x) || x == e) by {
            if r.contains(x) {
                let k = choose|k: int| 0 <= k < r.len() && r[k] == x;
                assert(k == 0);
            }
            if x == e {
                assert(r[0] == x);
            }
        }
    } else {
        let last = s.last();
        let init = s.drop_last();
        assert(s =~= init.push(last));
        if key_lt(pair_key(e), pair_key(last)) {
            lemma_insert_pair(init, e);
            let m = insert_pair(init, e);
            assert(r == m.push(last));
            assert forall|x: (Seq<char>, Seq<char>)| #[trigger] r.contains(x) <==> (s.contains(x) || x == e) by {
                if r.contains(x) {
                    let k = choose|k: int| 0 <= k < r.len() && r[k] == x;
                    if k < m.len() {
                        assert(m[k] == x);
                        assert(m.contains(x));
                        if init.contains(x) {
                            let q = choose|q: int| 0 <= q < init.len() && init[q] == x;
                            assert(s[q] == x);
                        }
                    } else {
                        assert(s[s.len() - 1] == x);
                    }
                }
                if s.contains(x) {
                    let q = choose|q: int| 0 <= q < s.len() && s[q] == x;
                    if q < init.len() {
                        assert(init[q] == x);
                        assert(init.contains(x));
                        assert(m.contains(x));
                        let k = choose|k: int| 0 <= k < m.len() && m[k] == x;
                        assert(r[k] == x);
                    } else {
                        assert(r[r.len() - 1] == x);
                    }
                }
                if x == e {
                    assert(m.contains(x));
                    let k = choose|k: int| 0 <= k < m.len() && m[k] == x;
                    assert(r[k] == x);
                }
            }
            if pairs_sorted(s) {
                assert(pairs_sorted(init));
                assert forall|i: int, j: int| 0 <= i < j < r.len() implies !key_lt(
                    pair_key(#[trigger] r[j]),
                    pair_key(#[trigger] r[i]),
                ) by {
                    if j < m.len() {
                        assert(r[i] == m[i] && r[j] == m[j]);
                    } else {
                        assert(r[j] == last);
                        assert(r[i] == m[i]);
                        assert(m.contains(m[i]));
                        if init.contains(m[i]) {
                            let q = choose|q: int| 0 <= q < init.len() && init[q] == m[i];
                            assert(s[q] == m[i]);
                            assert(s[s.len() - 1] == last);
                        } else {
                            assert(m[i] == e);
                            lemma_key_lt_asymmetric(pair_key(e), pair_key(last));
                        }
                    }
                }
            }
            if pair_keys_distinct(s) && (forall|i: int| 0 <= i < s.len() ==> (#[trigger] s[i]).0 != e.0) {
                assert forall|i: int| 0 <= i < init.len() implies (#[trigger] init[i]).0 != e.0 by {
                    assert(init[i] == s[i]);
                }
                assert(pair_keys_distinct(init));
                assert forall|i: int, j: int| 0 <= i < j < r.len() implies (#[trigger] r[i]).0 != (#[trigger] r[j]).0 by {
                    if j < m.len() {
                        assert(r[i] == m[i] && r[j] == m[j]);
                    } else {
                        assert(r[i] == m[i]);
                        assert(m.contains(m[i]));
                        if init.contains(m[i]) {
                            let q = choose|q: int| 0 <= q < init.len() && init[q] == m[i];
                            assert(s[q] == m[i]);
                            assert(s[s.len() - 1] == last);
                        } else {
                            assert(m[i] == e);
                            assert(s[s.len() - 1] == last);
                        }
                    }
                }
            }
        } else {
            assert(r == s.push(e));
            assert forall|x: (Seq<char>, Seq<char>)| #[trigger] r.contains(x) <==> (s.contains(x) || x == e) by {
                if r.contains(x) {
                    let k = choose|k: int| 0 <= k < r.len() && r[k] == x;
                    if k < s.len() {
                        assert(s[k] == x);
                    }
                }
                if s.contains(x) {
                    let q = choose|q: int| 0 <= q < s.len() && s[q] == x;
                    assert(r[q] == x);
                }
                if x == e {
                    assert(r[r.len() - 1] == x);
                }
            }
            if pairs_sorted(s) {
                assert forall|i: int, j: int| 0 <= i < j < r.len() implies !key_lt(
                    pair_key(#[trigger] r[j]),
                    pair_key(#[trigger] r[i]),
                ) by {
                    if j < s.len() {
                        assert(r[i] == s[i] && r[j] == s[j]);
                    } else {
                        assert(r[j] == e);
                        assert(r[i] == s[i]);
                        let ki = pair_key(s[i]);
                        let kl = pair_key(last);
                        let ke = pair_key(e);
                        if i < s.len() - 1 {
                            assert(s[s.len() - 1] == last);
                            assert(!key_lt(kl, ki));
                        }
                        if key_lt(ke, ki) {
                            lemma_key_lt_total(ki, kl);
                            if key_lt(ki, kl) {
                                lemma_key_lt_transitive(ke, ki, kl);
                            }
                        }
                    }
                }
            }
            if pair_keys_distinct(s) && (forall|i: int| 0 <= i < s.len() ==> (#[trigger] s[i]).0 != e.0) {
                assert forall|i: int, j: int| 0 <= i < j < r.len() implies (#[trigger] r[i]).0 != (#[trigger] r[j]).0 by {
                    if j < s.len() {
                        assert(r[i] == s[i] && r[j] == s[j]);
                    } else {
                        assert(r[i] == s[i]);
                    }
                }
            }
        }
    }
}

/// Sorting keeps the entries, orders them by key, and keeps keys distinct.
pub proof fn lemma_sort_pairs(s: Seq<(Seq<char>, Seq<char>)>)
    ensures
        sort_pairs(s).len() == s.len(),
        forall|x: (Seq<char>, Seq<char>)| #[trigger] sort_pairs(s).contains(x) <==> s.contains(x),
        pairs_sorted(sort_pairs(s)),
        pair_keys_distinct(s) ==> pair_keys_distinct(sort_pairs(s)),
    decreases s.len(),
{
    if s.len() > 0 {
        let init = s.drop_last();
        let last = s.last();
        assert(s =~= init.push(last));
        lemma_sort_pairs(init);
        let m = sort_pairs(init);
        lemma_insert_pair(m, last);
        assert forall|x: (Seq<char>, Seq<char>)| #[trigger] sort_pairs(s).contains(x) <==> s.contains(x) by {
            if init.contains(x) {
                let q = choose|q: int| 0 <= q < init.len() && init[q] == x;
                assert(s[q] == x);
            }
            if s.contains(x) {
                let q = choose|q: int| 0 <= q < s.len() && s[q] == x;
                if q < init.len() {
                    assert(init[q] == x);
                    assert(init.contains(x));
                }
            }
        }
        if pair_keys_distinct(s) {
            assert(pair_keys_distinct(init));
            assert forall|i: int| 0 <= i < m.len() implies (#[trigger] m[i]).0 != last.0 by {
                assert(m.contains(m[i]));
                assert(init.contains(m[i]));
                let q = choose|q: int| 0 <= q < init.len() && init[q] == m[i];
                assert(s[q] == m[i]);
                assert(s[s.len() - 1] == last);
            }
        }
    } else {
        assert forall|x: (Seq<char>, Seq<char>)| #[trigger] sort_pairs(s).contains(x) <==> s.contains(x) by {}
    }
}

proof fn lemma_strictly_sorted(s: Seq<(Seq<char>, Seq<char>)>)
    requires
        pairs_sorted(s),
        pair_keys_distinct(s),
    ensures
        pairs_strictly_sorted(s),
{
    assert forall|i: int, j: int| 0 <= i < j < s.len() implies key_lt(pair_key(#[trigger] s[i]), pair_key(#[trigger] s[j])) by {
        lemma_key_lt_total(pair_key(s[i]), pair_key(s[j]));
        if pair_key(s[i]) == pair_key(s[j]) {
            lemma_str_key_injective(s[i].0, s[j].0);
        }
    }
}

/// Two sequences sorted strictly by key that hold the same entries are equal.
proof fn lemma_sorted_determined(s: Seq<(Seq<char>, Seq<char>)>, t: Seq<(Seq<char>, Seq<char>)>)
    requires
        pairs_strictly_sorted(s),
        pairs_strictly_sorted(t),
        same_entries(s, t),
    ensures
        s == t,
    decreases s.len(),
{
    if s.len() == 0 {
        if t.len() > 0 {
            assert(s.contains(t[0]));
        }
        assert(s =~= t);
    } else {
        assert(t.contains(s[0]));
        let j = choose|j: int| 0 <= j < t.len() && t[j] == s[0];
        assert(s.contains(t[0]));
        let i = choose|i: int| 0 <= i < s.len() && s[i] == t[0];
        if j > 0 {
            if i > 0 {
                lemma_key_lt_asymmetric(pair_key(s[0]), pair_key(s[i]));
            } else {
                lemma_key_lt_irreflexive(pair_key(t[0]));
            }
        }
        assert(s[0] == t[0]);
        let s1 = s.drop_first();
        let t1 = t.drop_first();
        assert forall|a: int| 0 <= a < s1.len() implies t1.contains(#[trigger] s1[a]) by {
            assert(s1[a] == s[a + 1]);
            assert(t.contains(s[a + 1]));
            let b = choose|b: int| 0 <= b < t.len() && t[b] == s[a + 1];
            if b == 0 {
                lemma_key_lt_irreflexive(pair_key(s[0]));
            }
            assert(t1[b - 1] == s1[a]);
        }
        assert forall|b: int| 0 <= b < t1.len() implies s1.contains(#[trigger] t1[b]) by {
            assert(t1[b] == t[b + 1]);
            assert(s.contains(t[b + 1]));
            let a = choose|a: int| 0 <= a < s.len() && s[a] == t[b + 1];
            if a == 0 {
                lemma_key_lt_irreflexive(pair_key(t[0]));
            }
            assert(s1[a - 1] == t1[b]);
        }
        assert forall|a: int, b: int| 0 <= a < b < s1.len() implies key_lt(pair_key(#[trigger] s1[a]), pair_key(#[trigger] s1[b])) by {
            assert(s1[a] == s[a + 1] && s1[b] == s[b + 1]);
        }
        assert forall|a: int, b: int| 0 <= a < b < t1.len() implies key_lt(pair_key(#[trigger] t1[a]), pair_key(#[trigger] t1[b])) by {
            assert(t1[a] == t[a + 1] && t1[b] == t[b + 1]);
        }
        lemma_sorted_determined(s1, t1);
        assert(s =~= seq![s[0]] + s1);
        assert(t =~= seq![t[0]] + t1);
    }
}

/// Sorting two sequences that hold the same entries, no key twice, gives one result.
pub proof fn lemma_sort_pairs_same_entries(s: Seq<(Seq<char>, Seq<char>)>, t: Seq<(Seq<char>, Seq<char>)>)
    requires
        pair_keys_distinct(s),
        pair_keys_distinct(t),
        same_entries(s, t),
    ensures
        sort_pairs(s) == sort_pairs(t),
{
    lemma_sort_pairs(s);
    lemma_sort_pairs(t);
    let a = sort_pairs(s);
    let b = sort_pairs(t);
    lemma_strictly_sorted(a);
    lemma_strictly_sorted(b);
    assert forall|i: int| 0 <= i < a.len() implies b.contains(#[trigger] a[i]) by {
        assert(a.contains(a[i]));
        assert(s.contains(a[i]));
        let q = choose|q: int| 0 <= q < s.len() && s[q] == a[i];
        assert(t.contains(s[q]));
    }
    assert forall|j: int| 0 <= j < b.len() implies a.contains(#[trigger] b[j]) by {
        assert(b.contains(b[j]));
        assert(t.contains(b[j]));
        let q = choose|q: int| 0 <= q < t.len() && t[q] == b[j];
        assert(s.contains(t[q]));
    }
    lemma_sorted_determined(a, b);
}

/// The key of an entry as JSON writes it.
pub open spec fn written_key(e: (String, JsonValue)) -> Option<Seq<char>> {
    json_string(e.0@)
}

/// No two entries have keys that JSON writes alike.
pub open spec fn keys_apart(entries: Seq<(String, JsonValue)>) -> bool {
    forall|i: int, j: int|
        0 <= i < j < entries.len() && (#[trigger] written_key(entries[i])) is Some ==> written_key(entries[i])
            != #[trigger] written_key(entries[j])
}

/// The two values are the same JSON but for the order in which objects list
/// their entries; no object has two keys that JSON writes alike.
#[verifier::opaque]
pub open spec fn reordered(a: JsonValue, b: JsonValue) -> bool
    decreases a,
{
    match a {
        JsonValue::Null => b is Null,
        JsonValue::Bool(x) => match b {
            JsonValue::Bool(y) => x == y,
            _ => false,
        },
        JsonValue::Number(x) => match b {
            JsonValue::Number(y) => x@ == y@,
            _ => false,
        },
        JsonValue::Text(x) => match b {
            JsonValue::Text(y) => x@ == y@,
            _ => false,
        },
        JsonValue::Array(x) => match b {
            JsonValue::Array(y) => x@.len() == y@.len() && forall|i: int|
                0 <= i < x@.len() ==> reordered(#[trigger] x@[i], y@[i]),
            _ => false,
        },
        JsonValue::Object(x) => match b {
            JsonValue::Object(y) => {
                &&& keys_apart(x@)
                &&& keys_apart(y@)
                &&& forall|i: int|
                    0 <= i < x@.len() ==> exists|j: int|
                        #![trigger y@[j]]
                        0 <= j < y@.len() && (#[trigger] x@[i]).0@ == y@[j].0@ && reordered(x@[i].1, y@[j].1)
                &&& forall|j: int|
                    0 <= j < y@.len() ==> exists|i: int|
                        #![trigger x@[i]]
                        0 <= i < x@.len() && x@[i].0@ == (#[trigger] y@[j]).0@ && reordered(x@[i].1, y@[j].1)
            },
            _ => false,
        },
    }
}

/// The entry of `y` paired with entry `i` of `x`.
pub open spec fn partner(x: Seq<(String, JsonValue)>, y: Seq<(String, JsonValue)>, i: int) -> int {
    choose|j: int| #![trigger y[j]] 0 <= j < y.len() && x[i].0@ == y[j].0@ && reordered(x[i].1, y[j].1)
}

/// The entry of `x` paired with entry `j` of `y`.
pub open spec fn partner_back(x: Seq<(String, JsonValue)>, y: Seq<(String, JsonValue)>, j: int) -> int {
    choose|i: int| #![trigger x[i]] 0 <= i < x.len() && x[i].0@ == y[j].0@ && reordered(x[i].1, y[j].1)
}

proof fn lemma_reordered_array(a: JsonValue, b: JsonValue)
    requires
        reordered(a, b),
        a is Array,
    ensures
        b is Array,
        a->Array_0@.len() == b->Array_0@.len(),
        forall|i: int| 0 <= i < a->Array_0@.len() ==> reordered(#[trigger] a->Array_0@[i], b->Array_0@[i]),
{
    reveal(reordered);
}

proof fn lemma_reordered_object(a: JsonValue, b: JsonValue)
    requires
        reordered(a, b),
        a is Object,
    ensures
        b is Object,
        keys_apart(a->Object_0@),
        keys_apart(b->Object_0@),
        forall|i: int|
            0 <= i < a->Object_0@.len() ==> {
                let j = #[trigger] partner(a->Object_0@, b->Object_0@, i);
                &&& 0 <= j < b->Object_0@.len()
                &&& a->Object_0@[i].0@ == b->Object_0@[j].0@
                &&& reordered(a->Object_0@[i].1, b->Object_0@[j].1)
            },
        forall|j: int|
            0 <= j < b->Object_0@.len() ==> {
                let i = #[trigger] partner_back(a->Object_0@, b->Object_0@, j);
                &&& 0 <= i < a->Object_0@.len()
                &&& a->Object_0@[i].0@ == b->Object_0@[j].0@
                &&& reordered(a->Object_0@[i].1, b->Object_0@[j].1)
            },
{
    reveal(reordered);
    let x = a->Object_0@;
    let y = b->Object_0@;
    assert forall|i: int| 0 <= i < x.len() implies {
        let j = #[trigger] partner(x, y, i);
        &&& 0 <= j < y.len()
        &&& x[i].0@ == y[j].0@
        &&& reordered(x[i].1, y[j].1)
    } by {
        assert(x[i] == x[i]);
    }
    assert forall|j: int| 0 <= j < y.len() implies {
        let i = #[trigger] partner_back(x, y, j);
        &&& 0 <= i < x.len()
        &&& x[i].0@ == y[j].0@
        &&& reordered(x[i].1, y[j].1)
    } by {
        assert(y[j] == y[j]);
    }
}

proof fn lemma_items_agree(x: Seq<JsonValue>, y: Seq<JsonValue>, n: nat)
    requires
        x.len() == y.len(),
        forall|i: int| 0 <= i < x.len() ==> canonical(#[trigger] x[i]) == canonical(y[i]),
    ensures
        canonical_items(x, n) == canonical_items(y, n),
    decreases n,
{
    if n > 0 && n <= x.len() {
        lemma_items_agree(x, y, (n - 1) as nat);
        assert(canonical(x[n - 1]) == canonical(y[n - 1]));
    }
}

/// Every entry can be written.
pub open spec fn entries_writable(e: Seq<(String, JsonValue)>) -> bool {
    forall|i: int| 0 <= i < e.len() ==> (#[trigger] written_key(e[i])) is Some && canonical(e[i].1) is Some
}

proof fn lemma_entries_pointwise(e: Seq<(String, JsonValue)>, n: nat)
    requires
        n <= e.len(),
    ensures
        canonical_entries(e, n) is Some <==> forall|i: int|
            0 <= i < n ==> (#[trigger] written_key(e[i])) is Some && canonical(e[i].1) is Some,
        canonical_entries(e, n) matches Some(p) ==> p.len() == n && forall|i: int|
            0 <= i < n ==> #[trigger] p[i] == (written_key(e[i])->0, canonical(e[i].1)->0),
    decreases n,
{
    if n > 0 {
        lemma_entries_pointwise(e, (n - 1) as nat);
        if canonical_entries(e, n) is Some {
            let p = canonical_entries(e, n)->0;
            let q = canonical_entries(e, (n - 1) as nat)->0;
            assert(p == q.push((written_key(e[n - 1])->0, canonical(e[n - 1].1)->0)));
            assert forall|i: int| 0 <= i < n implies (#[trigger] written_key(e[i])) is Some && canonical(e[i].1) is Some by {
                if i < n - 1 {
                    assert(q[i] == (written_key(e[i])->0, canonical(e[i].1)->0));
                }
            }
            assert forall|i: int| 0 <= i < n implies #[trigger] p[i] == (written_key(e[i])->0, canonical(e[i].1)->0) by {
                if i < n - 1 {
                    assert(p[i] == q[i]);
                }
            }
        } else if forall|i: int| 0 <= i < n ==> (#[trigger] written_key(e[i])) is Some && canonical(e[i].1) is Some {
            assert(written_key(e[n - 1]) is Some && canonical(e[n - 1].1) is Some);
            assert forall|i: int| 0 <= i < n - 1 implies (#[trigger] written_key(e[i])) is Some && canonical(e[i].1) is Some by {
                assert(written_key(e[i]) is Some);
            }
        }
    }
}

/// Entries whose keys pair up, with values of the same canonical text.
pub open spec fn entries_agree(x: Seq<(String, JsonValue)>, y: Seq<(String, JsonValue)>) -> bool {
    &&& keys_apart(x)
    &&& keys_apart(y)
    &&& forall|i: int|
        0 <= i < x.len() ==> exists|j: int|
            #![trigger y[j]]
            0 <= j < y.len() && (#[trigger] x[i]).0@ == y[j].0@ && canonical(x[i].1) == canonical(y[j].1)
    &&& forall|j: int|
        0 <= j < y.len() ==> exists|i: int|
            #![trigger x[i]]
            0 <= i < x.len() && x[i].0@ == (#[trigger] y[j]).0@ && canonical(x[i].1) == canonical(y[j].1)
}

proof fn lemma_writable_agree(x: Seq<(String, JsonValue)>, y: Seq<(String, JsonValue)>)
    requires
        entries_agree(x, y),
    ensures
        entries_writable(x) <==> entries_writable(y),
{
    if entries_writable(y) {
        assert forall|i: int| 0 <= i < x.len() implies (#[trigger] written_key(x[i])) is Some && canonical(x[i].1) is Some by {
            let j = choose|j: int| #![trigger y[j]] 0 <= j < y.len() && x[i].0@ == y[j].0@ && canonical(x[i].1) == canonical(y[j].1);
            assert(written_key(y[j]) is Some);
        }
    }
    if entries_writable(x) {
        assert forall|j: int| 0 <= j < y.len() implies (#[trigger] written_key(y[j])) is Some && canonical(y[j].1) is Some by {
            let i = choose|i: int| #![trigger x[i]] 0 <= i < x.len() && x[i].0@ == y[j].0@ && canonical(x[i].1) == canonical(y[j].1);
            assert(written_key(x[i]) is Some);
        }
    }
}

proof fn lemma_pairs_distinct(x: Seq<(String, JsonValue)>)
    requires
        keys_apart(x),
        entries_writable(x),
    ensures
        pair_keys_distinct(canonical_entries(x, x.len())->0),
{
    lemma_entries_pointwise(x, x.len());
    let px = canonical_entries(x, x.len())->0;
    assert forall|i: int, k: int| 0 <= i < k < px.len() implies (#[trigger] px[i]).0 != (#[trigger] px[k]).0 by {
        assert(px[i] == (written_key(x[i])->0, canonical(x[i].1)->0));
        assert(px[k] == (written_key(x[k])->0, canonical(x[k].1)->0));
        assert(written_key(x[i]) != written_key(x[k]));
    }
}

proof fn lemma_object_entries_agree(x: Seq<(String, JsonValue)>, y: Seq<(String, JsonValue)>)
    requires
        entries_agree(x, y),
    ensures
        canonical_entries(x, x.len()) is Some <==> canonical_entries(y, y.len()) is Some,
        canonical_entries(x, x.len()) is Some ==> sort_pairs(canonical_entries(x, x.len())->0) == sort_pairs(
            canonical_entries(y, y.len())->0,
        ),
{
    lemma_entries_pointwise(x, x.len());
    lemma_entries_pointwise(y, y.len());
    lemma_writable_agree(x, y);
    if entries_writable(x) {
        let px = canonical_entries(x, x.len())->0;
        let py = canonical_entries(y, y.len())->0;
        lemma_pairs_distinct(x);
        lemma_pairs_distinct(y);
        assert forall|i: int| 0 <= i < px.len() implies py.contains(#[trigger] px[i]) by {
            let j = choose|j: int| #![trigger y[j]] 0 <= j < y.len() && x[i].0@ == y[j].0@ && canonical(x[i].1) == canonical(y[j].1);
            assert(px[i] == (written_key(x[i])->0, canonical(x[i].1)->0));
            assert(py[j] == (written_key(y[j])->0, canonical(y[j].1)->0));
            assert(py[j] == px[i]);
        }
        assert forall|j: int| 0 <= j < py.len() implies px.contains(#[trigger] py[j]) by {
            let i = choose|i: int| #![trigger x[i]] 0 <= i < x.len() && x[i].0@ == y[j].0@ && canonical(x[i].1) == canonical(y[j].1);
            assert(px[i] == (written_key(x[i])->0, canonical(x[i].1)->0));
            assert(py[j] == (written_key(y[j])->0, canonical(y[j].1)->0));
            assert(px[i] == py[j]);
        }
        lemma_sort_pairs_same_entries(px, py);
    }
}

/// Entries paired by key, with values of the same canonical text.
pub open spec fn paired(x: Seq<(String, JsonValue)>, y: Seq<(String, JsonValue)>) -> bool {
    &&& keys_apart(x)
    &&& keys_apart(y)
    &&& forall|i: int|
        0 <= i < x.len() ==> {
            let j = #[trigger] partner(x, y, i);
            &&& 0 <= j < y.len()
            &&& x[i].0@ == y[j].0@
            &&& canonical(x[i].1) == canonical(y[j].1)
        }
    &&& forall|j: int|
        0 <= j < y.len() ==> {
            let i = #[trigger] partner_back(x, y, j);
            &&& 0 <= i < x.len()
            &&& x[i].0@ == y[j].0@
            &&& canonical(x[i].1) == canonical(y[j].1)
        }
}

proof fn lemma_paired_agree(x: Seq<(String, JsonValue)>, y: Seq<(String, JsonValue)>)
    requires
        paired(x, y),
    ensures
        entries_agree(x, y),
{
    assert forall|i: int| 0 <= i < x.len() implies exists|j: int|
        #![trigger y[j]]
        0 <= j < y.len() && (#[trigger] x[i]).0@ == y[j].0@ && canonical(x[i].1) == canonical(y[j].1) by {
        let j = partner(x, y, i);
        assert(y[j] == y[j]);
    }
    assert forall|j: int| 0 <= j < y.len() implies exists|i: int|
        #![trigger x[i]]
        0 <= i < x.len() && x[i].0@ == (#[trigger] y[j]).0@ && canonical(x[i].1) == canonical(y[j].1) by {
        let i = partner_back(x, y, j);
        assert(x[i] == x[i]);
    }
}

proof fn lemma_object_canonical(xv: Vec<(String, JsonValue)>, yv: Vec<(String, JsonValue)>)
    requires
        entries_agree(xv@, yv@),
    ensures
        canonical(JsonValue::Object(xv)) == canonical(JsonValue::Object(yv)),
{
    lemma_object_entries_agree(xv@, yv@);
}

/// Values that differ only in the order of object entries, with no key
/// written alike twice in an object, have the same canonical text.
pub proof fn law_entry_order_keeps_canonical_text(a: JsonValue, b: JsonValue)
    requires
        reordered(a, b),
    ensures
        canonical(a) == canonical(b),
    decreases a,
{
    match a {
        JsonValue::Array(xv) => {
            lemma_reordered_array(a, b);
            let yv = b->Array_0;
            let x = xv@;
            let y = yv@;
            assert forall|i: int| 0 <= i < x.len() implies canonical(#[trigger] x[i]) == canonical(y[i]) by {
                assert(decreases_to!(a => a->Array_0));
                assert(decreases_to!(a->Array_0 => a->Array_0@));
                assert(decreases_to!(x => x[i]));
                law_entry_order_keeps_canonical_text(x[i], y[i]);
            }
            lemma_items_agree(x, y, x.len());
        },
        JsonValue::Object(xv) => {
            lemma_reordered_object(a, b);
            let yv = b->Object_0;
            let x = xv@;
            let y = yv@;
            assert forall|i: int| 0 <= i < x.len() implies canonical(x[i].1) == canonical(
                y[#[trigger] partner(x, y, i)].1,
            ) by {
                assert(decreases_to!(a => a->Object_0));
                assert(decreases_to!(a->Object_0 => a->Object_0@));
                assert(decreases_to!(x => x[i]));
                assert(decreases_to!(x[i] => x[i].1));
                law_entry_order_keeps_canonical_text(x[i].1, y[partner(x, y, i)].1);
            }
            assert forall|j: int| 0 <= j < y.len() implies canonical(x[#[trigger] partner_back(x, y, j)].1) == canonical(
                y[j].1,
            ) by {
                let i = partner_back(x, y, j);
                assert(decreases_to!(a => a->Object_0));
                assert(decreases_to!(a->Object_0 => a->Object_0@));
                assert(decreases_to!(x => x[i]));
                assert(decreases_to!(x[i] => x[i].1));
                law_entry_order_keeps_canonical_text(x[i].1, y[j].1);
            }
            lemma_paired_agree(x, y);
            lemma_object_canonical(xv, yv);
        },
        JsonValue::Null => {
            reveal(reordered);
        },
        JsonValue::Bool(_) => {
            reveal(reordered);
        },
        JsonValue::Number(_) => {
            reveal(reordered);
        },
        JsonValue::Text(_) => {
            reveal(reordered);
        },
    }
}

/// Values that differ only in the order of object entries, with no key
/// written alike twice in an object, give a claim the same identifier.
pub proof fn law_entry_order_keeps_identifier(
    category: KnowledgeCategory,
    subject: Seq<char>,
    predicate: Seq<char>,
    a: JsonValue,
    b: JsonValue,
)
    requires
        reordered(a, b),
    ensures
        derived_id(category, subject, predicate, a) == derived_id(category, subject, predicate, b),
{
    law_entry_order_keeps_canonical_text(a, b);
}

} // verus!
