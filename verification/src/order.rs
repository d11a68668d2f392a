//! Deterministic ordering: every sortable value has a key, a sequence of
//! integers compared lexicographically, and collections are kept sorted by key
//! with one element per key.
use vstd::prelude::*;
use crate::text::chars_of;

verus! {

/// Strict lexicographic order on keys; a proper prefix comes first.
pub open spec fn key_lt(a: Seq<u32>, b: Seq<u32>) -> bool
    decreases a.len(),
{
    if a.len() == 0 {
        b.len() > 0
    } else if b.len() == 0 {
        false
    } else if a[0] < b[0] {
        true
    } else if a[0] > b[0] {
        false
    } else {
        key_lt(a.drop_first(), b.drop_first())
    }
}

pub proof fn lemma_key_lt_irreflexive(a: Seq<u32>)
    ensures
        !key_lt(a, a),
    decreases a.len(),
{
    if a.len() > 0 {
        lemma_key_lt_irreflexive(a.drop_first());
    }
}

pub proof fn lemma_key_lt_transitive(a: Seq<u32>, b: Seq<u32>, c: Seq<u32>)
    requires
        key_lt(a, b),
        key_lt(b, c),
    ensures
        key_lt(a, c),
    decreases a.len(),
{
    if a.len() > 0 && b.len() > 0 && c.len() > 0 {
        if a[0] == b[0] && b[0] == c[0] {
            lemma_key_lt_transitive(a.drop_first(), b.drop_first(), c.drop_first());
        }
    }
}

#[verifier::spinoff_prover]
pub proof fn lemma_key_lt_total(a: Seq<u32>, b: Seq<u32>)
    ensures
        a == b || key_lt(a, b) || key_lt(b, a),
    decreases a.len(),
{
    if a.len() > 0 && b.len() > 0 && a[0] == b[0] {
        lemma_key_lt_total(a.drop_first(), b.drop_first());
        if a.drop_first() == b.drop_first() {
            assert(a =~= seq![a[0]] + a.drop_first());
            assert(b =~= seq![b[0]] + b.drop_first());
        }
    }
    if a.len() == 0 && b.len() == 0 {
        assert(a =~= b);
    }
}

pub proof fn lemma_key_lt_asymmetric(a: Seq<u32>, b: Seq<u32>)
    requires
        key_lt(a, b),
    ensures
        !key_lt(b, a),
{
    if key_lt(b, a) {
        lemma_key_lt_transitive(a, b, a);
        lemma_key_lt_irreflexive(a);
    }
}

/// A value with a sort key.
pub trait SortKey {
    spec fn sort_key(&self) -> Seq<u32>;

    fn key(&self) -> (k: Vec<u32>)
        ensures
            k@ == self.sort_key(),
    ;
}

/// Three-way comparison of keys: -1, 0 or 1.
pub fn compare_keys(a: &Vec<u32>, b: &Vec<u32>) -> (r: i8)
    ensures
        r == -1 <==> key_lt(a@, b@),
        r == 0 <==> a@ == b@,
        r == 1 <==> key_lt(b@, a@),
        r == -1 || r == 0 || r == 1,
{
    let mut i: usize = 0;
    assert(a@.skip(0) =~= a@);
    assert(b@.skip(0) =~= b@);
    assert(a@.take(0) =~= b@.take(0));
    while i < a.len() && i < b.len() && a[i] == b[i]
        invariant
            i <= a@.len(),
            i <= b@.len(),
            a@.take(i as int) == b@.take(i as int),
            key_lt(a@, b@) == key_lt(a@.skip(i as int), b@.skip(i as int)),
            key_lt(b@, a@) == key_lt(b@.skip(i as int), a@.skip(i as int)),
        decreases a@.len() - i,
    {
        assert(a@.skip(i as int).drop_first() =~= a@.skip(i + 1));
        assert(b@.skip(i as int).drop_first() =~= b@.skip(i + 1));
        assert(a@.take(i + 1) =~= a@.take(i as int).push(a@[i as int]));
        assert(b@.take(i + 1) =~= b@.take(i as int).push(b@[i as int]));
        i = i + 1;
    }
    proof {
        lemma_key_lt_irreflexive(a@);
        lemma_key_lt_total(a@, b@);
        if key_lt(a@, b@) {
            lemma_key_lt_asymmetric(a@, b@);
        }
    }
    if i < a.len() && i < b.len() {
        assert(a@.skip(i as int)[0] == a@[i as int]);
        assert(b@.skip(i as int)[0] == b@[i as int]);
        if a[i] < b[i] {
            assert(a@ != b@ ==> true);
            assert(a@[i as int] != b@[i as int]);
            -1
        } else {
            assert(a@[i as int] != b@[i as int]);
            1
        }
    } else if i == a.len() && i == b.len() {
        assert(a@ =~= a@.take(i as int));
        assert(b@ =~= b@.take(i as int));
        0
    } else if i == a.len() {
        assert(a@.skip(i as int).len() == 0);
        assert(a@.len() != b@.len());
        -1
    } else {
        assert(b@.skip(i as int).len() == 0);
        assert(a@.len() != b@.len());
        1
    }
}

/// Strictly increasing keys.
pub open spec fn keys_strictly_sorted<T: SortKey>(s: Seq<T>) -> bool {
    forall|i: int, j: int|
        0 <= i < j < s.len() ==> key_lt(#[trigger] s[i].sort_key(), #[trigger] s[j].sort_key())
}

/// Some element of `s` has key `k`.
pub open spec fn has_key<T: SortKey>(s: Seq<T>, k: Seq<u32>) -> bool {
    exists|i: int| 0 <= i < s.len() && #[trigger] s[i].sort_key() == k
}

/// `r` holds the elements of `v`, one per key, in increasing key order.
pub open spec fn sorted_unique_of<T: SortKey>(r: Seq<T>, v: Seq<T>) -> bool {
    &&& keys_strictly_sorted(r)
    &&& forall|i: int| 0 <= i < r.len() ==> v.contains(#[trigger] r[i])
    &&& forall|j: int| 0 <= j < v.len() ==> has_key(r, #[trigger] v[j].sort_key())
}

/// Sorts by key and keeps one element per key (the first met).
pub fn sort_unique<T: SortKey>(v: Vec<T>) -> (r: Vec<T>)
    ensures
        sorted_unique_of(r@, v@),
{
    let ghost orig = v@;
    let mut v = v;
    let mut r: Vec<T> = Vec::new();
    let ghost mut n: int = 0;
    while v.len() > 0
        invariant
            0 <= n <= orig.len(),
            v@ == orig.skip(n),
            keys_strictly_sorted(r@),
            forall|i: int| 0 <= i < r@.len() ==> orig.contains(#[trigger] r@[i]),
            forall|j: int| 0 <= j < n ==> has_key(r@, #[trigger] orig[j].sort_key()),
        decreases v@.len(),
    {
        let x = v.remove(0);
        assert(x == orig[n]);
        let kx = x.key();
        let mut pos: usize = 0;
        let mut found = false;
        let mut stop = false;
        while !stop && pos < r.len()
            invariant
                0 <= pos <= r@.len(),
                kx@ == x.sort_key(),
                keys_strictly_sorted(r@),
                forall|i: int| 0 <= i < pos ==> key_lt(#[trigger] r@[i].sort_key(), kx@),
                found ==> stop,
                found ==> pos < r@.len() && r@[pos as int].sort_key() == kx@,
                stop && !found ==> pos < r@.len() && key_lt(kx@, r@[pos as int].sort_key()),
            decreases r@.len() - pos, (if stop { 0int } else { 1int }),
        {
            let kp = r[pos].key();
            let c = compare_keys(&kp, &kx);
            if c == 0 {
                found = true;
                stop = true;
            } else if c == 1 {
                stop = true;
            } else {
                pos = pos + 1;
            }
        }
        let ghost old_r = r@;
        if found {
            assert(r@[pos as int].sort_key() == x.sort_key());
        } else {
            r.insert(pos, x);
            assert forall|i: int, j: int| 0 <= i < j < r@.len() implies key_lt(
                #[trigger] r@[i].sort_key(),
                #[trigger] r@[j].sort_key(),
            ) by {
                if j < pos {
                    assert(r@[i] == old_r[i] && r@[j] == old_r[j]);
                } else if j == pos {
                    assert(r@[i] == old_r[i]);
                } else if i == pos {
                    assert(r@[j] == old_r[j - 1]);
                    if j - 1 > pos {
                        lemma_key_lt_transitive(kx@, old_r[pos as int].sort_key(), old_r[j - 1].sort_key());
                    }
                } else if i < pos {
                    assert(r@[i] == old_r[i] && r@[j] == old_r[j - 1]);
                    lemma_key_lt_transitive(old_r[i].sort_key(), kx@, old_r[pos as int].sort_key());
                    if j - 1 > pos {
                        lemma_key_lt_transitive(old_r[i].sort_key(), old_r[pos as int].sort_key(), old_r[j - 1].sort_key());
                    }
                } else {
                    assert(r@[i] == old_r[i - 1] && r@[j] == old_r[j - 1]);
                }
            }
            assert forall|i: int| 0 <= i < r@.len() implies orig.contains(#[trigger] r@[i]) by {
                if i < pos {
                    assert(r@[i] == old_r[i]);
                } else if i == pos {
                    assert(orig[n] == r@[i]);
                } else {
                    assert(r@[i] == old_r[i - 1]);
                }
            }
            assert forall|k: Seq<u32>| has_key(old_r, k) implies has_key(r@, k) by {
                let i = choose|i: int| 0 <= i < old_r.len() && #[trigger] old_r[i].sort_key() == k;
                if i < pos {
                    assert(r@[i] == old_r[i]);
                } else {
                    assert(r@[i + 1] == old_r[i]);
                }
            }
            assert(r@[pos as int] == x);
        }
        proof {
            assert forall|j: int| 0 <= j < n + 1 implies has_key(r@, #[trigger] orig[j].sort_key()) by {
                if j < n {
                    assert(has_key(old_r, orig[j].sort_key()));
                } else {
                    assert(r@[pos as int].sort_key() == orig[j].sort_key());
                }
            }
            n = n + 1;
            assert(v@ =~= orig.skip(n));
        }
    }
    assert(n == orig.len());
    r
}

/// The key element of a character: its scalar value plus one.
pub open spec fn char_code(c: char) -> u32 {
    ((c as u32) + 1) as u32
}

/// The key of a string: each character shifted up by one, then a terminating zero.
/// Concatenated string keys compare as tuples of strings compare.
pub open spec fn str_key(s: Seq<char>) -> Seq<u32> {
    s.map_values(|c: char| char_code(c)) + seq![0u32]
}

/// Appends the key of a string.
pub fn push_str_key(k: &mut Vec<u32>, s: &str)
    ensures
        final(k)@ == old(k)@ + str_key(s@),
{
    let chars = chars_of(s);
    let ghost start = k@;
    let mut i: usize = 0;
    while i < chars.len()
        invariant
            i <= chars@.len(),
            chars@ == s@,
            k@ == start + chars@.take(i as int).map_values(|c: char| char_code(c)),
        decreases chars@.len() - i,
    {
        let c = chars[i];
        let u = c as u32;
        proof {
            vstd::utf8::char_is_scalar(c);
        }
        k.push(u + 1);
        i = i + 1;
        assert(chars@.take(i as int).map_values(|c: char| char_code(c)) =~= chars@.take(
            i - 1,
        ).map_values(|c: char| char_code(c)).push(char_code(c)));
    }
    k.push(0);
    assert(chars@.take(chars@.len() as int) =~= chars@);
    assert(k@ =~= start + str_key(s@));
}

/// Appends one tag value to a key.
pub fn push_tag(k: &mut Vec<u32>, tag: u32)
    ensures
        final(k)@ == old(k)@.push(tag),
{
    k.push(tag);
}

/// A string ordered by its characters.
impl SortKey for String {
    open spec fn sort_key(&self) -> Seq<u32> {
        str_key(self@)
    }

    fn key(&self) -> (k: Vec<u32>) {
        let mut k = Vec::new();
        push_str_key(&mut k, self.as_str());
        assert(k@ =~= str_key(self@));
        k
    }
}

/// Both sequences hold the same keys.
pub open spec fn same_key_set<T: SortKey>(v: Seq<T>, w: Seq<T>) -> bool {
    &&& forall|j: int| 0 <= j < v.len() ==> has_key(w, #[trigger] v[j].sort_key())
    &&& forall|j: int| 0 <= j < w.len() ==> has_key(v, #[trigger] w[j].sort_key())
}

pub proof fn lemma_sorted_same_keys<T: SortKey>(a: Seq<T>, b: Seq<T>)
    requires
        keys_strictly_sorted(a),
        keys_strictly_sorted(b),
        forall|k: Seq<u32>| has_key(a, k) <==> has_key(b, k),
    ensures
        a.len() == b.len(),
        forall|i: int| 0 <= i < a.len() ==> #[trigger] a[i].sort_key() == b[i].sort_key(),
    decreases a.len(),
{
    if a.len() == 0 {
        if b.len() > 0 {
            assert(has_key(b, b[0].sort_key()));
        }
        return;
    }
    if b.len() == 0 {
        assert(has_key(a, a[0].sort_key()));
        return;
    }
    assert(has_key(a, a[0].sort_key()));
    assert(has_key(b, b[0].sort_key()));
    let j = choose|j: int| 0 <= j < b.len() && #[trigger] b[j].sort_key() == a[0].sort_key();
    let i = choose|i: int| 0 <= i < a.len() && #[trigger] a[i].sort_key() == b[0].sort_key();
    if j > 0 {
        assert(key_lt(b[0].sort_key(), b[j].sort_key()));
        if i == 0 {
            lemma_key_lt_irreflexive(a[0].sort_key());
        } else {
            assert(key_lt(a[0].sort_key(), a[i].sort_key()));
            lemma_key_lt_asymmetric(b[0].sort_key(), b[j].sort_key());
        }
    }
    assert(a[0].sort_key() == b[0].sort_key());
    let ta = a.drop_first();
    let tb = b.drop_first();
    assert forall|k: Seq<u32>| has_key(ta, k) <==> has_key(tb, k) by {
        if has_key(ta, k) {
            let x = choose|x: int| 0 <= x < ta.len() && #[trigger] ta[x].sort_key() == k;
            assert(a[x + 1].sort_key() == k);
            assert(key_lt(a[0].sort_key(), a[x + 1].sort_key()));
            lemma_key_lt_irreflexive(k);
            assert(has_key(b, k));
            let y = choose|y: int| 0 <= y < b.len() && #[trigger] b[y].sort_key() == k;
            assert(y != 0);
            assert(tb[y - 1].sort_key() == k);
        }
        if has_key(tb, k) {
            let x = choose|x: int| 0 <= x < tb.len() && #[trigger] tb[x].sort_key() == k;
            assert(b[x + 1].sort_key() == k);
            assert(key_lt(b[0].sort_key(), b[x + 1].sort_key()));
            lemma_key_lt_irreflexive(k);
            assert(has_key(a, k));
            let y = choose|y: int| 0 <= y < a.len() && #[trigger] a[y].sort_key() == k;
            assert(y != 0);
            assert(ta[y - 1].sort_key() == k);
        }
    }
    assert(keys_strictly_sorted(ta)) by {
        assert forall|p: int, q: int| 0 <= p < q < ta.len() implies key_lt(
            #[trigger] ta[p].sort_key(),
            #[trigger] ta[q].sort_key(),
        ) by {
            assert(ta[p] == a[p + 1] && ta[q] == a[q + 1]);
        }
    }
    assert(keys_strictly_sorted(tb)) by {
        assert forall|p: int, q: int| 0 <= p < q < tb.len() implies key_lt(
            #[trigger] tb[p].sort_key(),
            #[trigger] tb[q].sort_key(),
        ) by {
            assert(tb[p] == b[p + 1] && tb[q] == b[q + 1]);
        }
    }
    lemma_sorted_same_keys(ta, tb);
    assert forall|x: int| 0 <= x < a.len() implies #[trigger] a[x].sort_key() == b[x].sort_key() by {
        if x > 0 {
            assert(ta[x - 1] == a[x] && tb[x - 1] == b[x]);
        }
    }
}

/// Sorting with one element per key depends only on the set of keys: inputs
/// with the same keys give results with the same keys, position by position.
pub proof fn lemma_sort_unique_determined<T: SortKey>(a: Seq<T>, v: Seq<T>, b: Seq<T>, w: Seq<T>)
    requires
        sorted_unique_of(a, v),
        sorted_unique_of(b, w),
        same_key_set(v, w),
    ensures
        a.len() == b.len(),
        forall|i: int| 0 <= i < a.len() ==> #[trigger] a[i].sort_key() == b[i].sort_key(),
{
    assert forall|k: Seq<u32>| has_key(a, k) <==> has_key(b, k) by {
        if has_key(a, k) {
            let x = choose|x: int| 0 <= x < a.len() && #[trigger] a[x].sort_key() == k;
            assert(v.contains(a[x]));
            let j = choose|j: int| 0 <= j < v.len() && v[j] == a[x];
            assert(has_key(w, v[j].sort_key()));
            let y = choose|y: int| 0 <= y < w.len() && #[trigger] w[y].sort_key() == k;
            assert(has_key(b, w[y].sort_key()));
        }
        if has_key(b, k) {
            let x = choose|x: int| 0 <= x < b.len() && #[trigger] b[x].sort_key() == k;
            assert(w.contains(b[x]));
            let j = choose|j: int| 0 <= j < w.len() && w[j] == b[x];
            assert(has_key(v, w[j].sort_key()));
            let y = choose|y: int| 0 <= y < v.len() && #[trigger] v[y].sort_key() == k;
            assert(has_key(a, v[y].sort_key()));
        }
    }
    lemma_sorted_same_keys(a, b);
}

proof fn lemma_char_code_eq(x: char, y: char)
    requires
        char_code(x) == char_code(y),
    ensures
        x == y,
{
    vstd::utf8::char_is_scalar(x);
    vstd::utf8::char_is_scalar(y);
    let ux: u32 = x as u32;
    let uy: u32 = y as u32;
    vstd::utf8::char_u32_cast(x, ux);
    vstd::utf8::char_u32_cast(y, uy);
}

proof fn lemma_char_code_positive(x: char)
    ensures
        char_code(x) > 0,
{
    vstd::utf8::char_is_scalar(x);
}

/// A string key ends where its terminator is: two keys followed by more
/// agree only where the strings and what follows agree.
pub proof fn lemma_str_key_split(a: Seq<char>, b: Seq<char>, r1: Seq<u32>, r2: Seq<u32>)
    requires
        str_key(a) + r1 == str_key(b) + r2,
    ensures
        a == b,
        r1 == r2,
    decreases a.len(),
{
    let x = str_key(a) + r1;
    let y = str_key(b) + r2;
    if a.len() == 0 {
        assert(x[0] == 0u32);
        if b.len() > 0 {
            lemma_char_code_positive(b[0]);
            assert(y[0] == char_code(b[0]));
        }
        assert(a =~= b);
        assert(r1 =~= x.skip(1));
        assert(r2 =~= y.skip(1));
    } else {
        lemma_char_code_positive(a[0]);
        assert(x[0] == char_code(a[0]));
        if b.len() == 0 {
            assert(y[0] == 0u32);
        }
        assert(y[0] == char_code(b[0]));
        lemma_char_code_eq(a[0], b[0]);
        assert(str_key(a.drop_first()) + r1 =~= x.drop_first());
        assert(str_key(b.drop_first()) + r2 =~= y.drop_first());
        lemma_str_key_split(a.drop_first(), b.drop_first(), r1, r2);
        assert(a =~= seq![a[0]] + a.drop_first());
        assert(b =~= seq![b[0]] + b.drop_first());
    }
}

/// Equal string keys come from equal strings.
pub proof fn lemma_str_key_injective(x: Seq<char>, y: Seq<char>)
    requires
        str_key(x) == str_key(y),
    ensures
        x == y,
{
    assert(str_key(x).len() == x.len() + 1);
    assert(str_key(y).len() == y.len() + 1);
    assert forall|i: int| 0 <= i < x.len() implies x[i] == y[i] by {
        let cx = x[i];
        let cy = y[i];
        assert(str_key(x)[i] == char_code(cx));
        assert(str_key(y)[i] == char_code(cy));
        vstd::utf8::char_is_scalar(cx);
        vstd::utf8::char_is_scalar(cy);
        let ux: u32 = cx as u32;
        let uy: u32 = cy as u32;
        assert(ux == uy);
        vstd::utf8::char_u32_cast(cx, ux);
        vstd::utf8::char_u32_cast(cy, uy);
    }
    assert(x =~= y);
}

pub proof fn lemma_same_key_set_refl<T: SortKey>(v: Seq<T>)
    ensures
        same_key_set(v, v),
{
    assert forall|j: int| 0 <= j < v.len() implies has_key(v, #[trigger] v[j].sort_key()) by {}
}

/// Two canonical orderings of the same strings agree character for character.
pub proof fn lemma_sorted_strings_agree(a: Seq<String>, v: Seq<String>, b: Seq<String>, w: Seq<String>)
    requires
        sorted_unique_of(a, v),
        sorted_unique_of(b, w),
        same_key_set(v, w),
    ensures
        a.len() == b.len(),
        forall|i: int| 0 <= i < a.len() ==> #[trigger] a[i]@ == b[i]@,
{
    lemma_sort_unique_determined(a, v, b, w);
    assert forall|i: int| 0 <= i < a.len() implies #[trigger] a[i]@ == b[i]@ by {
        assert(a[i].sort_key() == b[i].sort_key());
        lemma_str_key_injective(a[i]@, b[i]@);
    }
}

/// Appends one key to another.
pub fn append_key(k: &mut Vec<u32>, more: &Vec<u32>)
    ensures
        final(k)@ == old(k)@ + more@,
{
    let mut i: usize = 0;
    let ghost start = k@;
    while i < more.len()
        invariant
            i <= more@.len(),
            k@ == start + more@.take(i as int),
        decreases more@.len() - i,
    {
        k.push(more[i]);
        i = i + 1;
        assert(k@ =~= start + more@.take(i as int));
    }
    assert(more@.take(more@.len() as int) =~= more@);
}

/// Strictly sorted, holding exactly the given keys.
pub open spec fn sorted_with_keys<T: SortKey>(s: Seq<T>, keys: Set<Seq<u32>>) -> bool {
    &&& keys_strictly_sorted(s)
    &&& forall|k: Seq<u32>| has_key(s, k) <==> keys.contains(k)
}

/// The keys held by a sequence.
pub open spec fn key_set<T: SortKey>(s: Seq<T>) -> Set<Seq<u32>> {
    Set::new(|k: Seq<u32>| has_key(s, k))
}

pub proof fn lemma_sorted_unique_key_set<T: SortKey>(r: Seq<T>, v: Seq<T>)
    requires
        sorted_unique_of(r, v),
    ensures
        sorted_with_keys(r, key_set(v)),
{
    assert forall|k: Seq<u32>| has_key(r, k) <==> key_set(v).contains(k) by {
        if has_key(r, k) {
            let x = choose|x: int| 0 <= x < r.len() && #[trigger] r[x].sort_key() == k;
            assert(v.contains(r[x]));
            let j = choose|j: int| 0 <= j < v.len() && v[j] == r[x];
            assert(has_key(v, v[j].sort_key()));
        }
        if has_key(v, k) {
            let j = choose|j: int| 0 <= j < v.len() && #[trigger] v[j].sort_key() == k;
            assert(has_key(r, v[j].sort_key()));
        }
    }
}

/// Keys never decrease along the sequence.
pub open spec fn keys_sorted<T: SortKey>(s: Seq<T>) -> bool {
    forall|i: int, j: int|
        0 <= i < j < s.len() ==> !key_lt(#[trigger] s[j].sort_key(), #[trigger] s[i].sort_key())
}

/// `r` holds the elements of `v`, as many, in non-decreasing key order.
pub open spec fn sorted_of<T: SortKey>(r: Seq<T>, v: Seq<T>) -> bool {
    &&& r.len() == v.len()
    &&& keys_sorted(r)
    &&& forall|i: int| 0 <= i < r.len() ==> v.contains(#[trigger] r[i])
    &&& forall|j: int| 0 <= j < v.len() ==> r.contains(#[trigger] v[j])
}

/// A reordering of a sequence without repeated elements has none either.
pub proof fn lemma_reorder_no_duplicates<T>(a: Seq<T>, b: Seq<T>)
    requires
        a.to_multiset() == b.to_multiset(),
        a.no_duplicates(),
    ensures
        b.no_duplicates(),
{
    a.lemma_multiset_has_no_duplicates();
    b.lemma_multiset_has_no_duplicates_conv();
}

/// Sorts by key; elements with equal keys keep their order.
pub fn sort_stable<T: SortKey>(v: Vec<T>) -> (r: Vec<T>)
    ensures
        sorted_of(r@, v@),
        r@.to_multiset() == v@.to_multiset(),
{
    let ghost orig = v@;
    let mut v = v;
    let mut r: Vec<T> = Vec::new();
    let ghost mut n: int = 0;
    proof {
        assert(orig.take(0) =~= Seq::<T>::empty());
        assert(r@ =~= Seq::<T>::empty());
    }
    while v.len() > 0
        invariant
            0 <= n <= orig.len(),
            v@ == orig.skip(n),
            r@.len() == n,
            keys_sorted(r@),
            forall|i: int| 0 <= i < r@.len() ==> orig.take(n).contains(#[trigger] r@[i]),
            forall|j: int| 0 <= j < n ==> r@.contains(#[trigger] orig[j]),
            r@.to_multiset() == orig.take(n).to_multiset(),
        decreases v@.len(),
    {
        let x = v.remove(0);
        let kx = x.key();
        let mut p: usize = 0;
        while p < r.len()
            invariant
                p <= r@.len(),
                kx@ == x.sort_key(),
                forall|q: int| 0 <= q < p ==> !key_lt(kx@, #[trigger] r@[q].sort_key()),
            ensures
                p <= r@.len(),
                forall|q: int| 0 <= q < p ==> !key_lt(kx@, #[trigger] r@[q].sort_key()),
                p == r@.len() || key_lt(kx@, r@[p as int].sort_key()),
            decreases r@.len() - p,
        {
            let kp = r[p].key();
            if compare_keys(&kx, &kp) == -1 {
                break;
            }
            p = p + 1;
        }
        let ghost old_r = r@;
        r.insert(p, x);
        proof {
            assert(orig[n] == x) by {
                assert(v@ == orig.skip(n + 1));
            }
            let ghost tn = orig.take(n);
            let ghost tn1 = orig.take(n + 1);
            assert(tn1 == tn.push(x));
            assert forall|i: int, j: int| 0 <= i < j < r@.len() implies !key_lt(
                #[trigger] r@[j].sort_key(),
                #[trigger] r@[i].sort_key(),
            ) by {
                let ki = r@[i].sort_key();
                let kj = r@[j].sort_key();
                if j < p {
                    assert(r@[i] == old_r[i] && r@[j] == old_r[j]);
                } else if j == p {
                    assert(r@[i] == old_r[i]);
                } else if i == p {
                    assert(r@[j] == old_r[j - 1]);
                    // x < old_r[p] <= old_r[j - 1]
                    if j - 1 == p {
                        lemma_key_lt_asymmetric(kx@, kj);
                    } else {
                        assert(!key_lt(old_r[j - 1].sort_key(), old_r[p as int].sort_key()));
                        lemma_key_lt_total(old_r[p as int].sort_key(), kj);
                        if key_lt(kj, kx@) {
                            if old_r[p as int].sort_key() == kj {
                                lemma_key_lt_asymmetric(kx@, kj);
                            } else {
                                lemma_key_lt_transitive(kx@, old_r[p as int].sort_key(), kj);
                                lemma_key_lt_asymmetric(kx@, kj);
                            }
                        }
                    }
                } else if i < p {
                    assert(r@[i] == old_r[i] && r@[j] == old_r[j - 1]);
                    if i < j - 1 {
                    }
                } else {
                    assert(r@[i] == old_r[i - 1] && r@[j] == old_r[j - 1]);
                }
            }
            assert forall|i: int| 0 <= i < r@.len() implies tn1.contains(#[trigger] r@[i]) by {
                if i < p {
                    assert(r@[i] == old_r[i]);
                    assert(tn.contains(old_r[i]));
                    let w = choose|w: int| 0 <= w < tn.len() && tn[w] == old_r[i];
                    assert(tn1[w] == tn[w]);
                } else if i == p {
                    assert(tn1[n] == x);
                } else {
                    assert(r@[i] == old_r[i - 1]);
                    assert(tn.contains(old_r[i - 1]));
                    let w = choose|w: int| 0 <= w < tn.len() && tn[w] == old_r[i - 1];
                    assert(tn1[w] == tn[w]);
                }
            }
            assert forall|j: int| 0 <= j < n + 1 implies r@.contains(#[trigger] orig[j]) by {
                if j == n {
                    assert(r@[p as int] == x);
                } else {
                    assert(old_r.contains(orig[j]));
                    let w = choose|w: int| 0 <= w < old_r.len() && old_r[w] == orig[j];
                    if w < p {
                        assert(r@[w] == old_r[w]);
                    } else {
                        assert(r@[w + 1] == old_r[w]);
                    }
                }
            }
            vstd::seq_lib::to_multiset_insert(old_r, p as int, x);
            vstd::seq_lib::to_multiset_build(tn, x);
            n = n + 1;
            assert(v@ =~= orig.skip(n));
        }
    }
    assert(n == orig.len());
    assert(orig.take(n) =~= orig);
    r
}

} // verus!
