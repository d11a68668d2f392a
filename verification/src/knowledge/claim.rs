//! Knowledge claims: a category, subject, predicate and JSON value, backed by
//! evidence, with an identifier derived from what the claim asserts.
use vstd::prelude::*;
use crate::knowledge::error::KnowledgeError;
use crate::knowledge::model::{
    derived_id, knowledge_id_valid, Confidence, Evidence, EvidenceKind, KnowledgeCategory, KnowledgeId, Validity,
    ValidityCondition,
};
use crate::knowledge::operator::{clone_strings, opt_view};
use crate::knowledge::store::now_rfc3339;
use crate::order::{compare_keys, key_lt, push_str_key, push_tag, sort_unique, sorted_unique_of, str_key, SortKey};
use crate::terminal::invocation::{json_string, json_text};
use crate::text::{ascii_lower, chars_blank, chars_have_control, concat2, has_control, is_blank, char_to_ascii_lowercase, chars_of, decimal, owned, push_decimal, push_str};

verus! {

/// A JSON value as a claim holds it. A number is kept as the text JSON
/// writes for it; an object keeps its entries in the order given.
#[derive(Debug, PartialEq, Eq)]
pub enum JsonValue {
    Null,
    Bool(bool),
    Number(String),
    Text(String),
    Array(Vec<JsonValue>),
    Object(Vec<(String, JsonValue)>),
}

/// The two values are the same JSON: same variants, same texts, and
/// element by element the same items and entries.
pub open spec fn same_value(a: JsonValue, b: JsonValue) -> bool
    decreases a,
{
    match a {
        JsonValue::Null => b is Null,
        JsonValue::Bool(x) => b matches JsonValue::Bool(y) && x == y,
        JsonValue::Number(x) => b matches JsonValue::Number(y) && x@ == y@,
        JsonValue::Text(x) => b matches JsonValue::Text(y) && x@ == y@,
        JsonValue::Array(x) => b matches JsonValue::Array(y) && x@.len() == y@.len() && forall|i: int|
            0 <= i < x@.len() ==> same_value(#[trigger] x@[i], y@[i]),
        JsonValue::Object(x) => b matches JsonValue::Object(y) && x@.len() == y@.len() && forall|i: int|
            0 <= i < x@.len() ==> (#[trigger] x@[i]).0@ == y@[i].0@ && same_value(x@[i].1, y@[i].1),
    }
}

impl JsonValue {
    /// A copy that is the same JSON.
    pub fn duplicate(&self) -> (r: Self)
        ensures
            same_value(*self, r),
        decreases self,
    {
        match self {
            JsonValue::Null => JsonValue::Null,
            JsonValue::Bool(b) => JsonValue::Bool(*b),
            JsonValue::Number(n) => JsonValue::Number(n.clone()),
            JsonValue::Text(s) => JsonValue::Text(s.clone()),
            JsonValue::Array(items) => {
                let mut r: Vec<JsonValue> = Vec::new();
                let mut i: usize = 0;
                while i < items.len()
                    invariant
                        i <= items@.len(),
                        r@.len() == i,
                        forall|j: int| 0 <= j < i ==> same_value(#[trigger] items@[j], r@[j]),
                        *self == JsonValue::Array(*items),
                    decreases items@.len() - i,
                {
                    proof {
                        assert(decreases_to!(*self => self->Array_0));
                        assert(decreases_to!(*items => items@));
                        assert(decreases_to!(items@ => items@[i as int]));
                    }
                    r.push(items[i].duplicate());
                    i = i + 1;
                }
                JsonValue::Array(r)
            },
            JsonValue::Object(entries) => {
                let mut r: Vec<(String, JsonValue)> = Vec::new();
                let mut i: usize = 0;
                while i < entries.len()
                    invariant
                        i <= entries@.len(),
                        r@.len() == i,
                        forall|j: int| 0 <= j < i ==> (#[trigger] entries@[j]).0@ == r@[j].0@ && same_value(entries@[j].1, r@[j].1),
                        *self == JsonValue::Object(*entries),
                    decreases entries@.len() - i,
                {
                    proof {
                        assert(decreases_to!(*self => self->Object_0));
                        assert(decreases_to!(*entries => entries@));
                        assert(decreases_to!(entries@ => entries@[i as int]));
                        assert(decreases_to!(entries@[i as int] => entries@[i as int].1));
                    }
                    r.push((entries[i].0.clone(), entries[i].1.duplicate()));
                    i = i + 1;
                }
                JsonValue::Object(r)
            },
        }
    }
}

/// A key lowercased (ASCII) with `-` and `_` removed.
pub open spec fn compact_key(key: Seq<char>) -> Seq<char> {
    key.filter(|c: char| c != '-' && c != '_').map_values(|c: char| ascii_lower(c))
}

/// A key that names an obvious secret.
pub open spec fn sensitive_key(key: Seq<char>) -> bool {
    let c = compact_key(key);
    c == "password"@ || c == "token"@ || c == "secret"@ || c == "authorization"@ || c == "privatekey"@
        || c == "apikey"@ || c == "accesstoken"@ || c == "refreshtoken"@
}

/// The path of the first object key, depth first and in order, that names an
/// obvious secret; array items are written `[i]` and object entries `.key`.
pub open spec fn value_problem(v: JsonValue, path: Seq<char>) -> Option<Seq<char>>
    decreases v, 0nat,
{
    match v {
        JsonValue::Array(items) => items_problem(items@, path, 0),
        JsonValue::Object(entries) => entries_problem(entries@, path, 0),
        _ => None,
    }
}

pub open spec fn item_path(path: Seq<char>, i: nat) -> Seq<char> {
    path + "["@ + decimal(i) + "]"@
}

pub open spec fn entry_path(path: Seq<char>, key: Seq<char>) -> Seq<char> {
    path + "."@ + key
}

pub open spec fn items_problem(items: Seq<JsonValue>, path: Seq<char>, i: nat) -> Option<Seq<char>>
    decreases items, items.len() - i,
{
    if i >= items.len() {
        None
    } else {
        match value_problem(items[i as int], item_path(path, i)) {
            Some(p) => Some(p),
            None => items_problem(items, path, i + 1),
        }
    }
}

pub open spec fn entries_problem(entries: Seq<(String, JsonValue)>, path: Seq<char>, i: nat) -> Option<Seq<char>>
    decreases entries, entries.len() - i,
{
    if i >= entries.len() {
        None
    } else {
        let key = entries[i as int].0@;
        if sensitive_key(key) {
            Some(entry_path(path, key))
        } else {
            match value_problem(entries[i as int].1, entry_path(path, key)) {
                Some(p) => Some(p),
                None => entries_problem(entries, path, i + 1),
            }
        }
    }
}

fn compact_key_chars(v: &[char]) -> (r: Vec<char>)
    ensures
        r@ == compact_key(v@),
{
    let mut r: Vec<char> = Vec::new();
    let mut i: usize = 0;
    while i < v.len()
        invariant
            i <= v@.len(),
            r@ == compact_key(v@.take(i as int)),
        decreases v@.len() - i,
    {
        let c = v[i];
        let ghost pre = v@.take(i as int);
        assert(v@.take(i + 1) =~= pre.push(c));
        assert(pre.push(c).drop_last() =~= pre);
        proof {
            reveal_with_fuel(Seq::<_>::filter, 1);
        }
        if c != '-' && c != '_' {
            r.push(char_to_ascii_lowercase(c));
        }
        i = i + 1;
        assert(r@ =~= compact_key(v@.take(i as int)));
    }
    assert(v@.take(v@.len() as int) =~= v@);
    r
}

fn chars_are(v: &Vec<char>, word: &str) -> (r: bool)
    ensures
        r == (v@ == word@),
{
    let w = chars_of(word);
    if v.len() != w.len() {
        return false;
    }
    let mut i: usize = 0;
    while i < v.len()
        invariant
            i <= v@.len(),
            v@.len() == w@.len(),
            w@ == word@,
            forall|j: int| 0 <= j < i ==> v@[j] == w@[j],
        decreases v@.len() - i,
    {
        if v[i] != w[i] {
            assert(v@[i as int] != w@[i as int]);
            return false;
        }
        i = i + 1;
    }
    assert(v@ =~= w@);
    true
}

fn is_sensitive_key(key: &str) -> (r: bool)
    ensures
        r == sensitive_key(key@),
{
    let k = chars_of(key);
    let c = compact_key_chars(k.as_slice());
    chars_are(&c, "password") || chars_are(&c, "token") || chars_are(&c, "secret") || chars_are(
        &c,
        "authorization",
    ) || chars_are(&c, "privatekey") || chars_are(&c, "apikey") || chars_are(&c, "accesstoken")
        || chars_are(&c, "refreshtoken")
}

fn path_with_item(path: &str, i: usize) -> (r: String)
    ensures
        r@ == item_path(path@, i as nat),
{
    let mut r = owned(path);
    push_str(&mut r, "[");
    push_decimal(&mut r, i as u64);
    push_str(&mut r, "]");
    r
}

fn path_with_entry(path: &str, key: &str) -> (r: String)
    ensures
        r@ == entry_path(path@, key@),
{
    let mut r = owned(path);
    push_str(&mut r, ".");
    push_str(&mut r, key);
    r
}

/// The path of the first key of the value that names an obvious secret.
pub fn sensitive_path(v: &JsonValue, path: &str) -> (r: Option<String>)
    ensures
        opt_view(r) == value_problem(*v, path@),
    decreases v,
{
    match v {
        JsonValue::Array(items) => {
            let mut i: usize = 0;
            while i < items.len()
                invariant
                    i <= items@.len(),
                    *v == JsonValue::Array(*items),
                    items_problem(items@, path@, 0) == items_problem(items@, path@, i as nat),
                decreases items@.len() - i,
            {
                proof {
                    assert(decreases_to!(*v => v->Array_0));
                    assert(decreases_to!(*items => items@));
                    assert(decreases_to!(items@ => items@[i as int]));
                }
                let p = path_with_item(path, i);
                match sensitive_path(&items[i], p.as_str()) {
                    Some(found) => {
                        return Some(found);
                    },
                    None => {},
                }
                i = i + 1;
            }
            None
        },
        JsonValue::Object(entries) => {
            let mut i: usize = 0;
            while i < entries.len()
                invariant
                    i <= entries@.len(),
                    *v == JsonValue::Object(*entries),
                    entries_problem(entries@, path@, 0) == entries_problem(entries@, path@, i as nat),
                decreases entries@.len() - i,
            {
                proof {
                    assert(decreases_to!(*v => v->Object_0));
                    assert(decreases_to!(*entries => entries@));
                    assert(decreases_to!(entries@ => entries@[i as int]));
                    assert(decreases_to!(entries@[i as int] => entries@[i as int].1));
                }
                let key = entries[i].0.as_str();
                let p = path_with_entry(path, key);
                if is_sensitive_key(key) {
                    return Some(p);
                }
                match sensitive_path(&entries[i].1, p.as_str()) {
                    Some(found) => {
                        return Some(found);
                    },
                    None => {},
                }
                i = i + 1;
            }
            None
        },
        _ => None,
    }
}

/// Texts joined with commas.
pub open spec fn join_parts(parts: Seq<Seq<char>>) -> Seq<char>
    decreases parts.len(),
{
    if parts.len() == 0 {
        Seq::empty()
    } else if parts.len() == 1 {
        parts[0]
    } else {
        join_parts(parts.drop_last()) + ","@ + parts.last()
    }
}

/// The canonical JSON text of a value: literals as JSON writes them, strings
/// and keys escaped as `serde_json` escapes them, array items in order, and
/// object entries sorted by their escaped key; none where a string cannot be
/// written.
pub open spec fn canonical(v: JsonValue) -> Option<Seq<char>>
    decreases v, 0nat,
{
    match v {
        JsonValue::Null => Some("null"@),
        JsonValue::Bool(b) => Some(
            if b {
                "true"@
            } else {
                "false"@
            },
        ),
        JsonValue::Number(n) => Some(n@),
        JsonValue::Text(t) => json_string(t@),
        JsonValue::Array(items) => match canonical_items(items@, items@.len()) {
            Some(parts) => Some("["@ + join_parts(parts) + "]"@),
            None => None,
        },
        JsonValue::Object(entries) => match canonical_entries(entries@, entries@.len()) {
            Some(pairs) => Some("{"@ + join_parts(entry_texts(sort_pairs(pairs))) + "}"@),
            None => None,
        },
    }
}

/// The canonical texts of the first `n` items.
pub open spec fn canonical_items(items: Seq<JsonValue>, n: nat) -> Option<Seq<Seq<char>>>
    decreases items, n,
{
    if n == 0 || n > items.len() {
        Some(Seq::empty())
    } else {
        match (canonical_items(items, (n - 1) as nat), canonical(items[n - 1])) {
            (Some(parts), Some(t)) => Some(parts.push(t)),
            _ => None,
        }
    }
}

/// The escaped keys and canonical values of the first `n` entries.
pub open spec fn canonical_entries(entries: Seq<(String, JsonValue)>, n: nat) -> Option<
    Seq<(Seq<char>, Seq<char>)>,
>
    decreases entries, n,
{
    if n == 0 || n > entries.len() {
        Some(Seq::empty())
    } else {
        match (
            canonical_entries(entries, (n - 1) as nat),
            json_string(entries[n - 1].0@),
            canonical(entries[n - 1].1),
        ) {
            (Some(pairs), Some(k), Some(t)) => Some(pairs.push((k, t))),
            _ => None,
        }
    }
}

/// Inserts an entry after every entry whose key is not greater.
pub open spec fn insert_pair(s: Seq<(Seq<char>, Seq<char>)>, e: (Seq<char>, Seq<char>)) -> Seq<
    (Seq<char>, Seq<char>),
>
    decreases s.len(),
{
    if s.len() == 0 {
        seq![e]
    } else if key_lt(str_key(e.0), str_key(s.last().0)) {
        insert_pair(s.drop_last(), e).push(s.last())
    } else {
        s.push(e)
    }
}

/// The entries sorted by key; entries with equal keys keep their order.
pub open spec fn sort_pairs(s: Seq<(Seq<char>, Seq<char>)>) -> Seq<(Seq<char>, Seq<char>)>
    decreases s.len(),
{
    if s.len() == 0 {
        s
    } else {
        insert_pair(sort_pairs(s.drop_last()), s.last())
    }
}

pub open spec fn entry_texts(s: Seq<(Seq<char>, Seq<char>)>) -> Seq<Seq<char>> {
    s.map_values(|e: (Seq<char>, Seq<char>)| e.0 + ":"@ + e.1)
}

pub open spec fn pair_views(s: Seq<(String, String)>) -> Seq<(Seq<char>, Seq<char>)> {
    s.map_values(|e: (String, String)| (e.0@, e.1@))
}

fn str_less(a: &str, b: &str) -> (r: bool)
    ensures
        r == key_lt(str_key(a@), str_key(b@)),
{
    let mut ka: Vec<u32> = Vec::new();
    push_str_key(&mut ka, a);
    let mut kb: Vec<u32> = Vec::new();
    push_str_key(&mut kb, b);
    assert(ka@ =~= str_key(a@));
    assert(kb@ =~= str_key(b@));
    compare_keys(&ka, &kb) == -1
}

fn insert_sorted(s: Vec<(String, String)>, e: (String, String)) -> (r: Vec<(String, String)>)
    ensures
        pair_views(r@) == insert_pair(pair_views(s@), (e.0@, e.1@)),
    decreases s@.len(),
{
    let mut s = s;
    let n = s.len();
    if n == 0 {
        s.push(e);
        assert(pair_views(s@) =~= seq![(e.0@, e.1@)]);
        return s;
    }
    let ghost before = s@;
    assert(pair_views(before).last() == (before.last().0@, before.last().1@));
    if str_less(e.0.as_str(), s[n - 1].0.as_str()) {
        let last = s.pop().unwrap();
        assert(pair_views(s@) =~= pair_views(before).drop_last());
        let mut r = insert_sorted(s, e);
        let ghost mid = r@;
        r.push(last);
        assert(pair_views(r@) =~= pair_views(mid).push((last.0@, last.1@)));
        r
    } else {
        s.push(e);
        assert(pair_views(s@) =~= pair_views(before).push((e.0@, e.1@)));
        s
    }
}

/// Every value has a canonical text: every string can be written as JSON.
pub proof fn lemma_canonical_total(v: JsonValue)
    ensures
        canonical(v) is Some,
    decreases v, 0nat,
{
    reveal(json_string);
    match v {
        JsonValue::Array(items) => {
            lemma_canonical_items_total(items@, items@.len());
        },
        JsonValue::Object(entries) => {
            lemma_canonical_entries_total(entries@, entries@.len());
        },
        _ => {},
    }
}

proof fn lemma_canonical_items_total(items: Seq<JsonValue>, n: nat)
    ensures
        canonical_items(items, n) is Some,
    decreases items, n,
{
    if n == 0 || n > items.len() {
    } else {
        lemma_canonical_items_total(items, (n - 1) as nat);
        lemma_canonical_total(items[n - 1]);
    }
}

proof fn lemma_canonical_entries_total(entries: Seq<(String, JsonValue)>, n: nat)
    ensures
        canonical_entries(entries, n) is Some,
    decreases entries, n,
{
    reveal(json_string);
    if n == 0 || n > entries.len() {
    } else {
        lemma_canonical_entries_total(entries, (n - 1) as nat);
        lemma_canonical_total(entries[n - 1].1);
    }
}

proof fn lemma_items_none(items: Seq<JsonValue>, n: nat, m: nat)
    requires
        n <= m <= items.len(),
        canonical_items(items, n) is None,
    ensures
        canonical_items(items, m) is None,
    decreases m - n,
{
    if n < m {
        lemma_items_none(items, n, (m - 1) as nat);
    }
}

proof fn lemma_entries_none(entries: Seq<(String, JsonValue)>, n: nat, m: nat)
    requires
        n <= m <= entries.len(),
        canonical_entries(entries, n) is None,
    ensures
        canonical_entries(entries, m) is None,
    decreases m - n,
{
    if n < m {
        lemma_entries_none(entries, n, (m - 1) as nat);
    }
}

/// The canonical JSON text of a value, where every string can be written.
pub fn canonical_json(v: &JsonValue) -> (r: Option<String>)
    ensures
        opt_view(r) == canonical(*v),
    decreases v,
{
    match v {
        JsonValue::Null => Some(owned("null")),
        JsonValue::Bool(b) => Some(
            if *b {
                owned("true")
            } else {
                owned("false")
            },
        ),
        JsonValue::Number(n) => Some(n.clone()),
        JsonValue::Text(t) => json_text(t.as_str()),
        JsonValue::Array(items) => {
            let mut out = owned("[");
            let ghost mut parts: Seq<Seq<char>> = Seq::empty();
            let mut i: usize = 0;
            while i < items.len()
                invariant
                    i <= items@.len(),
                    *v == JsonValue::Array(*items),
                    canonical_items(items@, i as nat) == Some(parts),
                    out@ == "["@ + join_parts(parts),
                    parts.len() == i,
                decreases items@.len() - i,
            {
                proof {
                    assert(decreases_to!(*v => v->Array_0));
                    assert(decreases_to!(*items => items@));
                    assert(decreases_to!(items@ => items@[i as int]));
                }
                let t = match canonical_json(&items[i]) {
                    Some(t) => t,
                    None => {
                        proof {
                            lemma_items_none(items@, (i + 1) as nat, items@.len());
                        }
                        return None;
                    },
                };
                if i > 0 {
                    push_str(&mut out, ",");
                }
                push_str(&mut out, t.as_str());
                proof {
                    let np = parts.push(t@);
                    assert(np.drop_last() =~= parts);
                    parts = np;
                }
                i = i + 1;
            }
            push_str(&mut out, "]");
            Some(out)
        },
        JsonValue::Object(entries) => {
            let mut pairs: Vec<(String, String)> = Vec::new();
            let mut i: usize = 0;
            while i < entries.len()
                invariant
                    i <= entries@.len(),
                    *v == JsonValue::Object(*entries),
                    canonical_entries(entries@, i as nat) == Some(pair_views(pairs@)),
                decreases entries@.len() - i,
            {
                proof {
                    assert(decreases_to!(*v => v->Object_0));
                    assert(decreases_to!(*entries => entries@));
                    assert(decreases_to!(entries@ => entries@[i as int]));
                    assert(decreases_to!(entries@[i as int] => entries@[i as int].1));
                }
                let k = match json_text(entries[i].0.as_str()) {
                    Some(k) => k,
                    None => {
                        proof {
                            lemma_entries_none(entries@, (i + 1) as nat, entries@.len());
                        }
                        return None;
                    },
                };
                let t = match canonical_json(&entries[i].1) {
                    Some(t) => t,
                    None => {
                        proof {
                            lemma_entries_none(entries@, (i + 1) as nat, entries@.len());
                        }
                        return None;
                    },
                };
                let ghost before = pairs@;
                pairs.push((k, t));
                assert(pair_views(pairs@) =~= pair_views(before).push((k@, t@)));
                i = i + 1;
            }
            let mut sorted: Vec<(String, String)> = Vec::new();
            let mut j: usize = 0;
            while j < pairs.len()
                invariant
                    j <= pairs@.len(),
                    pair_views(sorted@) == sort_pairs(pair_views(pairs@).take(j as int)),
                decreases pairs@.len() - j,
            {
                let e = (pairs[j].0.clone(), pairs[j].1.clone());
                let ghost pre = pair_views(pairs@).take(j as int);
                assert(pair_views(pairs@).take(j + 1) =~= pre.push((e.0@, e.1@)));
                assert(pre.push((e.0@, e.1@)).drop_last() =~= pre);
                sorted = insert_sorted(sorted, e);
                j = j + 1;
            }
            assert(pair_views(pairs@).take(pairs@.len() as int) =~= pair_views(pairs@));
            let ghost texts = entry_texts(pair_views(sorted@));
            let mut out = owned("{");
            let mut m: usize = 0;
            while m < sorted.len()
                invariant
                    m <= sorted@.len(),
                    texts == entry_texts(pair_views(sorted@)),
                    out@ == "{"@ + join_parts(texts.take(m as int)),
                decreases sorted@.len() - m,
            {
                if m > 0 {
                    push_str(&mut out, ",");
                }
                push_str(&mut out, sorted[m].0.as_str());
                push_str(&mut out, ":");
                push_str(&mut out, sorted[m].1.as_str());
                let ghost pre = texts.take(m as int);
                assert(texts.take(m + 1) =~= pre.push(texts[m as int]));
                assert(pre.push(texts[m as int]).drop_last() =~= pre);
                m = m + 1;
            }
            assert(texts.take(sorted@.len() as int) =~= texts);
            push_str(&mut out, "}");
            Some(out)
        },
    }
}

/// The key of an optional text: absent first, then by the text.
pub open spec fn opt_key(o: Option<String>) -> Seq<u32> {
    match o {
        None => seq![0u32],
        Some(s) => seq![1u32] + str_key(s@),
    }
}

/// The keys of a list of texts, each marked as present.
pub open spec fn items_key(v: Seq<String>) -> Seq<u32>
    decreases v.len(),
{
    if v.len() == 0 {
        Seq::empty()
    } else {
        items_key(v.drop_last()) + seq![1u32] + str_key(v.last()@)
    }
}

/// The key of a list of texts: element by element, a shorter list first.
pub open spec fn list_key(v: Seq<String>) -> Seq<u32> {
    items_key(v) + seq![0u32]
}

fn push_opt_key(k: &mut Vec<u32>, o: &Option<String>)
    ensures
        final(k)@ == old(k)@ + opt_key(*o),
{
    match o {
        None => {
            push_tag(k, 0);
        },
        Some(s) => {
            push_tag(k, 1);
            push_str_key(k, s.as_str());
        },
    }
    assert(k@ =~= old(k)@ + opt_key(*o));
}

fn push_list_key(k: &mut Vec<u32>, v: &Vec<String>)
    ensures
        final(k)@ == old(k)@ + list_key(v@),
{
    let ghost start = k@;
    let mut i: usize = 0;
    while i < v.len()
        invariant
            i <= v@.len(),
            k@ == start + items_key(v@.take(i as int)),
        decreases v@.len() - i,
    {
        push_tag(k, 1);
        push_str_key(k, v[i].as_str());
        let ghost pre = v@.take(i as int);
        assert(v@.take(i + 1) =~= pre.push(v@[i as int]));
        assert(pre.push(v@[i as int]).drop_last() =~= pre);
        i = i + 1;
        assert(k@ =~= start + items_key(v@.take(i as int)));
    }
    assert(v@.take(v@.len() as int) =~= v@);
    push_tag(k, 0);
    assert(k@ =~= start + list_key(v@));
}

pub open spec fn evidence_kind_tag(kind: EvidenceKind) -> u32 {
    match kind {
        EvidenceKind::ContextFact => 0,
        EvidenceKind::ManifestObservation => 1,
        EvidenceKind::RepositoryObservation => 2,
        EvidenceKind::AdrDecision => 3,
        EvidenceKind::ExecutionResult => 4,
        EvidenceKind::UserDecision => 5,
        EvidenceKind::RoadmapGoal => 6,
    }
}

fn kind_tag(kind: EvidenceKind) -> (r: u32)
    ensures
        r == evidence_kind_tag(kind),
{
    match kind {
        EvidenceKind::ContextFact => 0,
        EvidenceKind::ManifestObservation => 1,
        EvidenceKind::RepositoryObservation => 2,
        EvidenceKind::AdrDecision => 3,
        EvidenceKind::ExecutionResult => 4,
        EvidenceKind::UserDecision => 5,
        EvidenceKind::RoadmapGoal => 6,
    }
}

/// Evidence is ordered by kind, identifier, locator, then fingerprints.
impl SortKey for Evidence {
    open spec fn sort_key(&self) -> Seq<u32> {
        seq![evidence_kind_tag(self.kind)] + str_key(self.identifier@) + opt_key(self.locator) + list_key(
            self.fingerprints@,
        )
    }

    fn key(&self) -> (k: Vec<u32>) {
        let mut k: Vec<u32> = Vec::new();
        push_tag(&mut k, kind_tag(self.kind));
        push_str_key(&mut k, self.identifier.as_str());
        push_opt_key(&mut k, &self.locator);
        push_list_key(&mut k, &self.fingerprints);
        assert(k@ =~= self.sort_key());
        k
    }
}

/// Conditions are ordered by state, then action, then plan fingerprint.
impl SortKey for ValidityCondition {
    open spec fn sort_key(&self) -> Seq<u32> {
        opt_key(self.state_fingerprint) + opt_key(self.action_fingerprint) + opt_key(self.plan_fingerprint)
    }

    fn key(&self) -> (k: Vec<u32>) {
        let mut k: Vec<u32> = Vec::new();
        push_opt_key(&mut k, &self.state_fingerprint);
        push_opt_key(&mut k, &self.action_fingerprint);
        push_opt_key(&mut k, &self.plan_fingerprint);
        assert(k@ =~= self.sort_key());
        k
    }
}

/// Text that is not blank and holds no control character.
pub open spec fn claim_text_ok(value: Seq<char>) -> bool {
    !is_blank(value) && !has_control(value)
}

pub open spec fn claim_text_message(label: Seq<char>) -> Seq<char> {
    label + " must be non-empty and contain no control characters"@
}

/// The label of the first text of an evidence reference that is not valid:
/// its identifier, its locator, then its fingerprints in order.
pub open spec fn evidence_item_problem(e: Evidence) -> Option<Seq<char>> {
    if !claim_text_ok(e.identifier@) {
        Some("evidence identifier"@)
    } else if e.locator matches Some(l) && !claim_text_ok(l@) {
        Some("evidence locator"@)
    } else if exists|j: int| 0 <= j < e.fingerprints@.len() && !claim_text_ok(#[trigger] e.fingerprints@[j]@) {
        Some("evidence fingerprint"@)
    } else {
        None
    }
}

/// The label of the first evidence problem, reference by reference.
pub open spec fn evidence_problem(ev: Seq<Evidence>, i: nat) -> Option<Seq<char>>
    decreases ev.len() - i,
{
    if i >= ev.len() {
        None
    } else {
        match evidence_item_problem(ev[i as int]) {
            Some(l) => Some(l),
            None => evidence_problem(ev, i + 1),
        }
    }
}

pub open spec fn missing_evidence_message() -> Seq<char> {
    "at least one evidence reference is required"@
}

/// Why a claim is refused: a sensitive field (its path), or an invalid claim
/// (the message).
pub enum ClaimIssue {
    Sensitive(Seq<char>),
    Invalid(Seq<char>),
}

pub open spec fn issue_of(e: KnowledgeError) -> Option<ClaimIssue> {
    match e {
        KnowledgeError::SensitiveField(p) => Some(ClaimIssue::Sensitive(p@)),
        KnowledgeError::InvalidClaim(m) => Some(ClaimIssue::Invalid(m@)),
        _ => None,
    }
}

/// The first reason a new claim is refused, in the order they are checked:
/// subject, predicate, secrets in the value, its canonical form, evidence.
pub open spec fn new_claim_issue(
    subject: Seq<char>,
    predicate: Seq<char>,
    value: JsonValue,
    evidence: Seq<Evidence>,
) -> Option<ClaimIssue> {
    if !claim_text_ok(subject) {
        Some(ClaimIssue::Invalid(claim_text_message("subject"@)))
    } else if !claim_text_ok(predicate) {
        Some(ClaimIssue::Invalid(claim_text_message("predicate"@)))
    } else if value_problem(value, "value"@) is Some {
        Some(ClaimIssue::Sensitive(value_problem(value, "value"@)->0))
    } else if canonical(value) is None {
        Some(ClaimIssue::Invalid(crate::knowledge::model::CANONICAL_VALUE_ERROR@))
    } else if evidence.len() == 0 {
        Some(ClaimIssue::Invalid(missing_evidence_message()))
    } else if evidence_problem(evidence, 0) is Some {
        Some(ClaimIssue::Invalid(claim_text_message(evidence_problem(evidence, 0)->0)))
    } else {
        None
    }
}

/// One evidence-backed, versioned knowledge assertion.
#[derive(Debug, PartialEq, Eq)]
pub struct KnowledgeClaim {
    pub id: KnowledgeId,
    pub category: KnowledgeCategory,
    pub subject: String,
    pub predicate: String,
    pub value: JsonValue,
    pub evidence: Vec<Evidence>,
    pub confidence: Confidence,
    pub validity: Validity,
    pub validity_conditions: Vec<ValidityCondition>,
    pub created_at: String,
}

/// The same evidence reference.
pub open spec fn same_evidence(a: Evidence, b: Evidence) -> bool {
    &&& a.kind == b.kind
    &&& a.identifier@ == b.identifier@
    &&& opt_view(a.locator) == opt_view(b.locator)
    &&& a.fingerprints@ == b.fingerprints@
}

pub open spec fn same_evidence_list(a: Seq<Evidence>, b: Seq<Evidence>) -> bool {
    a.len() == b.len() && forall|i: int| 0 <= i < a.len() ==> same_evidence(#[trigger] a[i], b[i])
}

/// The same claim, field by field, except perhaps its validity.
pub open spec fn same_assertion(a: KnowledgeClaim, b: KnowledgeClaim) -> bool {
    &&& a.id@ == b.id@
    &&& a.category == b.category
    &&& a.subject@ == b.subject@
    &&& a.predicate@ == b.predicate@
    &&& same_value(a.value, b.value)
    &&& same_evidence_list(a.evidence@, b.evidence@)
    &&& a.confidence == b.confidence
    &&& a.validity_conditions@ == b.validity_conditions@
    &&& a.created_at@ == b.created_at@
}

/// The same claim, field by field.
pub open spec fn same_claim(a: KnowledgeClaim, b: KnowledgeClaim) -> bool {
    same_assertion(a, b) && a.validity == b.validity
}

/// The condition binds the claim to another state than the current one.
pub open spec fn bound_elsewhere(c: ValidityCondition, cur: Seq<char>) -> bool {
    c.state_fingerprint matches Some(s) && s@ != cur
}

/// The validity a claim has against the current state: an invalidated claim
/// stays so; with no state known it is unknown; it is stale where one of its
/// conditions is bound to another state, and current otherwise.
pub open spec fn observed_validity(c: KnowledgeClaim, current_state: Option<Seq<char>>) -> Validity {
    if c.validity == Validity::Invalidated {
        Validity::Invalidated
    } else {
        match current_state {
            None => Validity::Unknown,
            Some(cur) => if exists|j: int|
                0 <= j < c.validity_conditions@.len() && bound_elsewhere(#[trigger] c.validity_conditions@[j], cur) {
                Validity::Stale
            } else {
                Validity::Current
            },
        }
    }
}

/// The first reason a stored claim does not hold together: its texts, its
/// evidence, secrets in its value, or an identifier that is not the one its
/// assertion derives.
pub open spec fn identity_issue(c: KnowledgeClaim) -> Option<ClaimIssue> {
    if !claim_text_ok(c.subject@) {
        Some(ClaimIssue::Invalid(claim_text_message("subject"@)))
    } else if !claim_text_ok(c.predicate@) {
        Some(ClaimIssue::Invalid(claim_text_message("predicate"@)))
    } else if !claim_text_ok(c.created_at@) {
        Some(ClaimIssue::Invalid(claim_text_message("created_at"@)))
    } else if c.evidence@.len() == 0 {
        Some(ClaimIssue::Invalid(missing_evidence_message()))
    } else if evidence_problem(c.evidence@, 0) is Some {
        Some(ClaimIssue::Invalid(claim_text_message(evidence_problem(c.evidence@, 0)->0)))
    } else if value_problem(c.value, "value"@) is Some {
        Some(ClaimIssue::Sensitive(value_problem(c.value, "value"@)->0))
    } else if canonical(c.value) is None {
        Some(ClaimIssue::Invalid(crate::knowledge::model::CANONICAL_VALUE_ERROR@))
    } else if derived_id(c.category, c.subject@, c.predicate@, c.value) != Some(c.id@) {
        Some(ClaimIssue::Invalid(mismatched_id_message()))
    } else {
        None
    }
}

pub open spec fn mismatched_id_message() -> Seq<char> {
    "claim ID does not match its category, subject, predicate, and value"@
}

fn check_text(label: &str, value: &str) -> (r: Result<(), KnowledgeError>)
    ensures
        r is Ok <==> claim_text_ok(value@),
        r matches Err(e) ==> issue_of(e) == Some(ClaimIssue::Invalid(claim_text_message(label@))),
{
    let v = chars_of(value);
    if chars_blank(v.as_slice()) || chars_have_control(v.as_slice()) {
        return Err(KnowledgeError::InvalidClaim(concat2(label, " must be non-empty and contain no control characters")));
    }
    Ok(())
}

fn check_evidence_item(e: &Evidence) -> (r: Result<(), KnowledgeError>)
    ensures
        r is Ok <==> evidence_item_problem(*e) is None,
        r matches Err(x) ==> issue_of(x) == Some(ClaimIssue::Invalid(claim_text_message(evidence_item_problem(*e)->0))),
{
    check_text("evidence identifier", e.identifier.as_str())?;
    match &e.locator {
        Some(l) => {
            check_text("evidence locator", l.as_str())?;
        },
        None => {},
    }
    let mut j: usize = 0;
    while j < e.fingerprints.len()
        invariant
            j <= e.fingerprints@.len(),
            claim_text_ok(e.identifier@),
            !(e.locator matches Some(l) && !claim_text_ok(l@)),
            forall|k: int| 0 <= k < j ==> claim_text_ok(#[trigger] e.fingerprints@[k]@),
        decreases e.fingerprints@.len() - j,
    {
        match check_text("evidence fingerprint", e.fingerprints[j].as_str()) {
            Ok(()) => {},
            Err(x) => {
                assert(!claim_text_ok(e.fingerprints@[j as int]@));
                return Err(x);
            },
        }
        j = j + 1;
    }
    Ok(())
}

fn check_evidence(ev: &Vec<Evidence>) -> (r: Result<(), KnowledgeError>)
    ensures
        r is Ok <==> evidence_problem(ev@, 0) is None,
        r matches Err(x) ==> issue_of(x) == Some(ClaimIssue::Invalid(claim_text_message(evidence_problem(ev@, 0)->0))),
{
    let mut i: usize = 0;
    while i < ev.len()
        invariant
            i <= ev@.len(),
            evidence_problem(ev@, 0) == evidence_problem(ev@, i as nat),
        decreases ev@.len() - i,
    {
        check_evidence_item(&ev[i])?;
        i = i + 1;
    }
    Ok(())
}

fn check_safe_value(value: &JsonValue) -> (r: Result<(), KnowledgeError>)
    ensures
        r is Ok <==> value_problem(*value, "value"@) is None,
        r matches Err(x) ==> issue_of(x) == Some(ClaimIssue::Sensitive(value_problem(*value, "value"@)->0)),
{
    match sensitive_path(value, "value") {
        Some(p) => Err(KnowledgeError::SensitiveField(p)),
        None => Ok(()),
    }
}

fn duplicate_evidence(e: &Evidence) -> (r: Evidence)
    ensures
        same_evidence(*e, r),
{
    Evidence {
        kind: e.kind,
        identifier: e.identifier.clone(),
        locator: match &e.locator {
            Some(l) => Some(l.clone()),
            None => None,
        },
        fingerprints: clone_strings(&e.fingerprints),
    }
}

fn duplicate_condition(c: &ValidityCondition) -> (r: ValidityCondition)
    ensures
        r == *c,
{
    ValidityCondition {
        state_fingerprint: match &c.state_fingerprint {
            Some(s) => Some(s.clone()),
            None => None,
        },
        action_fingerprint: match &c.action_fingerprint {
            Some(s) => Some(s.clone()),
            None => None,
        },
        plan_fingerprint: match &c.plan_fingerprint {
            Some(s) => Some(s.clone()),
            None => None,
        },
    }
}

impl KnowledgeClaim {
    /// A claim of the category, subject, predicate and value, backed by the
    /// evidence (sorted, each reference once), created now. Refused where a
    /// text is blank or holds a control character, where the value names an
    /// obvious secret, or where there is no evidence.
    pub fn new(
        category: KnowledgeCategory,
        subject: String,
        predicate: String,
        value: JsonValue,
        evidence: Vec<Evidence>,
        confidence: Confidence,
        validity: Validity,
    ) -> (r: Result<Self, KnowledgeError>)
        ensures
            r is Ok <==> new_claim_issue(subject@, predicate@, value, evidence@) is None,
            r matches Err(e) ==> issue_of(e) == new_claim_issue(subject@, predicate@, value, evidence@),
            r matches Ok(c) ==> {
                &&& Some(c.id@) == derived_id(category, subject@, predicate@, value)
                &&& knowledge_id_valid(c.id@)
                &&& c.category == category
                &&& c.subject == subject
                &&& c.predicate == predicate
                &&& c.value == value
                &&& sorted_unique_of(c.evidence@, evidence@)
                &&& c.confidence == confidence
                &&& c.validity == validity
                &&& c.validity_conditions@.len() == 0
                &&& crate::knowledge::store::timestamp_text(c.created_at@)
                &&& claim_text_ok(c.created_at@)
            },
    {
        check_text("subject", subject.as_str())?;
        check_text("predicate", predicate.as_str())?;
        check_safe_value(&value)?;
        let id = KnowledgeId::derive(category, subject.as_str(), predicate.as_str(), &value)?;
        if evidence.len() == 0 {
            return Err(KnowledgeError::InvalidClaim(owned("at least one evidence reference is required")));
        }
        check_evidence(&evidence)?;
        let evidence = sort_unique(evidence);
        let created_at = now_rfc3339();
        proof {
            crate::knowledge::store::lemma_timestamp_valid(created_at@);
        }
        Ok(KnowledgeClaim {
            id,
            category,
            subject,
            predicate,
            value,
            evidence,
            confidence,
            validity,
            validity_conditions: Vec::new(),
            created_at,
        })
    }

    /// The claim with its creation time replaced; refused where the time is
    /// blank or holds a control character.
    pub fn with_created_at(self, created_at: String) -> (r: Result<Self, KnowledgeError>)
        ensures
            r is Ok <==> claim_text_ok(created_at@),
            r matches Err(e) ==> issue_of(e) == Some(ClaimIssue::Invalid(claim_text_message("created_at"@))),
            r matches Ok(c) ==> c.created_at == created_at && c.id == self.id && c.category == self.category
                && c.subject == self.subject && c.predicate == self.predicate && c.value == self.value && c.evidence
                == self.evidence && c.confidence == self.confidence && c.validity == self.validity
                && c.validity_conditions == self.validity_conditions,
    {
        check_text("created_at", created_at.as_str())?;
        let mut c = self;
        c.created_at = created_at;
        Ok(c)
    }

    /// The claim with its validity conditions replaced, sorted and each once.
    pub fn with_validity_conditions(self, validity_conditions: Vec<ValidityCondition>) -> (r: Self)
        ensures
            sorted_unique_of(r.validity_conditions@, validity_conditions@),
            r.id == self.id && r.category == self.category && r.subject == self.subject && r.predicate
                == self.predicate && r.value == self.value && r.evidence == self.evidence && r.confidence
                == self.confidence && r.validity == self.validity && r.created_at == self.created_at,
    {
        let mut c = self;
        c.validity_conditions = sort_unique(validity_conditions);
        c
    }

    /// A copy with every field the same.
    pub fn duplicate(&self) -> (r: Self)
        ensures
            same_claim(*self, r),
    {
        let mut evidence: Vec<Evidence> = Vec::new();
        let mut i: usize = 0;
        while i < self.evidence.len()
            invariant
                i <= self.evidence@.len(),
                evidence@.len() == i,
                forall|j: int| 0 <= j < i ==> same_evidence(#[trigger] self.evidence@[j], evidence@[j]),
            decreases self.evidence@.len() - i,
        {
            evidence.push(duplicate_evidence(&self.evidence[i]));
            i = i + 1;
        }
        let mut conditions: Vec<ValidityCondition> = Vec::new();
        let mut k: usize = 0;
        while k < self.validity_conditions.len()
            invariant
                k <= self.validity_conditions@.len(),
                conditions@ == self.validity_conditions@.take(k as int),
            decreases self.validity_conditions@.len() - k,
        {
            conditions.push(duplicate_condition(&self.validity_conditions[k]));
            k = k + 1;
            assert(conditions@ =~= self.validity_conditions@.take(k as int));
        }
        assert(self.validity_conditions@.take(self.validity_conditions@.len() as int) =~= self.validity_conditions@);
        KnowledgeClaim {
            id: self.id.duplicate(),
            category: self.category,
            subject: self.subject.clone(),
            predicate: self.predicate.clone(),
            value: self.value.duplicate(),
            evidence,
            confidence: self.confidence,
            validity: self.validity,
            validity_conditions: conditions,
            created_at: self.created_at.clone(),
        }
    }

    /// The claim as observed against the current state fingerprint, if one is
    /// known; the assertion itself is unchanged.
    pub fn observed_state(&self, current_state: Option<&str>) -> (r: Self)
        ensures
            same_assertion(*self, r),
            r.validity == observed_validity(
                *self,
                match current_state {
                    Some(s) => Some(s@),
                    None => None,
                },
            ),
    {
        let mut observed = self.duplicate();
        if observed.validity == Validity::Invalidated {
            return observed;
        }
        let cur = match current_state {
            None => {
                observed.validity = Validity::Unknown;
                return observed;
            },
            Some(c) => c,
        };
        let mut stale = false;
        let mut j: usize = 0;
        while j < self.validity_conditions.len()
            invariant
                j <= self.validity_conditions@.len(),
                stale == exists|k: int| 0 <= k < j && bound_elsewhere(#[trigger] self.validity_conditions@[k], cur@),
            decreases self.validity_conditions@.len() - j,
        {
            match &self.validity_conditions[j].state_fingerprint {
                Some(s) => {
                    if !crate::text::str_eq(s.as_str(), cur) {
                        stale = true;
                    }
                },
                None => {},
            }
            j = j + 1;
        }
        observed.validity = if stale {
            Validity::Stale
        } else {
            Validity::Current
        };
        observed
    }

    /// The claim marked invalidated; the assertion itself is unchanged.
    pub fn invalidated(&self) -> (r: Self)
        ensures
            same_assertion(*self, r),
            r.validity == Validity::Invalidated,
    {
        let mut c = self.duplicate();
        c.validity = Validity::Invalidated;
        c
    }

    /// Checks that a claim holds together: valid texts and evidence, no secret
    /// in its value, and the identifier its assertion derives.
    pub fn validate_identity(&self) -> (r: Result<(), KnowledgeError>)
        ensures
            r is Ok <==> identity_issue(*self) is None,
            r matches Err(e) ==> issue_of(e) == identity_issue(*self),
    {
        check_text("subject", self.subject.as_str())?;
        check_text("predicate", self.predicate.as_str())?;
        check_text("created_at", self.created_at.as_str())?;
        if self.evidence.len() == 0 {
            return Err(KnowledgeError::InvalidClaim(owned("at least one evidence reference is required")));
        }
        check_evidence(&self.evidence)?;
        check_safe_value(&self.value)?;
        let expected = KnowledgeId::derive(self.category, self.subject.as_str(), self.predicate.as_str(), &self.value)?;
        if !crate::text::str_eq(expected.as_str(), self.id.as_str()) {
            return Err(
                KnowledgeError::InvalidClaim(
                    owned("claim ID does not match its category, subject, predicate, and value"),
                ),
            );
        }
        Ok(())
    }
}

} // verus!
