//! Operator responses: typed, evidence-bound human judgements about derived
//! project intelligence.
use vstd::prelude::*;
use vstd::utf8::encode_utf8;
use crate::digest::{digest_hex, field_bytes, prefixed_digest_text, push_text_field, sha256_hex};
use crate::knowledge::error::KnowledgeError;
use crate::order::{push_str_key, sort_unique, sorted_unique_of, SortKey};
use crate::text::{all_digits, ascii_lower, chars_blank, chars_contain, chars_have_control, chars_of, chars_start_with, char_is_ascii_digit, char_to_ascii_lowercase, concat2, contains, decimal, decimal_chars, digits_value, has_control, is_ascii_digit, is_blank, owned, parse_u64, push_chars, starts_with, str_eq};

verus! {

pub const OPERATOR_RESPONSE_SCHEMA_VERSION: u32 = 1;

pub const RESPONSE_ID_PREFIX: &'static str = "or-response-v1-";

pub const TRANSACTION_ID_PREFIX: &'static str = "or-transaction-v1-";

pub const OPERATOR_ID_PREFIX: &'static str = "or-operator-v1-";

pub const MAX_TEXT_LENGTH: usize = 4096;

/// The sequence number written with at least six digits, zero-padded (`{:06}`).
pub open spec fn padded6(n: nat) -> Seq<char> {
    let d = decimal(n);
    if d.len() < 6 {
        Seq::new((6 - d.len()) as nat, |i: int| '0') + d
    } else {
        d
    }
}

fn padded6_chars(n: u64) -> (r: Vec<char>)
    ensures
        r@ == padded6(n as nat),
{
    let d = decimal_chars(n);
    let mut r: Vec<char> = Vec::new();
    if d.len() < 6 {
        let pad = 6 - d.len();
        let mut i: usize = 0;
        while i < pad
            invariant
                pad == 6 - d@.len(),
                i <= pad,
                r@ == Seq::new(i as nat, |j: int| '0'),
            decreases pad - i,
        {
            r.push('0');
            i = i + 1;
            assert(r@ =~= Seq::new(i as nat, |j: int| '0'));
        }
    }
    let mut j: usize = 0;
    let ghost start = r@;
    while j < d.len()
        invariant
            j <= d@.len(),
            r@ == start + d@.take(j as int),
        decreases d@.len() - j,
    {
        r.push(d[j]);
        j = j + 1;
        assert(r@ =~= start + d@.take(j as int));
    }
    assert(d@.take(d@.len() as int) =~= d@);
    assert(r@ =~= padded6(n as nat));
    r
}

/// A well-formed sequence identifier: the prefix, then at least six decimal
/// digits whose value is a positive `u64`.
pub open spec fn sequence_id_valid(value: Seq<char>, prefix: Seq<char>) -> bool {
    &&& starts_with(value, prefix)
    &&& {
        let d = value.skip(prefix.len() as int);
        &&& d.len() >= 6
        &&& all_digits(d)
        &&& digits_value(d) <= u64::MAX
        &&& digits_value(d) > 0
    }
}

fn parse_sequence_id(value: &str, prefix: &str) -> (r: bool)
    ensures
        r == sequence_id_valid(value@, prefix@),
{
    let v = chars_of(value);
    let p = chars_of(prefix);
    if !chars_start_with(&v, &p) {
        return false;
    }
    let mut d: Vec<char> = Vec::new();
    let mut i: usize = p.len();
    while i < v.len()
        invariant
            p@.len() <= i <= v@.len(),
            d@ == v@.subrange(p@.len() as int, i as int),
        decreases v@.len() - i,
    {
        d.push(v[i]);
        i = i + 1;
        assert(d@ =~= v@.subrange(p@.len() as int, i as int));
    }
    assert(d@ =~= v@.skip(p@.len() as int));
    if d.len() < 6 {
        return false;
    }
    let mut k: usize = 0;
    while k < d.len()
        invariant
            k <= d@.len(),
            v@ == value@,
            p@ == prefix@,
            starts_with(v@, p@),
            d@ == v@.skip(p@.len() as int),
            d@.len() >= 6,
            forall|j: int| 0 <= j < k ==> is_ascii_digit(#[trigger] d@[j]),
        decreases d@.len() - k,
    {
        if !char_is_ascii_digit(d[k]) {
            assert(!is_ascii_digit(d@[k as int]));
            return false;
        }
        k = k + 1;
    }
    match parse_u64(&d) {
        Some(n) => {
            assert(d@.len() == 0 || d@[0] != '+') by {
                if d@.len() > 0 {
                    assert(is_ascii_digit(d@[0]));
                }
            }
            n > 0
        },
        None => {
            assert(d@.len() == 0 || d@[0] != '+') by {
                if d@.len() > 0 {
                    assert(is_ascii_digit(d@[0]));
                }
            }
            false
        },
    }
}

fn invalid_identifier_error(value: &str) -> (e: KnowledgeError)
    ensures
        e matches KnowledgeError::InvalidOperatorResponse(m) && m@ == "invalid identifier: "@
            + value@,
{
    KnowledgeError::InvalidOperatorResponse(concat2("invalid identifier: ", value))
}

/// Identifier of an operator response, allocated from a per-project sequence.
#[derive(Debug, Clone, PartialEq, Eq, PartialOrd, Ord, Hash)]
pub struct OperatorResponseId(String);

impl View for OperatorResponseId {
    type V = Seq<char>;

    closed spec fn view(&self) -> Seq<char> {
        self.0@
    }
}

impl OperatorResponseId {
    /// The identifier of the `sequence`-th response.
    pub fn from_sequence(sequence: u64) -> (r: Self)
        ensures
            r@ == RESPONSE_ID_PREFIX@ + padded6(sequence as nat),
    {
        let mut s = owned(RESPONSE_ID_PREFIX);
        let d = padded6_chars(sequence);
        push_chars(&mut s, &d);
        OperatorResponseId(s)
    }

    /// Accepts exactly the well-formed response identifiers.
    pub fn parse(value: String) -> (r: Result<Self, KnowledgeError>)
        ensures
            r is Ok <==> sequence_id_valid(value@, RESPONSE_ID_PREFIX@),
            r matches Ok(id) ==> id@ == value@,
            r matches Err(e) ==> e matches KnowledgeError::InvalidOperatorResponse(m) && m@
                == "invalid identifier: "@ + value@,
    {
        if parse_sequence_id(value.as_str(), RESPONSE_ID_PREFIX) {
            Ok(OperatorResponseId(value))
        } else {
            Err(invalid_identifier_error(value.as_str()))
        }
    }

    pub fn as_str(&self) -> (r: &str)
        ensures
            r@ == self@,
    {
        self.0.as_str()
    }

    pub fn duplicate(&self) -> (r: Self)
        ensures
            r@ == self@,
            r == *self,
    {
        OperatorResponseId(self.0.clone())
    }

    /// Whether the identifier is well formed.
    pub fn validate(&self) -> (r: Result<(), KnowledgeError>)
        ensures
            r is Ok <==> sequence_id_valid(self@, RESPONSE_ID_PREFIX@),
            r matches Err(e) ==> e is InvalidOperatorResponse,
    {
        if parse_sequence_id(self.0.as_str(), RESPONSE_ID_PREFIX) {
            Ok(())
        } else {
            Err(invalid_identifier_error(self.0.as_str()))
        }
    }

    pub fn same(&self, other: &Self) -> (r: bool)
        ensures
            r == (self@ == other@),
    {
        str_eq(self.0.as_str(), other.0.as_str())
    }
}

impl SortKey for OperatorTransactionId {
    open spec fn sort_key(&self) -> Seq<u32> {
        crate::order::str_key(self@)
    }

    fn key(&self) -> (k: Vec<u32>) {
        let mut k = Vec::new();
        push_str_key(&mut k, self.0.as_str());
        assert(k@ =~= crate::order::str_key(self@));
        k
    }
}

impl SortKey for OperatorResponseId {
    open spec fn sort_key(&self) -> Seq<u32> {
        crate::order::str_key(self@)
    }

    fn key(&self) -> (k: Vec<u32>) {
        let mut k = Vec::new();
        push_str_key(&mut k, self.0.as_str());
        assert(k@ =~= crate::order::str_key(self@));
        k
    }
}

/// Identifier of one committed operator-store transaction.
#[derive(Debug, Clone, PartialEq, Eq, PartialOrd, Ord, Hash)]
pub struct OperatorTransactionId(String);

impl View for OperatorTransactionId {
    type V = Seq<char>;

    closed spec fn view(&self) -> Seq<char> {
        self.0@
    }
}

impl OperatorTransactionId {
    pub fn from_sequence(sequence: u64) -> (r: Self)
        ensures
            r@ == TRANSACTION_ID_PREFIX@ + padded6(sequence as nat),
    {
        let mut s = owned(TRANSACTION_ID_PREFIX);
        let d = padded6_chars(sequence);
        push_chars(&mut s, &d);
        OperatorTransactionId(s)
    }

    pub fn parse(value: String) -> (r: Result<Self, KnowledgeError>)
        ensures
            r is Ok <==> sequence_id_valid(value@, TRANSACTION_ID_PREFIX@),
            r matches Ok(id) ==> id@ == value@,
            r matches Err(e) ==> e matches KnowledgeError::InvalidOperatorResponse(m) && m@
                == "invalid identifier: "@ + value@,
    {
        if parse_sequence_id(value.as_str(), TRANSACTION_ID_PREFIX) {
            Ok(OperatorTransactionId(value))
        } else {
            Err(invalid_identifier_error(value.as_str()))
        }
    }

    pub fn as_str(&self) -> (r: &str)
        ensures
            r@ == self@,
    {
        self.0.as_str()
    }

    pub fn duplicate(&self) -> (r: Self)
        ensures
            r@ == self@,
            r == *self,
    {
        OperatorTransactionId(self.0.clone())
    }

    pub fn validate(&self) -> (r: Result<(), KnowledgeError>)
        ensures
            r is Ok <==> sequence_id_valid(self@, TRANSACTION_ID_PREFIX@),
            r matches Err(e) ==> e is InvalidOperatorResponse,
    {
        if parse_sequence_id(self.0.as_str(), TRANSACTION_ID_PREFIX) {
            Ok(())
        } else {
            Err(invalid_identifier_error(self.0.as_str()))
        }
    }

    pub fn same(&self, other: &Self) -> (r: bool)
        ensures
            r == (self@ == other@),
    {
        str_eq(self.0.as_str(), other.0.as_str())
    }
}

/// Field framing of a text label and a text value.
pub open spec fn text_field(label: Seq<char>, value: Seq<char>) -> Seq<u8> {
    field_bytes(encode_utf8(label), encode_utf8(value))
}

/// The stable identifier of a named operator: a digest of its stable key.
pub open spec fn named_operator_id(stable_key: Seq<char>) -> Seq<char> {
    OPERATOR_ID_PREFIX@ + sha256_hex(
        text_field("version"@, "operator-id-v1"@) + text_field("kind"@, "named_operator"@)
            + text_field("stable_key"@, stable_key),
    )
}

/// The identifier shared by every local operator.
pub open spec fn local_operator_id() -> Seq<char> {
    OPERATOR_ID_PREFIX@ + "local"@
}

/// Identity of the operator who recorded a response.
#[derive(Debug, Clone, PartialEq, Eq, PartialOrd, Ord, Hash)]
pub struct OperatorId(String);

impl View for OperatorId {
    type V = Seq<char>;

    closed spec fn view(&self) -> Seq<char> {
        self.0@
    }
}

impl OperatorId {
    pub fn local() -> (r: Self)
        ensures
            r@ == local_operator_id(),
    {
        OperatorId(concat2(OPERATOR_ID_PREFIX, "local"))
    }

    pub fn named(stable_key: &str) -> (r: Self)
        ensures
            r@ == named_operator_id(stable_key@),
    {
        let mut msg: Vec<u8> = Vec::new();
        push_text_field(&mut msg, "version", "operator-id-v1");
        push_text_field(&mut msg, "kind", "named_operator");
        push_text_field(&mut msg, "stable_key", stable_key);
        let hex = digest_hex(msg.as_slice());
        let mut s = owned(OPERATOR_ID_PREFIX);
        push_chars(&mut s, &hex);
        assert(msg@ =~= text_field("version"@, "operator-id-v1"@) + text_field(
            "kind"@,
            "named_operator"@,
        ) + text_field("stable_key"@, stable_key@));
        OperatorId(s)
    }

    pub fn as_str(&self) -> (r: &str)
        ensures
            r@ == self@,
    {
        self.0.as_str()
    }

    pub fn duplicate(&self) -> (r: Self)
        ensures
            r@ == self@,
            r == *self,
    {
        OperatorId(self.0.clone())
    }

    pub fn same(&self, other: &Self) -> (r: bool)
        ensures
            r == (self@ == other@),
    {
        str_eq(self.0.as_str(), other.0.as_str())
    }
}

#[derive(Debug, Clone, Copy, PartialEq, Eq, PartialOrd, Ord)]
pub enum OperatorIdentityKind {
    LocalOperator,
    NamedOperator,
    Team,
    Service,
}

#[derive(Debug, Clone, PartialEq, Eq)]
pub struct OperatorIdentity {
    pub id: OperatorId,
    pub stable_key: Option<String>,
    pub display_name: String,
    pub kind: OperatorIdentityKind,
}

/// `str::trim().is_empty()`, byte length, control characters and absolute paths.
pub open spec fn identifier_valid(value: Seq<char>) -> bool {
    &&& !is_blank(value)
    &&& encode_utf8(value).len() <= MAX_TEXT_LENGTH
    &&& !has_control(value)
    &&& !contains_absolute_path(value)
}

pub open spec fn is_ascii_alpha_byte(b: u8) -> bool {
    (65 <= b && b <= 90) || (97 <= b && b <= 122)
}

/// Three consecutive bytes `<letter>:\`, the start of a drive path.
pub open spec fn has_drive_path(bytes: Seq<u8>) -> bool {
    exists|i: int|
        0 <= i && i + 2 < bytes.len() && is_ascii_alpha_byte(#[trigger] bytes[i]) && bytes[i + 1]
            == 58 && bytes[i + 2] == 92
}

/// A value that starts with `/`, holds ` /`, or holds a drive path.
pub open spec fn contains_absolute_path(value: Seq<char>) -> bool {
    (value.len() > 0 && value[0] == '/') || contains(value, " /"@) || has_drive_path(
        encode_utf8(value),
    )
}

fn bytes_have_drive_path(b: &[u8]) -> (r: bool)
    ensures
        r == has_drive_path(b@),
{
    if b.len() < 3 {
        return false;
    }
    let limit = b.len() - 2;
    let mut i: usize = 0;
    while i < limit
        invariant
            limit == b@.len() - 2,
            forall|j: int|
                0 <= j < i ==> !(j + 2 < b@.len() && is_ascii_alpha_byte(#[trigger] b@[j]) && b@[j
                    + 1] == 58 && b@[j + 2] == 92),
        decreases b@.len() - i,
    {
        let c = b[i];
        if ((65 <= c && c <= 90) || (97 <= c && c <= 122)) && b[i + 1] == 58 && b[i + 2] == 92 {
            return true;
        }
        i = i + 1;
    }
    assert forall|j: int|
        0 <= j && j + 2 < b@.len() implies !(is_ascii_alpha_byte(#[trigger] b@[j]) && b@[j + 1]
        == 58 && b@[j + 2] == 92) by {
        if j < i {
        }
    }
    false
}

pub fn value_contains_absolute_path(value: &str) -> (r: bool)
    ensures
        r == contains_absolute_path(value@),
{
    let v = chars_of(value);
    if v.len() > 0 && v[0] == '/' {
        return true;
    }
    let pattern = chars_of(" /");
    if chars_contain(&v, &pattern) {
        return true;
    }
    bytes_have_drive_path(value.as_bytes())
}

/// Validates an identifier-like value; the error names the field.
pub fn validate_identifier(label: &str, value: &str) -> (r: Result<(), KnowledgeError>)
    ensures
        r is Ok <==> identifier_valid(value@),
        r matches Err(e) ==> e matches KnowledgeError::InvalidOperatorResponse(m) && m@ == label@
            + " is invalid"@,
{
    let v = chars_of(value);
    if chars_blank(&v) || value.as_bytes().len() > MAX_TEXT_LENGTH || chars_have_control(&v)
        || value_contains_absolute_path(value) {
        return Err(KnowledgeError::InvalidOperatorResponse(concat2(label, " is invalid")));
    }
    Ok(())
}

/// The characters of a value lowercased (ASCII) with `-`, ` ` and `_` removed.
pub open spec fn compact_text(value: Seq<char>) -> Seq<char> {
    value.filter(|c: char| c != '-' && c != ' ' && c != '_').map_values(|c: char| ascii_lower(c))
}

/// Whether the compacted text mentions an obvious secret.
pub open spec fn sensitive_text(value: Seq<char>) -> bool {
    let c = compact_text(value);
    contains(c, "password"@) || contains(c, "token"@) || contains(c, "secret"@) || contains(
        c,
        "authorization"@,
    ) || contains(c, "privatekey"@) || contains(c, "apikey"@) || contains(c, "accesstoken"@)
        || contains(c, "refreshtoken"@)
}

pub open spec fn text_valid(value: Seq<char>) -> bool {
    identifier_valid(value) && !sensitive_text(value)
}

fn compact_chars(v: &[char]) -> (r: Vec<char>)
    ensures
        r@ == compact_text(v@),
{
    let mut r: Vec<char> = Vec::new();
    let mut i: usize = 0;
    while i < v.len()
        invariant
            i <= v@.len(),
            r@ == compact_text(v@.take(i as int)),
        decreases v@.len() - i,
    {
        let c = v[i];
        let ghost pre = v@.take(i as int);
        assert(v@.take(i + 1) =~= pre.push(c));
        assert(pre.push(c).drop_last() =~= pre);
        proof {
            reveal_with_fuel(Seq::<_>::filter, 1);
        }
        if c != '-' && c != ' ' && c != '_' {
            r.push(char_to_ascii_lowercase(c));
        }
        i = i + 1;
        assert(r@ =~= compact_text(v@.take(i as int)));
    }
    assert(v@.take(v@.len() as int) =~= v@);
    r
}

fn mentions(c: &[char], term: &str) -> (r: bool)
    ensures
        r == contains(c@, term@),
{
    let t = chars_of(term);
    chars_contain(c, &t)
}

/// Validates free text: an identifier that does not mention an obvious secret.
pub fn validate_text(label: &str, value: &str) -> (r: Result<(), KnowledgeError>)
    ensures
        r is Ok <==> text_valid(value@),
        r matches Err(e) ==> (!identifier_valid(value@) && (e matches KnowledgeError::InvalidOperatorResponse(m) && m@ == label@
            + " is invalid"@)) || (identifier_valid(value@) && (e matches KnowledgeError::SensitiveOperatorResponse(m) && m@
            == label@)),
{
    validate_identifier(label, value)?;
    let v = chars_of(value);
    let c = compact_chars(&v);
    if mentions(&c, "password") || mentions(&c, "token") || mentions(&c, "secret") || mentions(
        &c,
        "authorization",
    ) || mentions(&c, "privatekey") || mentions(&c, "apikey") || mentions(&c, "accesstoken")
        || mentions(&c, "refreshtoken") {
        return Err(KnowledgeError::SensitiveOperatorResponse(owned(label)));
    }
    Ok(())
}

/// Validates optional free text; absence is valid.
pub fn validate_optional_text(label: &str, value: &Option<String>) -> (r: Result<(), KnowledgeError>)
    ensures
        r is Ok <==> (value matches Some(v) ==> text_valid(v@)),
{
    match value {
        Some(v) => validate_text(label, v.as_str()),
        None => Ok(()),
    }
}

impl OperatorIdentity {
    /// The local operator, with a display name.
    pub fn local(display_name: String) -> (r: Result<Self, KnowledgeError>)
        ensures
            r is Ok <==> identifier_valid(display_name@),
            r matches Ok(o) ==> o.id@ == local_operator_id() && o.stable_key is None
                && o.display_name@ == display_name@ && o.kind == OperatorIdentityKind::LocalOperator,
            r matches Err(e) ==> e matches KnowledgeError::InvalidOperatorResponse(m) && m@
                == "operator display name is invalid"@,
    {
        match validate_identifier("operator display name", display_name.as_str()) {
            Ok(()) => {},
            Err(e) => {
                proof {
                    reveal_strlit("operator display name");
                    reveal_strlit(" is invalid");
                    reveal_strlit("operator display name is invalid");
                }
                assert("operator display name"@ + " is invalid"@ =~= "operator display name is invalid"@);
                return Err(e);
            },
        }
        Ok(OperatorIdentity {
            id: OperatorId::local(),
            stable_key: None,
            display_name,
            kind: OperatorIdentityKind::LocalOperator,
        })
    }

    /// A named operator, identified by a stable key independent of its display name.
    pub fn named(stable_key: String, display_name: String) -> (r: Result<Self, KnowledgeError>)
        ensures
            r is Ok <==> identifier_valid(stable_key@) && identifier_valid(display_name@),
            r matches Ok(o) ==> o.id@ == named_operator_id(stable_key@) && (o.stable_key matches Some(k)
                && k@ == stable_key@) && o.display_name@ == display_name@ && o.kind
                == OperatorIdentityKind::NamedOperator,
    {
        validate_identifier("operator stable key", stable_key.as_str())?;
        validate_identifier("operator display name", display_name.as_str())?;
        let id = OperatorId::named(stable_key.as_str());
        Ok(OperatorIdentity {
            id,
            stable_key: Some(stable_key),
            display_name,
            kind: OperatorIdentityKind::NamedOperator,
        })
    }
}

#[derive(Debug, Clone, Copy, PartialEq, Eq, PartialOrd, Ord)]
pub enum OperatorConfidence {
    Certain,
    High,
    Medium,
    Tentative,
}

impl OperatorConfidence {
    pub fn as_str(self) -> (r: &'static str)
        ensures
            r@ == match self {
                OperatorConfidence::Certain => "certain"@,
                OperatorConfidence::High => "high"@,
                OperatorConfidence::Medium => "medium"@,
                OperatorConfidence::Tentative => "tentative"@,
            },
    {
        match self {
            OperatorConfidence::Certain => "certain",
            OperatorConfidence::High => "high",
            OperatorConfidence::Medium => "medium",
            OperatorConfidence::Tentative => "tentative",
        }
    }
}

#[derive(Debug, Clone, Copy, PartialEq, Eq, PartialOrd, Ord)]
pub enum OperatorIntent {
    Architecture,
    Decision,
    Preference,
    TemporaryConstraint,
    Experiment,
    Context,
}

impl OperatorIntent {
    pub fn as_str(self) -> (r: &'static str)
        ensures
            r@ == match self {
                OperatorIntent::Architecture => "architecture"@,
                OperatorIntent::Decision => "decision"@,
                OperatorIntent::Preference => "preference"@,
                OperatorIntent::TemporaryConstraint => "temporary_constraint"@,
                OperatorIntent::Experiment => "experiment"@,
                OperatorIntent::Context => "context"@,
            },
    {
        match self {
            OperatorIntent::Architecture => "architecture",
            OperatorIntent::Decision => "decision",
            OperatorIntent::Preference => "preference",
            OperatorIntent::TemporaryConstraint => "temporary_constraint",
            OperatorIntent::Experiment => "experiment",
            OperatorIntent::Context => "context",
        }
    }
}

#[derive(Debug, Clone, Copy, PartialEq, Eq, PartialOrd, Ord)]
pub enum AnnotationScope {
    Persistent,
    StateBound,
}

#[derive(Debug, Clone, Copy, PartialEq, Eq, PartialOrd, Ord, Structural)]
pub enum ResponseLifecycle {
    Draft,
    Active,
    Superseded,
    Retired,
    Withdrawn,
    Expired,
    ReviewRequired,
    Orphaned,
}

impl ResponseLifecycle {
    pub open spec fn as_str_spec(self) -> Seq<char> {
        match self {
            ResponseLifecycle::Draft => "draft"@,
            ResponseLifecycle::Active => "active"@,
            ResponseLifecycle::Superseded => "superseded"@,
            ResponseLifecycle::Retired => "retired"@,
            ResponseLifecycle::Withdrawn => "withdrawn"@,
            ResponseLifecycle::Expired => "expired"@,
            ResponseLifecycle::ReviewRequired => "review_required"@,
            ResponseLifecycle::Orphaned => "orphaned"@,
        }
    }

    pub fn as_str(self) -> (r: &'static str)
        ensures
            r@ == self.as_str_spec(),
            r@ == match self {
                ResponseLifecycle::Draft => "draft"@,
                ResponseLifecycle::Active => "active"@,
                ResponseLifecycle::Superseded => "superseded"@,
                ResponseLifecycle::Retired => "retired"@,
                ResponseLifecycle::Withdrawn => "withdrawn"@,
                ResponseLifecycle::Expired => "expired"@,
                ResponseLifecycle::ReviewRequired => "review_required"@,
                ResponseLifecycle::Orphaned => "orphaned"@,
            },
    {
        match self {
            ResponseLifecycle::Draft => "draft",
            ResponseLifecycle::Active => "active",
            ResponseLifecycle::Superseded => "superseded",
            ResponseLifecycle::Retired => "retired",
            ResponseLifecycle::Withdrawn => "withdrawn",
            ResponseLifecycle::Expired => "expired",
            ResponseLifecycle::ReviewRequired => "review_required",
            ResponseLifecycle::Orphaned => "orphaned",
        }
    }
}

#[derive(Debug, Clone, Copy, PartialEq, Eq, PartialOrd, Ord, Structural)]
pub enum OperatorTargetKind {
    Insight,
    Entity,
}

#[derive(Debug, Clone, Copy, PartialEq, Eq, PartialOrd, Ord, Structural)]
pub enum OperatorTargetClassification {
    Observed,
    Derived,
    OperatorDecided,
}

/// The characters of each string.
pub open spec fn views(s: Seq<String>) -> Seq<Seq<char>> {
    s.map_values(|x: String| x@)
}

/// Framed fields that share one label, one per value.
pub open spec fn repeated_fields(label: Seq<char>, values: Seq<Seq<char>>) -> Seq<u8>
    decreases values.len(),
{
    if values.len() == 0 {
        seq![]
    } else {
        repeated_fields(label, values.drop_last()) + text_field(label, values.last())
    }
}

/// The message digested into a target's evidence fingerprint.
pub open spec fn target_message(
    target_id: Seq<char>,
    rule_id: Option<Seq<char>>,
    statement: Seq<char>,
    evidence: Seq<Seq<char>>,
    related: Seq<Seq<char>>,
) -> Seq<u8> {
    text_field("version"@, "operator-target-v1"@) + text_field("target_id"@, target_id)
        + text_field(
        "rule_id"@,
        match rule_id {
            Some(r) => r,
            None => Seq::empty(),
        },
    ) + text_field("statement"@, statement) + repeated_fields("evidence"@, evidence)
        + repeated_fields("related_entity"@, related)
}

/// The evidence fingerprint of a target binding.
pub open spec fn target_fingerprint(
    target_id: Seq<char>,
    rule_id: Option<Seq<char>>,
    statement: Seq<char>,
    evidence: Seq<Seq<char>>,
    related: Seq<Seq<char>>,
) -> Seq<char> {
    "or-target-v1-"@ + sha256_hex(target_message(target_id, rule_id, statement, evidence, related))
}

pub open spec fn opt_view(o: Option<String>) -> Option<Seq<char>> {
    match o {
        Some(s) => Some(s@),
        None => None,
    }
}

fn push_repeated_fields(msg: &mut Vec<u8>, label: &str, values: &Vec<String>)
    ensures
        final(msg)@ == old(msg)@ + repeated_fields(label@, views(values@)),
{
    let ghost start = msg@;
    let mut i: usize = 0;
    while i < values.len()
        invariant
            i <= values@.len(),
            msg@ == start + repeated_fields(label@, views(values@.take(i as int))),
        decreases values@.len() - i,
    {
        push_text_field(msg, label, values[i].as_str());
        assert(views(values@.take(i + 1)).drop_last() =~= views(values@.take(i as int)));
        i = i + 1;
        assert(msg@ =~= start + repeated_fields(label@, views(values@.take(i as int))));
    }
    assert(values@.take(values@.len() as int) =~= values@);
}

fn compute_target_fingerprint(
    target_id: &str,
    rule_id: &Option<String>,
    statement: &str,
    evidence: &Vec<String>,
    related: &Vec<String>,
) -> (r: String)
    ensures
        r@ == target_fingerprint(
            target_id@,
            opt_view(*rule_id),
            statement@,
            views(evidence@),
            views(related@),
        ),
        prefixed_digest_text("or-target-v1-"@, r@),
{
    let mut msg: Vec<u8> = Vec::new();
    push_text_field(&mut msg, "version", "operator-target-v1");
    push_text_field(&mut msg, "target_id", target_id);
    match rule_id {
        Some(r) => push_text_field(&mut msg, "rule_id", r.as_str()),
        None => push_text_field(&mut msg, "rule_id", ""),
    }
    push_text_field(&mut msg, "statement", statement);
    push_repeated_fields(&mut msg, "evidence", evidence);
    push_repeated_fields(&mut msg, "related_entity", related);
    proof {
        reveal_strlit("");
    }
    assert(msg@ =~= target_message(
        target_id@,
        opt_view(*rule_id),
        statement@,
        views(evidence@),
        views(related@),
    ));
    let hex = digest_hex(msg.as_slice());
    let mut s = owned("or-target-v1-");
    let ghost prefix = s@;
    push_chars(&mut s, &hex);
    proof {
        reveal_strlit("or-target-v1-");
        assert(s@.take(prefix.len() as int) =~= prefix);
        assert(s@.skip(prefix.len() as int) =~= hex@);
    }
    s
}

/// What an operator response is bound to: one insight or entity, exactly as
/// it was when the operator responded.
#[derive(Debug, Clone, PartialEq, Eq)]
pub struct OperatorTargetBinding {
    pub target_id: String,
    pub target_kind: OperatorTargetKind,
    pub classification: OperatorTargetClassification,
    pub rule_id: Option<String>,
    pub statement: String,
    pub evidence_fingerprint: String,
    pub evidence_references: Vec<String>,
    pub related_entities: Vec<String>,
}

/// The fingerprint is that of the canonical ordering of the binding's fields.
pub open spec fn fingerprint_consistent(b: OperatorTargetBinding) -> bool {
    forall|ev: Seq<String>, rel: Seq<String>|
        #[trigger] sorted_unique_of(ev, b.evidence_references@) && #[trigger] sorted_unique_of(
            rel,
            b.related_entities@,
        ) ==> b.evidence_fingerprint@ == target_fingerprint(
            b.target_id@,
            opt_view(b.rule_id),
            b.statement@,
            views(ev),
            views(rel),
        )
}

pub open spec fn all_identifiers_valid(s: Seq<String>) -> bool {
    forall|i: int| 0 <= i < s.len() ==> identifier_valid(#[trigger] s[i]@)
}

/// The inputs a target binding accepts.
pub open spec fn binding_inputs_valid(
    target_id: Seq<char>,
    rule_id: Option<Seq<char>>,
    statement: Seq<char>,
    evidence: Seq<String>,
    related: Seq<String>,
) -> bool {
    &&& identifier_valid(target_id)
    &&& identifier_valid(statement)
    &&& (rule_id matches Some(r) ==> identifier_valid(r))
    &&& evidence.len() > 0
    &&& all_identifiers_valid(evidence)
    &&& all_identifiers_valid(related)
}

fn validate_all(label: &str, values: &Vec<String>) -> (r: Result<(), KnowledgeError>)
    ensures
        r is Ok <==> all_identifiers_valid(values@),
        r matches Err(e) ==> e is InvalidOperatorResponse,
{
    let mut i: usize = 0;
    while i < values.len()
        invariant
            i <= values@.len(),
            forall|j: int| 0 <= j < i ==> identifier_valid(#[trigger] values@[j]@),
        decreases values@.len() - i,
    {
        validate_identifier(label, values[i].as_str())?;
        i = i + 1;
    }
    Ok(())
}

/// Copies a vector of strings.
pub fn clone_strings(v: &Vec<String>) -> (r: Vec<String>)
    ensures
        r@ == v@,
{
    let mut r: Vec<String> = Vec::new();
    let mut i: usize = 0;
    while i < v.len()
        invariant
            i <= v@.len(),
            r@ == v@.take(i as int),
        decreases v@.len() - i,
    {
        r.push(v[i].clone());
        i = i + 1;
        assert(r@ =~= v@.take(i as int));
    }
    assert(v@.take(v@.len() as int) =~= v@);
    r
}

pub fn clone_opt_string(o: &Option<String>) -> (r: Option<String>)
    ensures
        r == *o,
{
    match o {
        Some(s) => Some(s.clone()),
        None => None,
    }
}

/// The binding holds the given target, its evidence references and related
/// entities sorted with repeats dropped, and their fingerprint.
pub open spec fn binding_made(
    b: OperatorTargetBinding,
    target_id: Seq<char>,
    rule_id: Option<Seq<char>>,
    statement: Seq<char>,
    evidence: Seq<String>,
    related: Seq<String>,
) -> bool {
    &&& b.target_id@ == target_id
    &&& opt_view(b.rule_id) == rule_id
    &&& b.statement@ == statement
    &&& sorted_unique_of(b.evidence_references@, evidence)
    &&& sorted_unique_of(b.related_entities@, related)
    &&& b.evidence_fingerprint@ == target_fingerprint(
        target_id,
        rule_id,
        statement,
        views(b.evidence_references@),
        views(b.related_entities@),
    )
}

/// Binding to a target depends on its evidence references and related
/// entities as sets of texts: given in another order, or with repeats, they
/// give the same lists and the same fingerprint.
pub proof fn law_binding_ignores_order(
    b1: OperatorTargetBinding,
    b2: OperatorTargetBinding,
    target_id: Seq<char>,
    rule_id: Option<Seq<char>>,
    statement: Seq<char>,
    evidence1: Seq<String>,
    evidence2: Seq<String>,
    related1: Seq<String>,
    related2: Seq<String>,
)
    requires
        binding_made(b1, target_id, rule_id, statement, evidence1, related1),
        binding_made(b2, target_id, rule_id, statement, evidence2, related2),
        crate::order::same_key_set(evidence1, evidence2),
        crate::order::same_key_set(related1, related2),
    ensures
        views(b1.evidence_references@) == views(b2.evidence_references@),
        views(b1.related_entities@) == views(b2.related_entities@),
        b1.evidence_fingerprint@ == b2.evidence_fingerprint@,
{
    crate::order::lemma_sorted_strings_agree(b1.evidence_references@, evidence1, b2.evidence_references@, evidence2);
    crate::order::lemma_sorted_strings_agree(b1.related_entities@, related1, b2.related_entities@, related2);
    assert(views(b1.evidence_references@) =~= views(b2.evidence_references@));
    assert(views(b1.related_entities@) =~= views(b2.related_entities@));
}

impl OperatorTargetBinding {
    /// Well-formed binding: canonical evidence and related entities, and the
    /// fingerprint of exactly these fields.
    pub open spec fn well_formed(&self) -> bool {
        &&& binding_inputs_valid(
            self.target_id@,
            opt_view(self.rule_id),
            self.statement@,
            self.evidence_references@,
            self.related_entities@,
        )
        &&& sorted_unique_of(self.evidence_references@, self.evidence_references@)
        &&& sorted_unique_of(self.related_entities@, self.related_entities@)
        &&& self.evidence_fingerprint@ == target_fingerprint(
            self.target_id@,
            opt_view(self.rule_id),
            self.statement@,
            views(self.evidence_references@),
            views(self.related_entities@),
        )
    }

    /// Binds to a target; evidence references and related entities are sorted
    /// and deduplicated, and the fingerprint covers all material fields.
    pub fn new(
        target_id: String,
        target_kind: OperatorTargetKind,
        classification: OperatorTargetClassification,
        rule_id: Option<String>,
        statement: String,
        evidence_references: Vec<String>,
        related_entities: Vec<String>,
    ) -> (r: Result<Self, KnowledgeError>)
        ensures
            r is Ok <==> binding_inputs_valid(
                target_id@,
                opt_view(rule_id),
                statement@,
                evidence_references@,
                related_entities@,
            ),
            r matches Err(e) ==> e is InvalidOperatorResponse,
            r matches Ok(b) ==> {
                &&& b.target_id@ == target_id@
                &&& b.target_kind == target_kind
                &&& b.classification == classification
                &&& opt_view(b.rule_id) == opt_view(rule_id)
                &&& b.statement@ == statement@
                &&& sorted_unique_of(b.evidence_references@, evidence_references@)
                &&& sorted_unique_of(b.related_entities@, related_entities@)
                &&& b.evidence_fingerprint@ == target_fingerprint(
                    target_id@,
                    opt_view(rule_id),
                    statement@,
                    views(b.evidence_references@),
                    views(b.related_entities@),
                )
                &&& prefixed_digest_text("or-target-v1-"@, b.evidence_fingerprint@)
                &&& binding_made(b, target_id@, opt_view(rule_id), statement@, evidence_references@, related_entities@)
            },
    {
        validate_identifier("target ID", target_id.as_str())?;
        validate_identifier("target statement", statement.as_str())?;
        match &rule_id {
            Some(rule) => {
                validate_identifier("rule ID", rule.as_str())?;
            },
            None => {},
        }
        if evidence_references.len() == 0 {
            return Err(
                KnowledgeError::InvalidOperatorResponse(owned("target binding requires evidence")),
            );
        }
        validate_all("evidence reference", &evidence_references)?;
        validate_all("related entity", &related_entities)?;
        let ghost ev_in = evidence_references@;
        let ghost rel_in = related_entities@;
        let evidence_references = sort_unique(evidence_references);
        let related_entities = sort_unique(related_entities);
        let evidence_fingerprint = compute_target_fingerprint(
            target_id.as_str(),
            &rule_id,
            statement.as_str(),
            &evidence_references,
            &related_entities,
        );
        Ok(OperatorTargetBinding {
            target_id,
            target_kind,
            classification,
            rule_id,
            statement,
            evidence_fingerprint,
            evidence_references,
            related_entities,
        })
    }

    /// Field-by-field equality of two bindings.
    pub open spec fn same_binding(&self, other: &Self) -> bool {
        &&& self.target_id@ == other.target_id@
        &&& self.target_kind == other.target_kind
        &&& self.classification == other.classification
        &&& opt_view(self.rule_id) == opt_view(other.rule_id)
        &&& self.statement@ == other.statement@
        &&& self.evidence_fingerprint@ == other.evidence_fingerprint@
        &&& views(self.evidence_references@) == views(other.evidence_references@)
        &&& views(self.related_entities@) == views(other.related_entities@)
    }

    /// Whether the binding is exactly the given one.
    pub fn exact_match(&self, other: &Self) -> (r: bool)
        ensures
            r == self.same_binding(other),
    {
        str_eq(self.target_id.as_str(), other.target_id.as_str()) && self.target_kind
            == other.target_kind && self.classification == other.classification && opt_str_eq(
            &self.rule_id,
            &other.rule_id,
        ) && str_eq(self.statement.as_str(), other.statement.as_str()) && str_eq(
            self.evidence_fingerprint.as_str(),
            other.evidence_fingerprint.as_str(),
        ) && strings_eq(&self.evidence_references, &other.evidence_references) && strings_eq(
            &self.related_entities,
            &other.related_entities,
        )
    }

    pub open spec fn governing_key_spec(&self) -> Seq<char> {
        match self.rule_id {
            Some(r) => r@,
            None => self.target_id@,
        }
    }

    /// Governing responses are keyed by rule where there is one, else by target.
    pub fn governing_key(&self) -> (r: &str)
        ensures
            r@ == self.governing_key_spec(),
    {
        match &self.rule_id {
            Some(r) => r.as_str(),
            None => self.target_id.as_str(),
        }
    }

    /// Checks that the binding is what `new` builds from its own fields.
    pub fn validate(&self) -> (r: Result<(), KnowledgeError>)
        ensures
            r is Ok <==> binding_inputs_valid(
                self.target_id@,
                opt_view(self.rule_id),
                self.statement@,
                self.evidence_references@,
                self.related_entities@,
            ) && fingerprint_consistent(*self),
            r matches Err(e) ==> e is InvalidOperatorResponse,
    {
        let rebuilt = OperatorTargetBinding::new(
            self.target_id.clone(),
            self.target_kind,
            self.classification,
            clone_opt_string(&self.rule_id),
            self.statement.clone(),
            clone_strings(&self.evidence_references),
            clone_strings(&self.related_entities),
        )?;
        proof {
            crate::order::lemma_same_key_set_refl(self.evidence_references@);
            crate::order::lemma_same_key_set_refl(self.related_entities@);
            assert forall|ev: Seq<String>, rel: Seq<String>|
                #[trigger] sorted_unique_of(ev, self.evidence_references@)
                && #[trigger] sorted_unique_of(rel, self.related_entities@)
                implies views(ev) == views(rebuilt.evidence_references@)
                && views(rel) == views(rebuilt.related_entities@) by {
                crate::order::lemma_sorted_strings_agree(ev, self.evidence_references@, rebuilt.evidence_references@, self.evidence_references@);
                crate::order::lemma_sorted_strings_agree(rel, self.related_entities@, rebuilt.related_entities@, self.related_entities@);
                assert(views(ev) =~= views(rebuilt.evidence_references@));
                assert(views(rel) =~= views(rebuilt.related_entities@));
            }
        }
        if !str_eq(rebuilt.evidence_fingerprint.as_str(), self.evidence_fingerprint.as_str()) {
            return Err(
                KnowledgeError::InvalidOperatorResponse(
                    owned("target evidence fingerprint does not match its binding"),
                ),
            );
        }
        Ok(())
    }

    pub fn duplicate(&self) -> (r: Self)
        ensures
            r.same_binding(self),
            r.target_id@ == self.target_id@,
            r.rule_id == self.rule_id,
            r.evidence_references@ == self.evidence_references@,
            r.related_entities@ == self.related_entities@,
    {
        OperatorTargetBinding {
            target_id: self.target_id.clone(),
            target_kind: self.target_kind,
            classification: self.classification,
            rule_id: clone_opt_string(&self.rule_id),
            statement: self.statement.clone(),
            evidence_fingerprint: self.evidence_fingerprint.clone(),
            evidence_references: clone_strings(&self.evidence_references),
            related_entities: clone_strings(&self.related_entities),
        }
    }
}

pub fn opt_str_eq(a: &Option<String>, b: &Option<String>) -> (r: bool)
    ensures
        r == (opt_view(*a) == opt_view(*b)),
{
    match (a, b) {
        (Some(x), Some(y)) => str_eq(x.as_str(), y.as_str()),
        (None, None) => true,
        _ => false,
    }
}

pub fn strings_eq(a: &Vec<String>, b: &Vec<String>) -> (r: bool)
    ensures
        r == (views(a@) == views(b@)),
{
    if a.len() != b.len() {
        assert(views(a@).len() != views(b@).len());
        return false;
    }
    let mut i: usize = 0;
    while i < a.len()
        invariant
            a@.len() == b@.len(),
            i <= a@.len(),
            forall|j: int| 0 <= j < i ==> a@[j]@ == b@[j]@,
        decreases a@.len() - i,
    {
        if !str_eq(a[i].as_str(), b[i].as_str()) {
            assert(views(a@)[i as int] != views(b@)[i as int]);
            return false;
        }
        i = i + 1;
    }
    assert(views(a@) =~= views(b@));
    true
}

#[derive(Debug, Clone, PartialEq, Eq)]
pub struct AnnotationPayload {
    pub statement: String,
    pub intent: OperatorIntent,
    pub scope: AnnotationScope,
    pub confidence: Option<OperatorConfidence>,
}

#[derive(Debug, Clone, PartialEq, Eq)]
pub struct AcceptancePayload {
    pub reason: Option<String>,
    pub confidence: Option<OperatorConfidence>,
}

#[derive(Debug, Clone, PartialEq, Eq)]
pub struct RejectionPayload {
    pub reason: String,
    pub intent: Option<OperatorIntent>,
    pub confidence: Option<OperatorConfidence>,
}

#[derive(Debug, Clone, PartialEq, Eq)]
pub struct CorrectionPayload {
    pub replacement_statement: String,
    pub reason: Option<String>,
    pub intent: OperatorIntent,
    pub confidence: Option<OperatorConfidence>,
}

#[derive(Debug, Clone, PartialEq, Eq)]
pub struct DisputePayload {
    pub reason: String,
    pub intent: Option<OperatorIntent>,
    pub confidence: Option<OperatorConfidence>,
}

/// What the operator said about the target.
#[derive(Debug, Clone, PartialEq, Eq)]
pub enum OperatorResponsePayload {
    Annotation(AnnotationPayload),
    Acceptance(AcceptancePayload),
    Rejection(RejectionPayload),
    Correction(CorrectionPayload),
    Dispute(DisputePayload),
}

pub open spec fn opt_text_valid(o: Option<String>) -> bool {
    o matches Some(v) ==> text_valid(v@)
}

impl OperatorResponsePayload {
    pub open spec fn kind_spec(&self) -> Seq<char> {
        match self {
            OperatorResponsePayload::Annotation(_) => "annotation"@,
            OperatorResponsePayload::Acceptance(_) => "acceptance"@,
            OperatorResponsePayload::Rejection(_) => "rejection"@,
            OperatorResponsePayload::Correction(_) => "correction"@,
            OperatorResponsePayload::Dispute(_) => "dispute"@,
        }
    }

    pub fn kind(&self) -> (r: &'static str)
        ensures
            r@ == self.kind_spec(),
    {
        match self {
            OperatorResponsePayload::Annotation(_) => "annotation",
            OperatorResponsePayload::Acceptance(_) => "acceptance",
            OperatorResponsePayload::Rejection(_) => "rejection",
            OperatorResponsePayload::Correction(_) => "correction",
            OperatorResponsePayload::Dispute(_) => "dispute",
        }
    }

    pub open spec fn initial_lifecycle_spec(&self) -> ResponseLifecycle {
        match self {
            OperatorResponsePayload::Annotation(_) | OperatorResponsePayload::Acceptance(_) => {
                ResponseLifecycle::Active
            },
            _ => ResponseLifecycle::Draft,
        }
    }

    /// Annotations and acceptances take effect at once; the others start as drafts.
    pub fn initial_lifecycle(&self) -> (r: ResponseLifecycle)
        ensures
            r == self.initial_lifecycle_spec(),
    {
        match self {
            OperatorResponsePayload::Annotation(_) | OperatorResponsePayload::Acceptance(_) => {
                ResponseLifecycle::Active
            },
            _ => ResponseLifecycle::Draft,
        }
    }

    pub fn is_annotation(&self) -> (r: bool)
        ensures
            r == (self is Annotation),
    {
        match self {
            OperatorResponsePayload::Annotation(_) => true,
            _ => false,
        }
    }

    /// Every response but an annotation governs the interpretation of its target.
    pub fn is_governing(&self) -> (r: bool)
        ensures
            r == !(self is Annotation),
    {
        !self.is_annotation()
    }

    pub open spec fn valid(&self) -> bool {
        match self {
            OperatorResponsePayload::Annotation(p) => text_valid(p.statement@),
            OperatorResponsePayload::Acceptance(p) => opt_text_valid(p.reason),
            OperatorResponsePayload::Rejection(p) => text_valid(p.reason@),
            OperatorResponsePayload::Correction(p) => text_valid(p.replacement_statement@)
                && opt_text_valid(p.reason),
            OperatorResponsePayload::Dispute(p) => text_valid(p.reason@),
        }
    }

    /// Free text in the payload is non-blank, bounded, and free of obvious secrets.
    pub fn validate(&self) -> (r: Result<(), KnowledgeError>)
        ensures
            r is Ok <==> self.valid(),
    {
        match self {
            OperatorResponsePayload::Annotation(p) => validate_text(
                "annotation statement",
                p.statement.as_str(),
            ),
            OperatorResponsePayload::Acceptance(p) => validate_optional_text(
                "acceptance reason",
                &p.reason,
            ),
            OperatorResponsePayload::Rejection(p) => validate_text(
                "rejection reason",
                p.reason.as_str(),
            ),
            OperatorResponsePayload::Correction(p) => {
                validate_text("replacement statement", p.replacement_statement.as_str())?;
                validate_optional_text("correction reason", &p.reason)
            },
            OperatorResponsePayload::Dispute(p) => validate_text(
                "dispute reason",
                p.reason.as_str(),
            ),
        }
    }
}

#[derive(Debug, Clone, PartialEq, Eq)]
pub struct ResponseAuditMetadata {
    pub transaction_id: OperatorTransactionId,
    pub created_at: String,
}

/// One stored operator response.
#[derive(Debug, Clone, PartialEq, Eq)]
pub struct OperatorResponse {
    pub schema_version: u32,
    pub id: OperatorResponseId,
    pub project: String,
    pub target: OperatorTargetBinding,
    pub operator: OperatorIdentity,
    pub lifecycle: ResponseLifecycle,
    pub payload: OperatorResponsePayload,
    pub supersedes: Option<OperatorResponseId>,
    pub audit: ResponseAuditMetadata,
}

pub open spec fn opt_id_view(o: Option<OperatorResponseId>) -> Option<Seq<char>> {
    match o {
        Some(i) => Some(i@),
        None => None,
    }
}

/// A well-formed operator identity: the shared local identity, or a named
/// identity whose identifier is the digest of its stable key.
pub open spec fn identity_valid(o: OperatorIdentity) -> bool {
    &&& identifier_valid(o.display_name@)
    &&& match o.kind {
        OperatorIdentityKind::LocalOperator => o.id@ == local_operator_id() && o.stable_key is None,
        OperatorIdentityKind::NamedOperator => o.stable_key matches Some(k) && identifier_valid(k@)
            && o.id@ == named_operator_id(k@),
        _ => false,
    }
}

impl OperatorResponse {
    /// Only an active response takes effect.
    pub fn is_effective(&self) -> (r: bool)
        ensures
            r == (self.lifecycle == ResponseLifecycle::Active),
    {
        self.lifecycle == ResponseLifecycle::Active
    }

    /// Everything `validate` checks.
    pub open spec fn valid(&self) -> bool {
        &&& self.schema_version == OPERATOR_RESPONSE_SCHEMA_VERSION
        &&& sequence_id_valid(self.id@, RESPONSE_ID_PREFIX@)
        &&& sequence_id_valid(self.audit.transaction_id@, TRANSACTION_ID_PREFIX@)
        &&& identifier_valid(self.project@)
        &&& binding_inputs_valid(
            self.target.target_id@,
            opt_view(self.target.rule_id),
            self.target.statement@,
            self.target.evidence_references@,
            self.target.related_entities@,
        )
        &&& fingerprint_consistent(self.target)
        &&& self.payload.valid()
        &&& (!(self.payload is Annotation) ==> self.target.classification
            == OperatorTargetClassification::Derived)
        &&& opt_id_view(self.supersedes) != Some(self.id@)
        &&& identity_valid(self.operator)
        &&& identifier_valid(self.audit.created_at@)
    }

    /// Checks the stored response: schema, identifiers, binding, payload text,
    /// governance only of derived targets, no self-supersession, and identity.
    pub fn validate(&self) -> (r: Result<(), KnowledgeError>)
        ensures
            r is Ok <==> self.valid(),
            r matches Err(e) ==> (e is ObservedTargetGovernance <==> (
                self.schema_version == OPERATOR_RESPONSE_SCHEMA_VERSION
                && sequence_id_valid(self.id@, RESPONSE_ID_PREFIX@)
                && sequence_id_valid(self.audit.transaction_id@, TRANSACTION_ID_PREFIX@)
                && identifier_valid(self.project@)
                && binding_inputs_valid(
                    self.target.target_id@,
                    opt_view(self.target.rule_id),
                    self.target.statement@,
                    self.target.evidence_references@,
                    self.target.related_entities@,
                ) && fingerprint_consistent(self.target) && self.payload.valid() && !(self.payload is Annotation)
                && self.target.classification != OperatorTargetClassification::Derived)),
    {
        if self.schema_version != OPERATOR_RESPONSE_SCHEMA_VERSION {
            return Err(
                KnowledgeError::UnsupportedOperatorResponseSchema {
                    found: self.schema_version,
                    supported: OPERATOR_RESPONSE_SCHEMA_VERSION,
                },
            );
        }
        self.id.validate()?;
        self.audit.transaction_id.validate()?;
        validate_identifier("project", self.project.as_str())?;
        match self.target.validate() {
            Ok(()) => {},
            Err(e) => {
                return Err(match e {
                    KnowledgeError::ObservedTargetGovernance => KnowledgeError::InvalidOperatorResponse(owned("target is invalid")),
                    other => other,
                });
            }
        }
        match self.payload.validate() {
            Ok(()) => {},
            Err(e) => {
                return Err(match e {
                    KnowledgeError::ObservedTargetGovernance => KnowledgeError::InvalidOperatorResponse(owned("payload is invalid")),
                    other => other,
                });
            }
        }
        if self.payload.is_governing() && self.target.classification
            != OperatorTargetClassification::Derived {
            return Err(KnowledgeError::ObservedTargetGovernance);
        }
        match &self.supersedes {
            Some(s) => {
                if s.same(&self.id) {
                    return Err(
                        KnowledgeError::InvalidOperatorResponse(
                            owned("a response cannot supersede itself"),
                        ),
                    );
                }
            },
            None => {},
        }
        validate_identifier("operator display name", self.operator.display_name.as_str())?;
        match self.operator.kind {
            OperatorIdentityKind::LocalOperator => {
                let local = OperatorId::local();
                if !(self.operator.id.same(&local) && self.operator.stable_key.is_none()) {
                    return Err(
                        KnowledgeError::InvalidOperatorResponse(
                            owned("unsupported or malformed operator identity"),
                        ),
                    );
                }
            },
            OperatorIdentityKind::NamedOperator => {
                match &self.operator.stable_key {
                    Some(stable_key) => {
                        validate_identifier("operator stable key", stable_key.as_str())?;
                        let expected = OperatorId::named(stable_key.as_str());
                        if !self.operator.id.same(&expected) {
                            return Err(
                                KnowledgeError::InvalidOperatorResponse(
                                    owned("operator ID does not match its stable key"),
                                ),
                            );
                        }
                    },
                    None => {
                        return Err(
                            KnowledgeError::InvalidOperatorResponse(
                                owned("named operator requires a stable key"),
                            ),
                        );
                    },
                }
            },
            _ => {
                return Err(
                    KnowledgeError::InvalidOperatorResponse(
                        owned("unsupported or malformed operator identity"),
                    ),
                );
            },
        }
        validate_identifier("created_at", self.audit.created_at.as_str())?;
        Ok(())
    }
}

/// A response as requested, before the store allocates its identifiers.
#[derive(Debug, Clone, PartialEq, Eq)]
pub struct NewOperatorResponse {
    pub project: String,
    pub target: OperatorTargetBinding,
    pub operator: OperatorIdentity,
    pub payload: OperatorResponsePayload,
    pub supersedes: Option<OperatorResponseId>,
}

impl NewOperatorResponse {
    pub fn new(
        project: String,
        target: OperatorTargetBinding,
        operator: OperatorIdentity,
        payload: OperatorResponsePayload,
    ) -> (r: Self)
        ensures
            r.project == project,
            r.target == target,
            r.operator == operator,
            r.payload == payload,
            r.supersedes is None,
    {
        NewOperatorResponse { project, target, operator, payload, supersedes: None }
    }

    pub fn with_supersedes(self, supersedes: OperatorResponseId) -> (r: Self)
        ensures
            r.project == self.project,
            r.target == self.target,
            r.operator == self.operator,
            r.payload == self.payload,
            r.supersedes == Some(supersedes),
    {
        let mut next = self;
        next.supersedes = Some(supersedes);
        next
    }
}

/// Two responses with the same content, field by field.
pub open spec fn same_response(a: OperatorResponse, b: OperatorResponse) -> bool {
    &&& a.schema_version == b.schema_version
    &&& a.id == b.id
    &&& a.project == b.project
    &&& a.target.same_binding(&b.target)
    &&& a.target.rule_id == b.target.rule_id
    &&& a.target.evidence_references@ == b.target.evidence_references@
    &&& a.target.related_entities@ == b.target.related_entities@
    &&& a.operator == b.operator
    &&& a.lifecycle == b.lifecycle
    &&& a.payload == b.payload
    &&& a.supersedes == b.supersedes
    &&& a.audit == b.audit
}

fn copy_payload(p: &OperatorResponsePayload) -> (r: OperatorResponsePayload)
    ensures
        r == *p,
{
    match p {
        OperatorResponsePayload::Annotation(a) => OperatorResponsePayload::Annotation(AnnotationPayload {
            statement: a.statement.clone(),
            intent: a.intent,
            scope: a.scope,
            confidence: a.confidence,
        }),
        OperatorResponsePayload::Acceptance(a) => OperatorResponsePayload::Acceptance(AcceptancePayload {
            reason: clone_opt_string(&a.reason),
            confidence: a.confidence,
        }),
        OperatorResponsePayload::Rejection(a) => OperatorResponsePayload::Rejection(RejectionPayload {
            reason: a.reason.clone(),
            intent: a.intent,
            confidence: a.confidence,
        }),
        OperatorResponsePayload::Correction(a) => OperatorResponsePayload::Correction(CorrectionPayload {
            replacement_statement: a.replacement_statement.clone(),
            reason: clone_opt_string(&a.reason),
            intent: a.intent,
            confidence: a.confidence,
        }),
        OperatorResponsePayload::Dispute(a) => OperatorResponsePayload::Dispute(DisputePayload {
            reason: a.reason.clone(),
            intent: a.intent,
            confidence: a.confidence,
        }),
    }
}

impl OperatorResponse {
    /// A copy with the same content.
    pub fn duplicate(&self) -> (r: Self)
        ensures
            same_response(r, *self),
    {
        OperatorResponse {
            schema_version: self.schema_version,
            id: self.id.duplicate(),
            project: self.project.clone(),
            target: self.target.duplicate(),
            operator: OperatorIdentity {
                id: self.operator.id.duplicate(),
                stable_key: clone_opt_string(&self.operator.stable_key),
                display_name: self.operator.display_name.clone(),
                kind: self.operator.kind,
            },
            lifecycle: self.lifecycle,
            payload: copy_payload(&self.payload),
            supersedes: match &self.supersedes {
                Some(s) => Some(s.duplicate()),
                None => None,
            },
            audit: ResponseAuditMetadata {
                transaction_id: self.audit.transaction_id.duplicate(),
                created_at: self.audit.created_at.clone(),
            },
        }
    }
}

} // verus!
