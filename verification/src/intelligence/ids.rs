//! Stable identifiers: each is a prefix and the digest of a domain and its fields.
use vstd::prelude::*;
use crate::digest::{digest_hex, push_text_field, sha256_hex};
use crate::knowledge::operator::{repeated_fields, text_field, views};
use crate::order::{push_str_key, str_key, SortKey};
use crate::text::{owned, push_chars, str_eq};

verus! {

/// The identifier text: `prefix`, then the SHA-256 of the framed domain and fields.
pub open spec fn derived_id(prefix: Seq<char>, domain: Seq<char>, fields: Seq<Seq<char>>) -> Seq<char> {
    prefix + sha256_hex(text_field("domain"@, domain) + repeated_fields("field"@, fields))
}

fn derive_text(prefix: &str, domain: &str, fields: &Vec<String>) -> (r: String)
    ensures
        r@ == derived_id(prefix@, domain@, views(fields@)),
{
    let mut msg: Vec<u8> = Vec::new();
    push_text_field(&mut msg, "domain", domain);
    let ghost start = msg@;
    let mut i: usize = 0;
    while i < fields.len()
        invariant
            i <= fields@.len(),
            msg@ == start + repeated_fields("field"@, views(fields@.take(i as int))),
        decreases fields@.len() - i,
    {
        push_text_field(&mut msg, "field", fields[i].as_str());
        assert(views(fields@.take(i + 1)).drop_last() =~= views(fields@.take(i as int)));
        i = i + 1;
        assert(msg@ =~= start + repeated_fields("field"@, views(fields@.take(i as int))));
    }
    assert(fields@.take(fields@.len() as int) =~= fields@);
    let hex = digest_hex(msg.as_slice());
    let mut s = owned(prefix);
    push_chars(&mut s, &hex);
    s
}

/// Identifier of a graph entity.
#[derive(Debug, Clone, PartialEq, Eq, PartialOrd, Ord, Hash)]
pub struct EntityId(String);

pub const ENTITY_ID_PREFIX: &'static str = "pi-entity-v1-";

impl View for EntityId {
    type V = Seq<char>;

    closed spec fn view(&self) -> Seq<char> {
        self.0@
    }
}

impl EntityId {
    pub fn derive(domain: &str, fields: &Vec<String>) -> (r: Self)
        ensures
            r@ == derived_id(ENTITY_ID_PREFIX@, domain@, views(fields@)),
    {
        EntityId(derive_text(ENTITY_ID_PREFIX, domain, fields))
    }

    pub fn as_str(&self) -> (r: &str)
        ensures
            r@ == self@,
    {
        self.0.as_str()
    }

    pub fn to_text(&self) -> (r: String)
        ensures
            r@ == self@,
    {
        self.0.clone()
    }

    pub fn duplicate(&self) -> (r: Self)
        ensures
            r == *self,
    {
        EntityId(self.0.clone())
    }

    pub fn same(&self, other: &Self) -> (r: bool)
        ensures
            r == (self@ == other@),
    {
        str_eq(self.0.as_str(), other.0.as_str())
    }
}

impl SortKey for EntityId {
    open spec fn sort_key(&self) -> Seq<u32> {
        str_key(self@)
    }

    fn key(&self) -> (k: Vec<u32>) {
        let mut k = Vec::new();
        push_str_key(&mut k, self.0.as_str());
        assert(k@ =~= str_key(self@));
        k
    }
}

/// Identifier of a graph relationship.
#[derive(Debug, Clone, PartialEq, Eq, PartialOrd, Ord, Hash)]
pub struct RelationshipId(String);

pub const RELATIONSHIP_ID_PREFIX: &'static str = "pi-relationship-v1-";

impl View for RelationshipId {
    type V = Seq<char>;

    closed spec fn view(&self) -> Seq<char> {
        self.0@
    }
}

impl RelationshipId {
    pub fn derive(domain: &str, fields: &Vec<String>) -> (r: Self)
        ensures
            r@ == derived_id(RELATIONSHIP_ID_PREFIX@, domain@, views(fields@)),
    {
        RelationshipId(derive_text(RELATIONSHIP_ID_PREFIX, domain, fields))
    }

    pub fn as_str(&self) -> (r: &str)
        ensures
            r@ == self@,
    {
        self.0.as_str()
    }

    pub fn to_text(&self) -> (r: String)
        ensures
            r@ == self@,
    {
        self.0.clone()
    }

    pub fn duplicate(&self) -> (r: Self)
        ensures
            r == *self,
    {
        RelationshipId(self.0.clone())
    }

    pub fn same(&self, other: &Self) -> (r: bool)
        ensures
            r == (self@ == other@),
    {
        str_eq(self.0.as_str(), other.0.as_str())
    }
}

impl SortKey for RelationshipId {
    open spec fn sort_key(&self) -> Seq<u32> {
        str_key(self@)
    }

    fn key(&self) -> (k: Vec<u32>) {
        let mut k = Vec::new();
        push_str_key(&mut k, self.0.as_str());
        assert(k@ =~= str_key(self@));
        k
    }
}

/// Identifier of a derived insight.
#[derive(Debug, Clone, PartialEq, Eq, PartialOrd, Ord, Hash)]
pub struct InsightId(String);

pub const INSIGHT_ID_PREFIX: &'static str = "pi-insight-v1-";

impl View for InsightId {
    type V = Seq<char>;

    closed spec fn view(&self) -> Seq<char> {
        self.0@
    }
}

impl InsightId {
    pub fn derive(domain: &str, fields: &Vec<String>) -> (r: Self)
        ensures
            r@ == derived_id(INSIGHT_ID_PREFIX@, domain@, views(fields@)),
    {
        InsightId(derive_text(INSIGHT_ID_PREFIX, domain, fields))
    }

    pub fn as_str(&self) -> (r: &str)
        ensures
            r@ == self@,
    {
        self.0.as_str()
    }

    pub fn to_text(&self) -> (r: String)
        ensures
            r@ == self@,
    {
        self.0.clone()
    }

    pub fn duplicate(&self) -> (r: Self)
        ensures
            r == *self,
    {
        InsightId(self.0.clone())
    }

    pub fn same(&self, other: &Self) -> (r: bool)
        ensures
            r == (self@ == other@),
    {
        str_eq(self.0.as_str(), other.0.as_str())
    }
}

impl SortKey for InsightId {
    open spec fn sort_key(&self) -> Seq<u32> {
        str_key(self@)
    }

    fn key(&self) -> (k: Vec<u32>) {
        let mut k = Vec::new();
        push_str_key(&mut k, self.0.as_str());
        assert(k@ =~= str_key(self@));
        k
    }
}

/// Identifier of a derived risk.
#[derive(Debug, Clone, PartialEq, Eq, PartialOrd, Ord, Hash)]
pub struct RiskId(String);

pub const RISK_ID_PREFIX: &'static str = "pi-risk-v1-";

impl View for RiskId {
    type V = Seq<char>;

    closed spec fn view(&self) -> Seq<char> {
        self.0@
    }
}

impl RiskId {
    pub fn derive(domain: &str, fields: &Vec<String>) -> (r: Self)
        ensures
            r@ == derived_id(RISK_ID_PREFIX@, domain@, views(fields@)),
    {
        RiskId(derive_text(RISK_ID_PREFIX, domain, fields))
    }

    pub fn as_str(&self) -> (r: &str)
        ensures
            r@ == self@,
    {
        self.0.as_str()
    }

    pub fn to_text(&self) -> (r: String)
        ensures
            r@ == self@,
    {
        self.0.clone()
    }

    pub fn duplicate(&self) -> (r: Self)
        ensures
            r == *self,
    {
        RiskId(self.0.clone())
    }

    pub fn same(&self, other: &Self) -> (r: bool)
        ensures
            r == (self@ == other@),
    {
        str_eq(self.0.as_str(), other.0.as_str())
    }
}

impl SortKey for RiskId {
    open spec fn sort_key(&self) -> Seq<u32> {
        str_key(self@)
    }

    fn key(&self) -> (k: Vec<u32>) {
        let mut k = Vec::new();
        push_str_key(&mut k, self.0.as_str());
        assert(k@ =~= str_key(self@));
        k
    }
}

/// Identifier of a stated limitation.
#[derive(Debug, Clone, PartialEq, Eq, PartialOrd, Ord, Hash)]
pub struct LimitationId(String);

pub const LIMITATION_ID_PREFIX: &'static str = "pi-limitation-v1-";

impl View for LimitationId {
    type V = Seq<char>;

    closed spec fn view(&self) -> Seq<char> {
        self.0@
    }
}

impl LimitationId {
    pub fn derive(domain: &str, fields: &Vec<String>) -> (r: Self)
        ensures
            r@ == derived_id(LIMITATION_ID_PREFIX@, domain@, views(fields@)),
    {
        LimitationId(derive_text(LIMITATION_ID_PREFIX, domain, fields))
    }

    pub fn as_str(&self) -> (r: &str)
        ensures
            r@ == self@,
    {
        self.0.as_str()
    }

    pub fn to_text(&self) -> (r: String)
        ensures
            r@ == self@,
    {
        self.0.clone()
    }

    pub fn duplicate(&self) -> (r: Self)
        ensures
            r == *self,
    {
        LimitationId(self.0.clone())
    }

    pub fn same(&self, other: &Self) -> (r: bool)
        ensures
            r == (self@ == other@),
    {
        str_eq(self.0.as_str(), other.0.as_str())
    }
}

impl SortKey for LimitationId {
    open spec fn sort_key(&self) -> Seq<u32> {
        str_key(self@)
    }

    fn key(&self) -> (k: Vec<u32>) {
        let mut k = Vec::new();
        push_str_key(&mut k, self.0.as_str());
        assert(k@ =~= str_key(self@));
        k
    }
}

/// Identifier of an insight rule.
#[derive(Debug, Clone, PartialEq, Eq, PartialOrd, Ord, Hash)]
pub struct RuleId(String);

pub const PI_001: &'static str = "PI-001";

pub const PI_002: &'static str = "PI-002";

pub const PI_003: &'static str = "PI-003";

pub const PI_004: &'static str = "PI-004";

pub const PI_005: &'static str = "PI-005";

pub const PI_006: &'static str = "PI-006";

impl View for RuleId {
    type V = Seq<char>;

    closed spec fn view(&self) -> Seq<char> {
        self.0@
    }
}

impl RuleId {
    pub fn new(value: String) -> (r: Self)
        ensures
            r@ == value@,
    {
        RuleId(value)
    }

    pub fn as_str(&self) -> (r: &str)
        ensures
            r@ == self@,
    {
        self.0.as_str()
    }

    pub fn to_text(&self) -> (r: String)
        ensures
            r@ == self@,
    {
        self.0.clone()
    }

    pub fn duplicate(&self) -> (r: Self)
        ensures
            r == *self,
    {
        RuleId(self.0.clone())
    }
}

impl SortKey for RuleId {
    open spec fn sort_key(&self) -> Seq<u32> {
        str_key(self@)
    }

    fn key(&self) -> (k: Vec<u32>) {
        let mut k = Vec::new();
        push_str_key(&mut k, self.0.as_str());
        assert(k@ =~= str_key(self@));
        k
    }
}

} // verus!
