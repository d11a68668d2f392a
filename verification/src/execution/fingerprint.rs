//! Validated SHA-256 fingerprints.
use vstd::prelude::*;
use crate::digest::{digest_hex, field_bytes, push_field, sha256_hex};
use crate::text::{chars_of, chars_start_with, owned, push_chars, starts_with, is_ascii_hexdigit, char_is_ascii_hexdigit};

verus! {

pub const SHA256_PREFIX: &'static str = "sha256:";
pub const SHA256_HEX_LENGTH: usize = 64;

pub open spec fn is_upper_hex(c: char) -> bool {
    'A' <= c && c <= 'F'
}

/// The first reason a text is not a fingerprint, if any.
pub open spec fn fingerprint_problem(value: Seq<char>) -> Option<Seq<char>> {
    let hex = value.skip(SHA256_PREFIX@.len() as int);
    if !starts_with(value, SHA256_PREFIX@) {
        Some("fingerprint must start with sha256:"@)
    } else if hex.len() != 64 || exists|i: int| 0 <= i < hex.len() && !is_ascii_hexdigit(#[trigger] hex[i]) {
        Some("fingerprint must contain exactly 64 hexadecimal characters"@)
    } else if exists|i: int| 0 <= i < hex.len() && is_upper_hex(#[trigger] hex[i]) {
        Some("fingerprint hexadecimal characters must be lowercase"@)
    } else {
        None
    }
}

/// A validated, stable SHA-256 fingerprint: `sha256:` and 64 lowercase hex digits.
#[derive(Debug, Clone, PartialEq, Eq, PartialOrd, Ord, Hash)]
pub struct Fingerprint(String);

impl View for Fingerprint {
    type V = Seq<char>;

    closed spec fn view(&self) -> Seq<char> {
        self.0@
    }
}

impl Fingerprint {
    pub fn parse(value: String) -> (r: Result<Self, String>)
        ensures
            r is Ok <==> fingerprint_problem(value@) is None,
            r matches Ok(f) ==> f@ == value@,
            r matches Err(m) ==> Some(m@) == fingerprint_problem(value@),
    {
        proof {
            reveal_strlit("sha256:");
        }
        let v = chars_of(value.as_str());
        let p = chars_of(SHA256_PREFIX);
        if !chars_start_with(&v, &p) {
            return Err(owned("fingerprint must start with sha256:"));
        }
        let ghost hex = value@.skip(7);
        if v.len() != p.len() + 64 {
            return Err(owned("fingerprint must contain exactly 64 hexadecimal characters"));
        }
        let mut i: usize = p.len();
        while i < v.len()
            invariant
                7 <= i <= v@.len(),
                v@ == value@,
                p@.len() == 7,
                SHA256_PREFIX@.len() == 7,
                v@.len() == 71,
                starts_with(value@, SHA256_PREFIX@),
                hex == value@.skip(7),
                forall|j: int| 0 <= j < i - 7 ==> is_ascii_hexdigit(#[trigger] hex[j]),
            decreases v@.len() - i,
        {
            if !char_is_ascii_hexdigit(v[i]) {
                assert(!is_ascii_hexdigit(hex[i - 7]));
                return Err(owned("fingerprint must contain exactly 64 hexadecimal characters"));
            }
            i = i + 1;
        }
        let mut i: usize = p.len();
        while i < v.len()
            invariant
                7 <= i <= v@.len(),
                v@ == value@,
                SHA256_PREFIX@.len() == 7,
                v@.len() == 71,
                starts_with(value@, SHA256_PREFIX@),
                hex == value@.skip(7),
                forall|j: int| 0 <= j < 64 ==> is_ascii_hexdigit(#[trigger] hex[j]),
                forall|j: int| 0 <= j < i - 7 ==> !is_upper_hex(#[trigger] hex[j]),
            decreases v@.len() - i,
        {
            if 'A' <= v[i] && v[i] <= 'F' {
                assert(is_upper_hex(hex[i - 7]));
                return Err(owned("fingerprint hexadecimal characters must be lowercase"));
            }
            i = i + 1;
        }
        Ok(Fingerprint(value))
    }

    pub fn as_str(&self) -> (r: &str)
        ensures
            r@ == self@,
    {
        self.0.as_str()
    }
}

/// The framed message of a domain and its named fields.
pub open spec fn fields_message(domain: Seq<u8>, fields: Seq<(Seq<u8>, Seq<u8>)>) -> Seq<u8>
    decreases fields.len(),
{
    if fields.len() == 0 {
        field_bytes("domain"@.map_values(|c: char| c as u8), domain)
    } else {
        let last = fields.last();
        fields_message(domain, fields.drop_last()) + field_bytes("field"@.map_values(|c: char| c as u8), last.0)
            + field_bytes(last.0, last.1)
    }
}

pub open spec fn field_views(fields: Seq<(Vec<u8>, Vec<u8>)>) -> Seq<(Seq<u8>, Seq<u8>)> {
    fields.map_values(|f: (Vec<u8>, Vec<u8>)| (f.0@, f.1@))
}

/// The fingerprint of a domain and its fields: each field is framed with its
/// length, so no two field lists frame to the same bytes.
pub fn hash_fields(domain: &[u8], fields: &Vec<(Vec<u8>, Vec<u8>)>) -> (r: Fingerprint)
    ensures
        r@ == SHA256_PREFIX@ + sha256_hex(fields_message(domain@, field_views(fields@))),
        fingerprint_problem(r@) is None,
{
    let mut msg: Vec<u8> = Vec::new();
    let domain_label: Vec<u8> = vec![100u8, 111u8, 109u8, 97u8, 105u8, 110u8];
    let field_label: Vec<u8> = vec![102u8, 105u8, 101u8, 108u8, 100u8];
    proof {
        reveal_strlit("domain");
        reveal_strlit("field");
        assert(domain_label@ =~= "domain"@.map_values(|c: char| c as u8));
        assert(field_label@ =~= "field"@.map_values(|c: char| c as u8));
    }
    push_field(&mut msg, domain_label.as_slice(), domain);
    assert(msg@ =~= fields_message(domain@, field_views(fields@.take(0))));
    let mut i: usize = 0;
    while i < fields.len()
        invariant
            i <= fields@.len(),
            domain_label@ == "domain"@.map_values(|c: char| c as u8),
            field_label@ == "field"@.map_values(|c: char| c as u8),
            msg@ == fields_message(domain@, field_views(fields@.take(i as int))),
        decreases fields@.len() - i,
    {
        push_field(&mut msg, field_label.as_slice(), fields[i].0.as_slice());
        push_field(&mut msg, fields[i].0.as_slice(), fields[i].1.as_slice());
        proof {
            let t = field_views(fields@.take(i + 1));
            assert(t.drop_last() =~= field_views(fields@.take(i as int)));
        }
        i = i + 1;
    }
    assert(fields@.take(fields@.len() as int) =~= fields@);
    let hex = digest_hex(msg.as_slice());
    let mut s = owned(SHA256_PREFIX);
    push_chars(&mut s, hex.as_slice());
    proof {
        reveal_strlit("sha256:");
        let v = s@;
        assert(starts_with(v, SHA256_PREFIX@)) by {
            assert(v.take(7) =~= SHA256_PREFIX@);
        }
        assert(v.skip(7) =~= hex@);
        crate::digest::lemma_hex_lower_digits(crate::digest::sha256_of(msg@));
    }
    Fingerprint(s)
}

} // verus!
