//! Length-prefixed field framing, SHA-256 digests, and lowercase hexadecimal text.
use vstd::prelude::*;

verus! {

/// The SHA-256 digest of a byte message, as computed by the `sha2` crate.
pub uninterp spec fn sha256_of(data: Seq<u8>) -> Seq<u8>;

/// Calls `sha2::Sha256::digest` on the whole message. Trusted: the result is
/// the digest named `sha256_of` of exactly these bytes, and it is 32 bytes long
/// (SHA-256 output size). Nothing else about the digest is stated.
#[verifier::external_body]
fn sha256(data: &[u8]) -> (d: Vec<u8>)
    ensures
        d@ == sha256_of(data@),
        d@.len() == 32,
{
    <sha2::Sha256 as sha2::Digest>::digest(data).to_vec()
}

/// The eight big-endian bytes of a 64-bit length.
pub open spec fn be_u64(n: u64) -> Seq<u8> {
    seq![
        ((n / 0x100000000000000) % 256) as u8,
        ((n / 0x1000000000000) % 256) as u8,
        ((n / 0x10000000000) % 256) as u8,
        ((n / 0x100000000) % 256) as u8,
        ((n / 0x1000000) % 256) as u8,
        ((n / 0x10000) % 256) as u8,
        ((n / 0x100) % 256) as u8,
        (n % 256) as u8,
    ]
}

/// One framed field: the label's length, the label, the value's length, the value.
pub open spec fn field_bytes(label: Seq<u8>, value: Seq<u8>) -> Seq<u8> {
    be_u64(label.len() as u64) + label + be_u64(value.len() as u64) + value
}

fn push_be_u64(msg: &mut Vec<u8>, n: u64)
    ensures
        final(msg)@ == old(msg)@ + be_u64(n),
{
    msg.push(((n / 0x100000000000000) % 256) as u8);
    msg.push(((n / 0x1000000000000) % 256) as u8);
    msg.push(((n / 0x10000000000) % 256) as u8);
    msg.push(((n / 0x100000000) % 256) as u8);
    msg.push(((n / 0x1000000) % 256) as u8);
    msg.push(((n / 0x10000) % 256) as u8);
    msg.push(((n / 0x100) % 256) as u8);
    msg.push((n % 256) as u8);
    assert(msg@ =~= old(msg)@ + be_u64(n));
}

fn push_bytes(msg: &mut Vec<u8>, bytes: &[u8])
    ensures
        final(msg)@ == old(msg)@ + bytes@,
{
    let ghost start = msg@;
    let mut i: usize = 0;
    while i < bytes.len()
        invariant
            i <= bytes@.len(),
            msg@ == start + bytes@.take(i as int),
        decreases bytes@.len() - i,
    {
        msg.push(bytes[i]);
        i = i + 1;
        assert(msg@ =~= start + bytes@.take(i as int));
    }
    assert(bytes@.take(bytes@.len() as int) =~= bytes@);
}

/// Appends one framed field to a message.
pub fn push_field(msg: &mut Vec<u8>, label: &[u8], value: &[u8])
    ensures
        final(msg)@ == old(msg)@ + field_bytes(label@, value@),
{
    push_be_u64(msg, label.len() as u64);
    push_bytes(msg, label);
    push_be_u64(msg, value.len() as u64);
    push_bytes(msg, value);
    assert(msg@ =~= old(msg)@ + field_bytes(label@, value@));
}

/// Appends a field whose label and value are text, both as UTF-8.
pub fn push_text_field(msg: &mut Vec<u8>, label: &str, value: &str)
    ensures
        final(msg)@ == old(msg)@ + field_bytes(vstd::utf8::encode_utf8(label@), vstd::utf8::encode_utf8(value@)),
{
    push_field(msg, label.as_bytes(), value.as_bytes());
}

pub open spec fn hex_digit(d: u8) -> char {
    if d < 10 {
        (('0' as u32) + (d as u32)) as char
    } else {
        (('a' as u32) + (d as u32) - 10) as char
    }
}

/// Lowercase hexadecimal, two characters per byte, high nibble first.
pub open spec fn hex_lower(bytes: Seq<u8>) -> Seq<char>
    decreases bytes.len(),
{
    if bytes.len() == 0 {
        seq![]
    } else {
        hex_lower(bytes.drop_last()) + seq![
            hex_digit(bytes.last() / 16),
            hex_digit(bytes.last() % 16),
        ]
    }
}

/// Every character of the hexadecimal text is a digit or a lowercase letter `a`..`f`.
pub proof fn lemma_hex_lower_digits(bytes: Seq<u8>)
    ensures
        forall|i: int| 0 <= i < hex_lower(bytes).len() ==> {
            let c = #[trigger] hex_lower(bytes)[i];
            ('0' <= c && c <= '9') || ('a' <= c && c <= 'f')
        },
    decreases bytes.len(),
{
    if bytes.len() > 0 {
        lemma_hex_lower_digits(bytes.drop_last());
        let h = hex_lower(bytes);
        let p = hex_lower(bytes.drop_last());
        assert forall|i: int| 0 <= i < h.len() implies {
            let c = #[trigger] h[i];
            ('0' <= c && c <= '9') || ('a' <= c && c <= 'f')
        } by {
            if i < p.len() {
                assert(h[i] == p[i]);
            } else {
                let d: u8 = if i == p.len() { bytes.last() / 16 } else { bytes.last() % 16 };
                assert(d < 16);
                assert(h[i] == hex_digit(d));
            }
        }
    }
}

fn hex_char(d: u8) -> (c: char)
    requires
        d < 16,
    ensures
        c == hex_digit(d),
{
    if d < 10 {
        (48u8 + d) as char
    } else {
        (87u8 + d) as char
    }
}

/// Lowercase hexadecimal text of a byte sequence.
pub fn hex_chars(bytes: &[u8]) -> (r: Vec<char>)
    ensures
        r@ == hex_lower(bytes@),
        r@.len() == 2 * bytes@.len(),
{
    let mut r: Vec<char> = Vec::new();
    let mut i: usize = 0;
    while i < bytes.len()
        invariant
            i <= bytes@.len(),
            r@ == hex_lower(bytes@.take(i as int)),
            r@.len() == 2 * i,
        decreases bytes@.len() - i,
    {
        let b = bytes[i];
        r.push(hex_char(b / 16));
        r.push(hex_char(b % 16));
        assert(bytes@.take(i + 1).drop_last() =~= bytes@.take(i as int));
        i = i + 1;
    }
    assert(bytes@.take(bytes@.len() as int) =~= bytes@);
    r
}

/// The lowercase hexadecimal SHA-256 digest of a message.
pub open spec fn sha256_hex(msg: Seq<u8>) -> Seq<char> {
    hex_lower(sha256_of(msg))
}

/// Every character is a digit or a lowercase letter `a`..`f`.
pub open spec fn lower_hex(s: Seq<char>) -> bool {
    forall|i: int| 0 <= i < s.len() ==> ('0' <= #[trigger] s[i] && s[i] <= '9') || ('a' <= s[i] && s[i] <= 'f')
}

/// The text is the prefix followed by 64 lowercase hexadecimal digits.
pub open spec fn prefixed_digest_text(prefix: Seq<char>, text: Seq<char>) -> bool {
    &&& text.len() == prefix.len() + 64
    &&& text.take(prefix.len() as int) == prefix
    &&& lower_hex(text.skip(prefix.len() as int))
}

/// Digests a message and renders the digest in lowercase hexadecimal.
pub fn digest_hex(msg: &[u8]) -> (r: Vec<char>)
    ensures
        r@ == sha256_hex(msg@),
        r@.len() == 64,
        lower_hex(r@),
{
    let d = sha256(msg);
    let r = hex_chars(d.as_slice());
    proof {
        lemma_hex_lower_digits(d@);
    }
    r
}

} // verus!
