//! Deterministic identities: the hyphenated text of a UUID, and the name-based UUID that
//! identifies an attachment by its owner and content hash across every replica.

use vstd::prelude::*;
use vstd::arithmetic::div_mod::lemma_div_denominator;
use vstd::arithmetic::power::{lemma_pow_positive, pow};
use crate::model::{owner_kind, owner_uuid, AttachmentOwner, ObjectKind};

verus! {

/// What `uuid::Uuid::new_v5(namespace, name)` returns, as a 128-bit value: the SHA-1
/// name-based UUID of `name` in `namespace`.
pub uninterp spec fn uuid_v5(namespace: u128, name: Seq<u8>) -> u128;

/// The value of a hexadecimal digit of either case.
pub open spec fn hex_value(c: char) -> Option<int> {
    if '0' <= c <= '9' {
        Some(c as int - 48)
    } else if 'a' <= c <= 'f' {
        Some(c as int - 87)
    } else if 'A' <= c <= 'F' {
        Some(c as int - 55)
    } else {
        None
    }
}

/// The value of hexadecimal digits, most significant first, if every one is a digit.
pub open spec fn hex_number(s: Seq<char>) -> Option<int>
    decreases s.len(),
{
    if s.len() == 0 {
        Some(0)
    } else {
        match (hex_number(s.drop_last()), hex_value(s.last())) {
            (Some(high), Some(low)) => Some(high * 16 + low),
            _ => None,
        }
    }
}

/// The 32 digits of the hyphenated form `8-4-4-4-12`.
pub open spec fn hyphenated_digits(s: Seq<char>) -> Option<Seq<char>> {
    if s.len() == 36 && s[8] == '-' && s[13] == '-' && s[18] == '-' && s[23] == '-' {
        Some(s.subrange(0, 8) + s.subrange(9, 13) + s.subrange(14, 18) + s.subrange(19, 23)
            + s.subrange(24, 36))
    } else {
        None
    }
}

pub open spec fn ascii_lower(c: char) -> char {
    if 'A' <= c <= 'Z' {
        ((c as u32) + 32) as char
    } else {
        c
    }
}

/// `urn:uuid:` in either case.
pub open spec fn urn_prefix(s: Seq<char>) -> bool {
    s.len() == 9 && forall|i: int| 0 <= i < 9 ==> ascii_lower(#[trigger] s[i]) == seq!['u', 'r', 'n', ':', 'u', 'u', 'i', 'd', ':'][i]
}

/// The digits of a UUID's text in the forms `uuid::Uuid::parse_str` accepts: 32 digits,
/// the hyphenated form, the hyphenated form in braces, or after a `urn:uuid:` prefix.
pub open spec fn uuid_digits(t: Seq<char>) -> Option<Seq<char>> {
    if t.len() == 32 {
        Some(t)
    } else if t.len() == 36 {
        hyphenated_digits(t)
    } else if t.len() == 38 && t[0] == '{' && t[37] == '}' {
        hyphenated_digits(t.subrange(1, 37))
    } else if t.len() == 45 && urn_prefix(t.subrange(0, 9)) {
        hyphenated_digits(t.subrange(9, 45))
    } else {
        None
    }
}

/// The UUID a text spells, as a 128-bit value, if it spells one.
pub open spec fn parsed_uuid(text: Seq<char>) -> Option<u128> {
    match uuid_digits(text) {
        Some(d) => match hex_number(d) {
            Some(v) => Some(v as u128),
            None => None,
        },
        None => None,
    }
}

/// Calls `uuid::Uuid::new_v5`. Its source hashes the namespace bytes and the name with
/// SHA-1, then sets the version nibble to 5 and the RFC 4122 variant bits; the contract
/// names the result and states those bits, and nothing of the hash.
#[verifier::external_body]
fn new_v5(namespace: u128, name: &[u8]) -> (r: u128)
    ensures
        r == uuid_v5(namespace, name@),
        (r >> 76u128) & 0xfu128 == 5,
        (r >> 62u128) & 0x3u128 == 2,
{
    uuid::Uuid::new_v5(&uuid::Uuid::from_u128(namespace), name).as_u128()
}

/// Calls `uuid::Uuid::parse_str`. Its source accepts exactly the four forms of
/// `uuid_digits`, decodes the 32 digits pairwise into the UUID's bytes, most significant
/// first, and never panics; the contract says so over `parsed_uuid`.
#[verifier::external_body]
pub(crate) fn parse_uuid(text: &str) -> (r: Option<u128>)
    ensures
        r == parsed_uuid(text@),
{
    match uuid::Uuid::parse_str(text) {
        Ok(u) => Some(u.as_u128()),
        Err(_) => None,
    }
}

/// The ISO OID namespace of RFC 4122, `6ba7b812-9dad-11d1-80b4-00c04fd430c8`.
pub const NAMESPACE_OID: u128 = 0x6ba7b8129dad11d180b400c04fd430c8u128;

/// The last `n` bytes of `u`, most significant first.
pub open spec fn be_bytes(u: u128, n: nat) -> Seq<u8>
    decreases n,
{
    if n == 0 {
        Seq::empty()
    } else {
        be_bytes(u / 256, (n - 1) as nat).push((u % 256) as u8)
    }
}

/// The sixteen bytes of a UUID, in the order its text spells them.
pub open spec fn uuid_bytes(u: u128) -> Seq<u8> {
    be_bytes(u, 16)
}

/// A lowercase hexadecimal digit, as an ASCII byte.
pub open spec fn hex_digit(n: u8) -> u8 {
    if n < 10 {
        (48 + n) as u8
    } else {
        (87 + n) as u8
    }
}

/// Lowercase hexadecimal text of bytes, two digits each, as ASCII bytes.
pub open spec fn hex_bytes(s: Seq<u8>) -> Seq<u8>
    decreases s.len(),
{
    if s.len() == 0 {
        Seq::empty()
    } else {
        hex_bytes(s.drop_last()) + seq![hex_digit(s.last() >> 4), hex_digit(s.last() & 0xf)]
    }
}

/// The hyphenated lowercase text of a UUID (`8-4-4-4-12` hex digits), as ASCII bytes.
pub open spec fn uuid_text(u: u128) -> Seq<u8> {
    let b = uuid_bytes(u);
    hex_bytes(b.subrange(0, 4)) + seq![45u8] + hex_bytes(b.subrange(4, 6)) + seq![45u8]
        + hex_bytes(b.subrange(6, 8)) + seq![45u8] + hex_bytes(b.subrange(8, 10)) + seq![45u8]
        + hex_bytes(b.subrange(10, 16))
}

/// `notes-rs:attachment:`
pub open spec fn attachment_prefix() -> Seq<u8> {
    seq![110u8, 111, 116, 101, 115, 45, 114, 115, 58, 97, 116, 116, 97, 99, 104, 109, 101, 110, 116, 58]
}

/// The name an object kind is written as: `page` or `block`.
pub open spec fn kind_text(kind: ObjectKind) -> Seq<u8> {
    match kind {
        ObjectKind::Page => seq![112u8, 97, 103, 101],
        ObjectKind::Block => seq![98u8, 108, 111, 99, 107],
    }
}

/// `notes-rs:attachment:<kind>:<owner uuid>:<hash hex>`, the name an attachment's
/// identity is derived from.
pub open spec fn attachment_name(owner: AttachmentOwner, blob_hash: Seq<u8>) -> Seq<u8> {
    attachment_prefix() + kind_text(owner_kind(owner)) + seq![58u8] + uuid_text(owner_uuid(owner))
        + seq![58u8] + hex_bytes(blob_hash)
}

fn hex_digit_exec(n: u8) -> (r: u8)
    requires
        n < 16,
    ensures
        r == hex_digit(n),
{
    if n < 10 {
        48 + n
    } else {
        87 + n
    }
}

/// Appends the hex text of `bytes[lo..hi]`.
fn push_hex(out: &mut Vec<u8>, bytes: &[u8], lo: usize, hi: usize)
    requires
        lo <= hi <= bytes@.len(),
    ensures
        final(out)@ == old(out)@ + hex_bytes(bytes@.subrange(lo as int, hi as int)),
{
    let ghost start = out@;
    let mut i: usize = lo;
    assert(bytes@.subrange(lo as int, lo as int) =~= Seq::<u8>::empty());
    assert(start + hex_bytes(Seq::<u8>::empty()) =~= start);
    while i < hi
        invariant
            lo <= i <= hi <= bytes@.len(),
            out@ == start + hex_bytes(bytes@.subrange(lo as int, i as int)),
        decreases hi - i,
    {
        let b = bytes[i];
        assert(b >> 4 < 16 && b & 0xf < 16) by (bit_vector);
        out.push(hex_digit_exec(b >> 4));
        out.push(hex_digit_exec(b & 0xf));
        assert(bytes@.subrange(lo as int, i + 1).drop_last() =~= bytes@.subrange(lo as int, i as int));
        assert(bytes@.subrange(lo as int, i + 1).last() == b);
        assert(out@ =~= start + hex_bytes(bytes@.subrange(lo as int, i + 1)));
        i = i + 1;
    }
}

/// The last `n` bytes of `u`, most significant first.
fn be_bytes_exec(u: u128, n: usize) -> (r: Vec<u8>)
    ensures
        r@ == be_bytes(u, n as nat),
    decreases n,
{
    if n == 0 {
        Vec::new()
    } else {
        assert((u >> 8u128) == u / 256 && (u & 0xffu128) == u % 256) by (bit_vector);
        let mut v = be_bytes_exec(u >> 8, n - 1);
        v.push((u & 0xff) as u8);
        v
    }
}

proof fn lemma_be_bytes_len(u: u128, n: nat)
    ensures
        be_bytes(u, n).len() == n,
    decreases n,
{
    if n > 0 {
        lemma_be_bytes_len(u / 256, (n - 1) as nat);
    }
}

/// Appends the hyphenated text of a UUID.
fn push_uuid_text(out: &mut Vec<u8>, u: u128)
    ensures
        final(out)@ == old(out)@ + uuid_text(u),
{
    let b = be_bytes_exec(u, 16);
    proof {
        lemma_be_bytes_len(u, 16);
    }
    let ghost start = out@;
    push_hex(out, b.as_slice(), 0, 4);
    out.push(45);
    push_hex(out, b.as_slice(), 4, 6);
    out.push(45);
    push_hex(out, b.as_slice(), 6, 8);
    out.push(45);
    push_hex(out, b.as_slice(), 8, 10);
    out.push(45);
    push_hex(out, b.as_slice(), 10, 16);
    assert(out@ =~= start + uuid_text(u));
}

fn push_all(out: &mut Vec<u8>, bytes: &[u8])
    ensures
        final(out)@ == old(out)@ + bytes@,
{
    let ghost start = out@;
    let mut i: usize = 0;
    while i < bytes.len()
        invariant
            i <= bytes@.len(),
            out@ == start + bytes@.take(i as int),
        decreases bytes@.len() - i,
    {
        out.push(bytes[i]);
        assert(bytes@.take(i + 1) =~= bytes@.take(i as int).push(bytes@[i as int]));
        i = i + 1;
    }
    assert(bytes@.take(bytes@.len() as int) =~= bytes@);
}

/// The identity of an attachment: the name-based UUID of its owner kind, owner UUID and
/// content hash, so every replica derives the same UUID for the same attachment.
pub fn attachment_uuid(owner: AttachmentOwner, blob_hash: &[u8; 32]) -> (r: u128)
    ensures
        r == uuid_v5(NAMESPACE_OID, attachment_name(owner, blob_hash@)),
        (r >> 76u128) & 0xfu128 == 5,
        (r >> 62u128) & 0x3u128 == 2,
{
    let mut name: Vec<u8> = Vec::new();
    let prefix: [u8; 20] = [
        110, 111, 116, 101, 115, 45, 114, 115, 58, 97, 116, 116, 97, 99, 104, 109, 101, 110, 116, 58,
    ];
    push_all(&mut name, &prefix);
    match owner.kind() {
        ObjectKind::Page => {
            let page: [u8; 4] = [112, 97, 103, 101];
            push_all(&mut name, &page);
        },
        ObjectKind::Block => {
            let block: [u8; 5] = [98, 108, 111, 99, 107];
            push_all(&mut name, &block);
        },
    }
    name.push(58);
    push_uuid_text(&mut name, owner.uuid());
    name.push(58);
    let hash: &[u8] = blob_hash;
    push_hex(&mut name, hash, 0, 32);
    proof {
        assert(hash@.subrange(0, 32) =~= blob_hash@);
        assert(prefix@ =~= attachment_prefix());
    }
    assert(name@ =~= attachment_name(owner, blob_hash@));
    new_v5(NAMESPACE_OID, name.as_slice())
}

/// The owner's kind is part of an attachment's name: a page and a block with the same UUID
/// and the same content never share an attachment name.
pub proof fn lemma_attachment_name_separates_kinds(uuid: u128, blob_hash: Seq<u8>)
    ensures
        attachment_name(AttachmentOwner::Page(uuid), blob_hash) != attachment_name(
            AttachmentOwner::Block(uuid),
            blob_hash,
        ),
{
    let p = attachment_name(AttachmentOwner::Page(uuid), blob_hash);
    let b = attachment_name(AttachmentOwner::Block(uuid), blob_hash);
    assert(p[attachment_prefix().len() as int] != b[attachment_prefix().len() as int]);
}

/// The last `n` bytes of `u` are its base-256 digits, most significant first: byte `i`
/// is `u / 256^(n - 1 - i) % 256`.
pub proof fn lemma_be_bytes_digits(u: u128, n: nat)
    ensures
        be_bytes(u, n).len() == n,
        forall|i: int|
            0 <= i < n ==> #[trigger] be_bytes(u, n)[i] as int == ((u as int) / pow(
                256,
                (n - 1 - i) as nat,
            )) % 256,
    decreases n,
{
    if n > 0 {
        let h = u / 256;
        lemma_be_bytes_digits(h, (n - 1) as nat);
        let s = be_bytes(u, n);
        assert forall|i: int| 0 <= i < n implies #[trigger] s[i] as int == ((u as int) / pow(
            256,
            (n - 1 - i) as nat,
        )) % 256 by {
            reveal(pow);
            if i == n - 1 {
                assert(pow(256, 0) == 1);
            } else {
                let k = (n - 2 - i) as nat;
                lemma_pow_positive(256, k);
                assert(pow(256, (n - 1 - i) as nat) == 256 * pow(256, k));
                lemma_div_denominator(u as int, 256, pow(256, k));
                assert(s[i] == be_bytes(h, (n - 1) as nat)[i]);
            }
        }
    }
}

/// The sixteen bytes of a UUID in the order its text spells them: byte `i` is
/// `u / 256^(15 - i) % 256`, the most significant first.
pub proof fn lemma_uuid_bytes_big_endian(u: u128)
    ensures
        uuid_bytes(u).len() == 16,
        forall|i: int|
            0 <= i < 16 ==> #[trigger] uuid_bytes(u)[i] as int == ((u as int) / pow(
                256,
                (15 - i) as nat,
            )) % 256,
{
    lemma_be_bytes_digits(u, 16);
}

/// Bytes as hexadecimal text: two digits each, the high nibble first.
pub proof fn lemma_hex_bytes_digits(s: Seq<u8>)
    ensures
        hex_bytes(s).len() == 2 * s.len(),
        forall|j: int|
            0 <= j < s.len() ==> hex_bytes(s)[2 * j] == hex_digit(#[trigger] s[j] / 16)
                && hex_bytes(s)[2 * j + 1] == hex_digit(s[j] % 16),
    decreases s.len(),
{
    if s.len() > 0 {
        let init = s.drop_last();
        lemma_hex_bytes_digits(init);
        let b = s.last();
        assert(b >> 4 == b / 16 && b & 0xf == b % 16) by (bit_vector);
        let h = hex_bytes(s);
        assert forall|j: int| 0 <= j < s.len() implies h[2 * j] == hex_digit(#[trigger] s[j] / 16)
            && h[2 * j + 1] == hex_digit(s[j] % 16) by {
            if j < s.len() - 1 {
                assert(s[j] == init[j]);
            }
        }
    }
}

/// A hexadecimal digit is `0`-`9` for values below ten and `a`-`f` above, as ASCII.
pub proof fn lemma_hex_digit(n: u8)
    requires
        n < 16,
    ensures
        n < 10 ==> hex_digit(n) == 48 + n,
        n >= 10 ==> hex_digit(n) == 97 + (n - 10),
{
}

/// Where the high digit of byte `k` stands in a UUID's hyphenated text.
pub open spec fn text_position(k: int) -> int {
    2 * k + (if k >= 4 { 1int } else { 0 }) + (if k >= 6 { 1int } else { 0 }) + (if k >= 8 {
        1int
    } else {
        0
    }) + (if k >= 10 { 1int } else { 0 })
}

proof fn lemma_text_group(t: Seq<u8>, b: Seq<u8>, lo: int, hi: int, at: int)
    requires
        0 <= lo <= hi <= b.len(),
        0 <= at,
        at + 2 * (hi - lo) <= t.len(),
        t.subrange(at, at + 2 * (hi - lo)) == hex_bytes(b.subrange(lo, hi)),
    ensures
        forall|k: int|
            lo <= k < hi ==> t[at + 2 * (k - lo)] == hex_digit(#[trigger] b[k] / 16) && t[at + 2 * (k
                - lo) + 1] == hex_digit(b[k] % 16),
{
    let g = b.subrange(lo, hi);
    lemma_hex_bytes_digits(g);
    assert forall|k: int| lo <= k < hi implies t[at + 2 * (k - lo)] == hex_digit(#[trigger] b[k]
        / 16) && t[at + 2 * (k - lo) + 1] == hex_digit(b[k] % 16) by {
        assert(g[k - lo] == b[k]);
        assert(t[at + 2 * (k - lo)] == t.subrange(at, at + 2 * (hi - lo))[2 * (k - lo)]);
        assert(t[at + 2 * (k - lo) + 1] == t.subrange(at, at + 2 * (hi - lo))[2 * (k - lo) + 1]);
    }
}

/// A UUID's text is its standard hyphenated form: 36 ASCII characters, hyphens after the
/// 8th, 12th, 16th and 20th digit, and each byte as two lowercase hexadecimal digits, the
/// most significant byte first.
pub proof fn lemma_uuid_text_hyphenated(u: u128)
    ensures
        uuid_text(u).len() == 36,
        uuid_text(u)[8] == 45 && uuid_text(u)[13] == 45 && uuid_text(u)[18] == 45 && uuid_text(u)[23]
            == 45,
        forall|k: int|
            0 <= k < 16 ==> uuid_text(u)[text_position(k)] == hex_digit(#[trigger] uuid_bytes(u)[k]
                / 16) && uuid_text(u)[text_position(k) + 1] == hex_digit(uuid_bytes(u)[k] % 16),
{
    let b = uuid_bytes(u);
    lemma_be_bytes_digits(u, 16);
    let h0 = hex_bytes(b.subrange(0, 4));
    let h1 = hex_bytes(b.subrange(4, 6));
    let h2 = hex_bytes(b.subrange(6, 8));
    let h3 = hex_bytes(b.subrange(8, 10));
    let h4 = hex_bytes(b.subrange(10, 16));
    lemma_hex_bytes_digits(b.subrange(0, 4));
    lemma_hex_bytes_digits(b.subrange(4, 6));
    lemma_hex_bytes_digits(b.subrange(6, 8));
    lemma_hex_bytes_digits(b.subrange(8, 10));
    lemma_hex_bytes_digits(b.subrange(10, 16));
    let t = uuid_text(u);
    assert(t =~= h0 + seq![45u8] + h1 + seq![45u8] + h2 + seq![45u8] + h3 + seq![45u8] + h4);
    assert(t.len() == 36);
    assert(t.subrange(0, 8) =~= h0);
    assert(t.subrange(9, 13) =~= h1);
    assert(t.subrange(14, 18) =~= h2);
    assert(t.subrange(19, 23) =~= h3);
    assert(t.subrange(24, 36) =~= h4);
    lemma_text_group(t, b, 0, 4, 0);
    lemma_text_group(t, b, 4, 6, 9);
    lemma_text_group(t, b, 6, 8, 14);
    lemma_text_group(t, b, 8, 10, 19);
    lemma_text_group(t, b, 10, 16, 24);
    assert forall|k: int| 0 <= k < 16 implies t[text_position(k)] == hex_digit(#[trigger] b[k] / 16)
        && t[text_position(k) + 1] == hex_digit(b[k] % 16) by {
        if k < 4 {
            assert(text_position(k) == 0 + 2 * (k - 0));
        } else if k < 6 {
            assert(text_position(k) == 9 + 2 * (k - 4));
        } else if k < 8 {
            assert(text_position(k) == 14 + 2 * (k - 6));
        } else if k < 10 {
            assert(text_position(k) == 19 + 2 * (k - 8));
        } else {
            assert(text_position(k) == 24 + 2 * (k - 10));
        }
    }
}

} // verus!