//! The on-disk slot format.
//!
//! A row occupies one 291-byte slot: bytes 0..4 hold the id as a
//! little-endian unsigned 32-bit integer, bytes 4..36 the username and bytes
//! 36..291 the email, each zero-padded to its fixed width. Decoding reads a
//! text field back as the bytes up to its first zero.

use vstd::prelude::*;

use crate::row::RowAbs;
use crate::row::SimpleRow;
use crate::EMAIL_SIZE;
use crate::ROW_SIZE;
use crate::USERNAME_SIZE;

verus! {

/// The four little-endian bytes of an unsigned 32-bit integer.
pub open spec fn u32_le_bytes(x: u32) -> Seq<u8> {
    seq![
        (x % 256) as u8,
        ((x / 256) % 256) as u8,
        ((x / 65536) % 256) as u8,
        ((x / 16777216) % 256) as u8,
    ]
}

/// The unsigned 32-bit integer held by four little-endian bytes.
pub open spec fn u32_from_le(b: Seq<u8>) -> u32
    recommends
        b.len() == 4,
{
    (b[0] + b[1] * 256 + b[2] * 65536 + b[3] * 16777216) as u32
}

/// Decoding the four little-endian bytes of an integer gives it back.
pub proof fn lemma_u32_le_round_trip(x: u32)
    ensures
        u32_from_le(u32_le_bytes(x)) == x,
{
    let b = u32_le_bytes(x);
    assert(b[0] + b[1] * 256 + b[2] * 65536 + b[3] * 16777216 == x) by {
        assert(x % 256 + ((x / 256) % 256) * 256 + ((x / 65536) % 256) * 65536 + ((x
            / 16777216) % 256) * 16777216 == x) by (bit_vector);
    }
}

/// The text bytes plus enough zeros to fill a width-`n` field.
pub open spec fn zero_pad(s: Seq<u8>, n: nat) -> Seq<u8>
    recommends
        s.len() <= n,
{
    s + Seq::new((n - s.len()) as nat, |i: int| 0u8)
}

/// The prefix of a field's bytes up to (not including) its first zero.
pub open spec fn trim_zeros(s: Seq<u8>) -> Seq<u8>
    decreases s.len(),
{
    if s.len() == 0 {
        Seq::empty()
    } else if s[0] == 0u8 {
        Seq::empty()
    } else {
        seq![s[0]] + trim_zeros(s.skip(1))
    }
}

/// Trimming a zero-padded field gives the text back, as long as the text
/// itself holds no zero byte.
pub proof fn lemma_trim_zero_pad(s: Seq<u8>, n: nat)
    requires
        s.len() <= n,
        forall|i: int| 0 <= i < s.len() ==> s[i] != 0u8,
    ensures
        trim_zeros(zero_pad(s, n)) == s,
    decreases s.len(),
{
    let p = zero_pad(s, n);
    if s.len() == 0 {
        if p.len() == 0 {
            assert(trim_zeros(p) =~= s);
        } else {
            assert(p[0] == 0u8);
            assert(trim_zeros(p) =~= s);
        }
    } else {
        assert(p[0] == s[0]);
        assert(p[0] != 0u8);
        let s1 = s.skip(1);
        lemma_trim_zero_pad(s1, (n - 1) as nat);
        assert(p.skip(1) =~= zero_pad(s1, (n - 1) as nat));
        assert(trim_zeros(p) == seq![p[0]] + trim_zeros(p.skip(1)));
        assert(seq![s[0]] + s1 =~= s);
    }
}

/// The 291 bytes of the slot that holds a row.
pub open spec fn encode_row(r: RowAbs) -> Seq<u8>
    recommends
        r.wf(),
{
    u32_le_bytes(r.id) + zero_pad(r.username, USERNAME_SIZE as nat) + zero_pad(
        r.email,
        EMAIL_SIZE as nat,
    )
}

/// The row held by one 291-byte slot.
pub open spec fn decode_slot(slot: Seq<u8>) -> RowAbs
    recommends
        slot.len() == ROW_SIZE,
{
    RowAbs {
        id: u32_from_le(slot.subrange(0, 4)),
        username: trim_zeros(slot.subrange(4, 36)),
        email: trim_zeros(slot.subrange(36, 291)),
    }
}

/// A well-formed row fills exactly one slot.
pub proof fn lemma_encode_len(r: RowAbs)
    requires
        r.wf(),
    ensures
        encode_row(r).len() == ROW_SIZE,
{
}

/// Decoding an encoded row gives the row back, as long as neither text
/// field holds a zero byte. (A zero byte would be read as that field's
/// padding.)
pub proof fn lemma_row_round_trip(r: RowAbs)
    requires
        r.wf(),
        forall|i: int| 0 <= i < r.username.len() ==> r.username[i] != 0u8,
        forall|i: int| 0 <= i < r.email.len() ==> r.email[i] != 0u8,
    ensures
        decode_slot(encode_row(r)) == r,
{
    let e = encode_row(r);
    assert(e.subrange(0, 4) =~= u32_le_bytes(r.id));
    assert(e.subrange(4, 36) =~= zero_pad(r.username, USERNAME_SIZE as nat));
    assert(e.subrange(36, 291) =~= zero_pad(r.email, EMAIL_SIZE as nat));
    lemma_u32_le_round_trip(r.id);
    lemma_trim_zero_pad(r.username, USERNAME_SIZE as nat);
    lemma_trim_zero_pad(r.email, EMAIL_SIZE as nat);
    assert(decode_slot(e) =~= r);
}

/// The four little-endian bytes of an id, least significant first.
pub fn id_to_le_bytes(x: u32) -> (r: Vec<u8>)
    ensures
        r@ == u32_le_bytes(x),
{
    let mut out: Vec<u8> = Vec::new();
    out.push((x % 256) as u8);
    out.push(((x / 256) % 256) as u8);
    out.push(((x / 65536) % 256) as u8);
    out.push(((x / 16777216) % 256) as u8);
    assert(out@ =~= u32_le_bytes(x));
    out
}

/// The id held by the four bytes at `offset` in `bytes`.
pub fn id_from_le_bytes(bytes: &Vec<u8>, offset: usize) -> (r: u32)
    requires
        offset + 4 <= bytes.len(),
    ensures
        r == u32_from_le(bytes@.subrange(offset as int, offset + 4)),
{
    let b0 = bytes[offset] as u32;
    let b1 = bytes[offset + 1] as u32;
    let b2 = bytes[offset + 2] as u32;
    let b3 = bytes[offset + 3] as u32;
    let ghost s = bytes@.subrange(offset as int, offset + 4);
    assert(s[0] == bytes@[offset as int] && s[1] == bytes@[offset + 1] && s[2] == bytes@[offset
        + 2] && s[3] == bytes@[offset + 3]);
    assert(b0 + b1 * 256 + b2 * 65536 + b3 * 16777216 <= 0xffffffff) by {
        assert(b0 < 256 && b1 < 256 && b2 < 256 && b3 < 256);
    }
    b0 + b1 * 256 + b2 * 65536 + b3 * 16777216
}

/// The 291 slot bytes of a row: id, then the two padded text buffers.
pub fn serialize_row(row: &SimpleRow) -> (r: Vec<u8>)
    requires
        row.wf(),
    ensures
        r@.len() == ROW_SIZE,
        r@ == encode_row(row@),
{
    let mut out = id_to_le_bytes(row.get_id());
    let mut i: usize = 0;
    while i < USERNAME_SIZE
        invariant
            row.wf(),
            i <= USERNAME_SIZE,
            out@ == u32_le_bytes(row@.id) + row.username@.subrange(0, i as int),
        decreases USERNAME_SIZE - i,
    {
        let b = row.username[i];
        out.push(b);
        assert(out@ =~= u32_le_bytes(row@.id) + row.username@.subrange(0, i + 1 as int));
        i = i + 1;
    }
    assert(row.username@.subrange(0, USERNAME_SIZE as int) =~= row.username@);
    let mut k: usize = 0;
    while k < EMAIL_SIZE
        invariant
            row.wf(),
            k <= EMAIL_SIZE,
            out@ == u32_le_bytes(row@.id) + row.username@ + row.email@.subrange(0, k as int),
        decreases EMAIL_SIZE - k,
    {
        let b = row.email[k];
        out.push(b);
        assert(out@ =~= u32_le_bytes(row@.id) + row.username@ + row.email@.subrange(
            0,
            k + 1 as int,
        ));
        k = k + 1;
    }
    assert(row.email@.subrange(0, EMAIL_SIZE as int) =~= row.email@);
    proof {
        lemma_buffer_is_padded_view(row);
    }
    assert(out@ =~= encode_row(row@));
    out
}

/// A well-formed row's buffers are exactly its text views, zero-padded.
proof fn lemma_buffer_is_padded_view(row: &SimpleRow)
    requires
        row.wf(),
    ensures
        row.username@ == zero_pad(row@.username, USERNAME_SIZE as nat),
        row.email@ == zero_pad(row@.email, EMAIL_SIZE as nat),
{
    assert(row.username@ =~= zero_pad(row@.username, USERNAME_SIZE as nat));
    assert(row.email@ =~= zero_pad(row@.email, EMAIL_SIZE as nat));
}

/// The row stored in the slot that begins at `offset`: the id at
/// `offset`..`offset + 4`, then the two text fields trimmed at their first
/// zero byte.
pub fn deserialize_slot(bytes: &Vec<u8>, offset: usize) -> (r: SimpleRow)
    requires
        offset + ROW_SIZE <= bytes.len(),
    ensures
        r.wf(),
        r@ == decode_slot(bytes@.subrange(offset as int, offset + ROW_SIZE)),
{
    let ghost slot = bytes@.subrange(offset as int, offset + ROW_SIZE);
    let id = id_from_le_bytes(bytes, offset);
    assert(bytes@.subrange(offset as int, offset + 4) =~= slot.subrange(0, 4));
    let username = trimmed_field(bytes, offset + 4, USERNAME_SIZE);
    assert(bytes@.subrange(offset + 4, offset + 4 + USERNAME_SIZE) =~= slot.subrange(4, 36));
    let email = trimmed_field(bytes, offset + 36, EMAIL_SIZE);
    assert(bytes@.subrange(offset + 36, offset + 36 + EMAIL_SIZE) =~= slot.subrange(36, 291));
    let mut row = SimpleRow::new();
    row.set_id(id);
    // a trimmed field always fits its width, so neither setter can fail
    row.set_username(&username);
    row.set_email(&email);
    assert(row@ =~= decode_slot(slot));
    row
}

/// The bytes of the width-`width` field at `offset`, up to (not including)
/// the field's first zero byte.
fn trimmed_field(bytes: &Vec<u8>, offset: usize, width: usize) -> (r: Vec<u8>)
    requires
        offset + width <= bytes.len(),
    ensures
        r@ == trim_zeros(bytes@.subrange(offset as int, offset + width)),
        r@.len() <= width,
{
    let ghost field = bytes@.subrange(offset as int, offset + width);
    let mut out: Vec<u8> = Vec::new();
    let mut i: usize = 0;
    while i < width
        invariant
            offset + width <= bytes.len(),
            field == bytes@.subrange(offset as int, offset + width),
            i <= width,
            out@ == field.subrange(0, i as int),
            forall|j: int| 0 <= j < i ==> field[j] != 0u8,
        decreases width - i,
    {
        let b = bytes[offset + i];
        assert(b == field[i as int]);
        if b == 0 {
            proof {
                lemma_trim_stops_at_zero(field, i as int);
            }
            return out;
        }
        out.push(b);
        assert(out@ =~= field.subrange(0, i + 1 as int));
        i = i + 1;
    }
    assert(out@ =~= field);
    proof {
        lemma_trim_all_nonzero(field);
    }
    out
}

/// When byte `i` is a field's first zero, trimming yields the bytes before it.
proof fn lemma_trim_stops_at_zero(s: Seq<u8>, i: int)
    requires
        0 <= i < s.len(),
        s[i] == 0u8,
        forall|j: int| 0 <= j < i ==> s[j] != 0u8,
    ensures
        trim_zeros(s) == s.subrange(0, i),
    decreases i,
{
    if i == 0 {
        assert(trim_zeros(s) =~= s.subrange(0, 0));
    } else {
        let s1 = s.skip(1);
        lemma_trim_stops_at_zero(s1, i - 1);
        assert(trim_zeros(s) == seq![s[0]] + trim_zeros(s1));
        assert(seq![s[0]] + s1.subrange(0, i - 1) =~= s.subrange(0, i));
    }
}

/// A field with no zero byte trims to itself.
proof fn lemma_trim_all_nonzero(s: Seq<u8>)
    requires
        forall|j: int| 0 <= j < s.len() ==> s[j] != 0u8,
    ensures
        trim_zeros(s) == s,
    decreases s.len(),
{
    if s.len() == 0 {
        assert(trim_zeros(s) =~= s);
    } else {
        let s1 = s.skip(1);
        lemma_trim_all_nonzero(s1);
        assert(seq![s[0]] + s1 =~= s);
    }
}

} // verus!
