//! Stateless encoding and decoding of the values that travel in frames.

use vstd::prelude::*;
use vstd::slice::slice_subrange;
use vstd::string::StringSliceAdditionalSpecFns;
use vstd::utf8::encode_utf8;

verus! {

/// Why a value could not be decoded from a buffer.
#[derive(Debug, Clone, Copy, PartialEq, Eq, Structural)]
pub enum WireError {
    /// The buffer ended before the value did.
    Truncated,
    /// A variable-length integer ran past its fifth byte.
    Overflow,
}

/// The longest variable-length integer, in bytes.
pub const MAX_VAR_UINT_LEN: usize = 5;

/// Whether every byte of `id` is zero.
pub open spec fn is_nil(id: Seq<u8>) -> bool {
    forall|i: int| 0 <= i < id.len() ==> id[i] == 0
}

/// Whether `uuid` is the all-zero identity, which stands for "no identity".
pub fn is_nil_uuid(uuid: &[u8]) -> (nil: bool)
    ensures
        nil == is_nil(uuid@),
{
    let mut i: usize = 0;
    while i < uuid.len()
        invariant
            i <= uuid@.len(),
            forall|j: int| 0 <= j < i ==> uuid@[j] == 0,
        decreases uuid@.len() - i,
    {
        if uuid[i] != 0 {
            return false;
        }
        i += 1;
    }
    true
}

/// The weight of the `i`-th byte of a variable-length integer: 128 to the `i`.
pub open spec fn var_uint_weight(i: nat) -> nat
    decreases i,
{
    if i == 0 {
        1
    } else {
        128 * var_uint_weight((i - 1) as nat)
    }
}

/// Decoding of a variable-length integer whose first `i` bytes all carried
/// the continuation bit and contributed `acc`.
///
/// Each byte holds seven payload bits, least significant group first; the
/// high bit says that another byte follows. A value ends within five bytes.
/// The result is the value, reduced to 32 bits, and the number of bytes read.
pub open spec fn var_uint_from(s: Seq<u8>, i: nat, acc: nat) -> Result<(u32, nat), WireError>
    decreases MAX_VAR_UINT_LEN - i,
{
    if i >= MAX_VAR_UINT_LEN {
        if s.len() > i {
            Err(WireError::Overflow)
        } else {
            Err(WireError::Truncated)
        }
    } else if s.len() <= i {
        Err(WireError::Truncated)
    } else {
        let sum = acc + ((s[i as int] % 128) * var_uint_weight(i)) as nat;
        if s[i as int] < 128 {
            Ok(((sum % 0x1_0000_0000) as u32, i + 1))
        } else {
            var_uint_from(s, i + 1, sum)
        }
    }
}

/// The variable-length integer at the front of `s`.
pub open spec fn var_uint(s: Seq<u8>) -> Result<(u32, nat), WireError> {
    var_uint_from(s, 0, 0)
}

/// The bytes that encode `n` as a variable-length integer.
pub open spec fn var_uint_encoding(n: nat) -> Seq<u8>
    decreases n,
{
    if n < 128 {
        seq![n as u8]
    } else {
        seq![(n % 128 + 128) as u8] + var_uint_encoding(n / 128)
    }
}

proof fn lemma_weights()
    ensures
        var_uint_weight(0) == 1,
        var_uint_weight(1) == 0x80,
        var_uint_weight(2) == 0x4000,
        var_uint_weight(3) == 0x20_0000,
        var_uint_weight(4) == 0x1000_0000,
        var_uint_weight(5) == 0x8_0000_0000,
{
    reveal_with_fuel(var_uint_weight, 6);
}

proof fn lemma_merge_group(acc: u32, byte: u8, shift: u32)
    requires
        shift == 0 || shift == 7 || shift == 14 || shift == 21 || shift == 28,
        acc < var_uint_weight((shift / 7) as nat),
    ensures
        (acc | (((byte & 0x7f) as u32) << shift)) as int == (acc + (byte % 128) * var_uint_weight(
            (shift / 7) as nat,
        )) % 0x1_0000_0000,
        shift < 28 ==> acc + (byte % 128) * var_uint_weight((shift / 7) as nat) < var_uint_weight(
            (shift / 7 + 1) as nat,
        ),
{
    lemma_weights();
    let low: u32 = (byte % 128) as u32;
    let merged: u32 = acc | (((byte & 0x7f) as u32) << shift);
    assert(low < 128);
    if shift == 0 {
        assert(var_uint_weight((shift / 7) as nat) == 1);
        assert(acc < 1 ==> (acc | (((byte & 0x7f) as u32) << 0u32)) == (byte % 128) as u32)
            by (bit_vector);
        assert(merged == low);
    } else if shift == 7 {
        assert(var_uint_weight((shift / 7) as nat) == 0x80);
        assert(var_uint_weight((shift / 7 + 1) as nat) == 0x4000);
        assert(acc < 0x80 ==> (acc | (((byte & 0x7f) as u32) << 7u32)) == acc + (byte % 128) as u32
            * 0x80) by (bit_vector);
        assert(merged == acc + low * 0x80);
    } else if shift == 14 {
        assert(var_uint_weight((shift / 7) as nat) == 0x4000);
        assert(var_uint_weight((shift / 7 + 1) as nat) == 0x20_0000);
        assert(acc < 0x4000 ==> (acc | (((byte & 0x7f) as u32) << 14u32)) == acc + (byte
            % 128) as u32 * 0x4000) by (bit_vector);
        assert(merged == acc + low * 0x4000);
    } else if shift == 21 {
        assert(var_uint_weight((shift / 7) as nat) == 0x20_0000);
        assert(var_uint_weight((shift / 7 + 1) as nat) == 0x1000_0000);
        assert(acc < 0x20_0000 ==> (acc | (((byte & 0x7f) as u32) << 21u32)) == acc + (byte
            % 128) as u32 * 0x20_0000) by (bit_vector);
        assert(merged == acc + low * 0x20_0000);
    } else {
        assert(var_uint_weight((shift / 7) as nat) == 0x1000_0000);
        assert(acc < 0x1000_0000 ==> (acc | (((byte & 0x7f) as u32) << 28u32)) as int == (acc
            + (byte % 128) * 0x1000_0000) % 0x1_0000_0000) by (bit_vector);
        assert(merged as int == (acc + low * 0x1000_0000) % 0x1_0000_0000);
    }
}

/// Reads the variable-length integer at the front of `buf`; returns it with
/// the bytes that follow it.
pub fn read_var_uint<'a>(buf: &'a [u8]) -> (r: Result<(u32, &'a [u8]), WireError>)
    ensures
        match r {
            Ok((value, rest)) => {
                &&& rest@.len() < buf@.len()
                &&& var_uint(buf@) == Ok::<(u32, nat), WireError>(
                    (value, (buf@.len() - rest@.len()) as nat),
                )
                &&& rest@ == buf@.skip(buf@.len() - rest@.len())
            },
            Err(e) => var_uint(buf@) == Err::<(u32, nat), WireError>(e),
        },
{
    let mut result: u32 = 0;
    let mut shift: u32 = 0;
    let mut i: usize = 0;
    let ghost mut acc: nat = 0;
    loop
        invariant
            i <= MAX_VAR_UINT_LEN,
            i <= buf@.len(),
            shift == 7 * i,
            i < MAX_VAR_UINT_LEN ==> result == acc && acc < var_uint_weight(i as nat),
            var_uint(buf@) == var_uint_from(buf@, i as nat, acc),
        decreases MAX_VAR_UINT_LEN - i,
    {
        if i >= MAX_VAR_UINT_LEN {
            if i < buf.len() {
                return Err(WireError::Overflow);
            }
            return Err(WireError::Truncated);
        }
        if i >= buf.len() {
            return Err(WireError::Truncated);
        }
        let byte = buf[i];
        proof {
            lemma_weights();
            lemma_merge_group(result, byte, shift);
            acc = acc + ((byte % 128) * var_uint_weight(i as nat)) as nat;
        }
        result |= ((byte & 0x7F) as u32) << shift;
        i += 1;
        if (byte & 0x80) == 0 {
            assert(byte < 128) by (bit_vector)
                requires
                    (byte & 0x80) == 0,
            ;
            let rest = slice_subrange(buf, i, buf.len());
            return Ok((result, rest));
        }
        assert(byte >= 128) by (bit_vector)
            requires
                (byte & 0x80) != 0,
        ;
        shift += 7;
    }
}

proof fn lemma_round_trip_from(s: Seq<u8>, i: nat, acc: nat, m: nat)
    requires
        i < MAX_VAR_UINT_LEN,
        i + var_uint_encoding(m).len() <= s.len(),
        s.subrange(i as int, (i + var_uint_encoding(m).len()) as int) == var_uint_encoding(m),
        acc + m * var_uint_weight(i) < 0x1_0000_0000,
    ensures
        i + var_uint_encoding(m).len() <= MAX_VAR_UINT_LEN,
        var_uint_from(s, i, acc) == Ok::<(u32, nat), WireError>(
            ((acc + m * var_uint_weight(i)) as u32, i + var_uint_encoding(m).len()),
        ),
    decreases m,
{
    lemma_weights();
    let w = var_uint_weight(i);
    let enc = var_uint_encoding(m);
    assert(s[i as int] == s.subrange(i as int, (i + enc.len()) as int)[0]);
    if m < 128 {
        assert(enc =~= seq![m as u8]);
    } else {
        let next = m / 128;
        let tail = var_uint_encoding(next);
        assert(enc =~= seq![(m % 128 + 128) as u8] + tail);
        assert(s[i as int] % 128 == m % 128);
        assert(128 * w <= m * w) by (nonlinear_arith)
            requires
                m >= 128,
                w >= 0,
        ;
        assert(var_uint_weight(i + 1) == 128 * w);
        assert((m % 128) * w + next * (128 * w) == m * w) by (nonlinear_arith)
            requires
                next == m / 128,
        ;
        assert(s.subrange((i + 1) as int, (i + 1 + tail.len()) as int) =~= tail) by {
            assert forall|k: int| 0 <= k < tail.len() implies s[i + 1 + k] == tail[k] by {
                assert(s[i + 1 + k] == s.subrange(i as int, (i + enc.len()) as int)[k + 1]);
            }
        }
        lemma_round_trip_from(s, i + 1, acc + ((m % 128) * w) as nat, next);
    }
}

/// Decoding undoes encoding: a buffer that starts with the encoding of `n`
/// decodes to `n`, and the bytes read are exactly that encoding, whatever
/// follows it.
pub proof fn lemma_var_uint_round_trip(n: u32, rest: Seq<u8>)
    ensures
        1 <= var_uint_encoding(n as nat).len() <= MAX_VAR_UINT_LEN,
        var_uint(var_uint_encoding(n as nat) + rest) == Ok::<(u32, nat), WireError>(
            (n, var_uint_encoding(n as nat).len()),
        ),
{
    let enc = var_uint_encoding(n as nat);
    let s = enc + rest;
    assert(s.subrange(0, enc.len() as int) =~= enc);
    lemma_weights();
    lemma_round_trip_from(s, 0, 0, n as nat);
}

/// A buffer that ends before the terminating byte of a variable-length
/// integer, or that holds a sixth byte of one, does not decode.
pub proof fn lemma_var_uint_rejects(s: Seq<u8>)
    requires
        forall|i: int| 0 <= i < s.len() && i < MAX_VAR_UINT_LEN ==> s[i] >= 128,
    ensures
        s.len() <= MAX_VAR_UINT_LEN ==> var_uint(s) == Err::<(u32, nat), WireError>(
            WireError::Truncated,
        ),
        s.len() > MAX_VAR_UINT_LEN ==> var_uint(s) == Err::<(u32, nat), WireError>(
            WireError::Overflow,
        ),
{
    reveal_with_fuel(var_uint_from, 6);
}

/// Encodes `n` as a variable-length integer.
pub fn write_var_uint(n: u32) -> (bytes: Vec<u8>)
    ensures
        bytes@ == var_uint_encoding(n as nat),
{
    let mut bytes: Vec<u8> = Vec::new();
    let mut left: u32 = n;
    while left >= 128
        invariant
            var_uint_encoding(n as nat) == bytes@ + var_uint_encoding(left as nat),
        decreases left,
    {
        let ghost before = bytes@;
        bytes.push((left % 128 + 128) as u8);
        proof {
            assert(var_uint_encoding(left as nat) == seq![(left % 128 + 128) as u8]
                + var_uint_encoding((left / 128) as nat));
            assert(bytes@ + var_uint_encoding((left / 128) as nat) =~= before + var_uint_encoding(
                left as nat,
            ));
        }
        left = left / 128;
    }
    bytes.push(left as u8);
    assert(bytes@ =~= var_uint_encoding(n as nat));
    bytes
}

/// The bytes of the `k`-th identity of a list that starts at the front of `s`.
pub open spec fn identity_at(s: Seq<u8>, k: int) -> Seq<u8> {
    s.subrange(16 * k, 16 * k + 16)
}

/// The first `count` identities listed at the front of `s`, in order.
pub open spec fn listed_identities(s: Seq<u8>, count: nat) -> Seq<Seq<u8>> {
    Seq::new(count, |k: int| identity_at(s, k))
}

/// The listed identities that name someone: the all-zero identity stands for
/// "no identity" and is dropped.
pub open spec fn exclusions(s: Seq<u8>, count: nat) -> Seq<Seq<u8>> {
    listed_identities(s, count).filter(|id: Seq<u8>| !is_nil(id))
}

/// The byte sequences of a list of identities.
pub open spec fn identity_views(ids: Seq<[u8; 16]>) -> Seq<Seq<u8>> {
    ids.map_values(|id: [u8; 16]| id@)
}

/// Copies the sixteen bytes of `buf` that start at `at` into an identity.
pub fn read_identity(buf: &[u8], at: usize) -> (id: [u8; 16])
    requires
        at + 16 <= buf@.len(),
    ensures
        id@ == buf@.subrange(at as int, at + 16),
{
    let mut id = [0u8;16];
    let len = buf.len();
    let mut j: usize = 0;
    while j < 16
        invariant
            j <= 16,
            at + 16 <= buf@.len(),
            buf@.len() == len,
            forall|k: int| 0 <= k < j ==> id@[k] == buf@[at + k],
        decreases 16 - j,
    {
        id[j] = buf[at + j];
        j += 1;
    }
    assert(id@ =~= buf@.subrange(at as int, at + 16));
    id
}

/// Reads `count` identities from the front of `cursor`; returns those that
/// are not all-zero, in order, with the bytes that follow the list.
pub fn parse_excludes<'a>(cursor: &'a [u8], count: u32) -> (r: Result<
    (Vec<[u8; 16]>, &'a [u8]),
    WireError,
>)
    ensures
        match r {
            Ok((ids, rest)) => {
                &&& 16 * count <= cursor@.len()
                &&& identity_views(ids@) == exclusions(cursor@, count as nat)
                &&& rest@ == cursor@.skip(16 * count)
            },
            Err(e) => e == WireError::Truncated && cursor@.len() < 16 * count,
        },
{
    let needed: u64 = (count as u64) * 16;
    if (cursor.len() as u64) < needed {
        return Err(WireError::Truncated);
    }
    let mut excludes: Vec<[u8; 16]> = Vec::new();
    let mut k: usize = 0;
    let n: usize = count as usize;
    let ghost keep = |id: Seq<u8>| !is_nil(id);
    proof {
        assert(listed_identities(cursor@, 0).filter(keep) =~= Seq::<Seq<u8>>::empty()) by {
            reveal(Seq::filter);
        }
    }
    while k < n
        invariant
            k <= n,
            n == count,
            16 * n <= cursor@.len(),
            cursor@.len() <= usize::MAX,
            keep == |id: Seq<u8>| !is_nil(id),
            identity_views(excludes@) == listed_identities(cursor@, k as nat).filter(keep),
        decreases n - k,
    {
        let id = read_identity(cursor, 16 * k);
        let ghost before = excludes@;
        let ghost listed = listed_identities(cursor@, k as nat);
        proof {
            assert(listed_identities(cursor@, (k + 1) as nat) =~= listed.push(id@));
            listed.lemma_filter_push(id@, keep);
        }
        if !is_nil_uuid(&id) {
            excludes.push(id);
            assert(identity_views(excludes@) =~= identity_views(before).push(id@));
        }
        k += 1;
    }
    let rest = slice_subrange(cursor, 16 * n, cursor.len());
    Ok((excludes, rest))
}

/// Whether two byte strings are the same.
pub fn same_bytes(a: &[u8], b: &[u8]) -> (same: bool)
    ensures
        same == (a@ == b@),
{
    if a.len() != b.len() {
        return false;
    }
    let mut i: usize = 0;
    while i < a.len()
        invariant
            i <= a@.len(),
            a@.len() == b@.len(),
            forall|j: int| 0 <= j < i ==> a@[j] == b@[j],
        decreases a@.len() - i,
    {
        if a[i] != b[i] {
            return false;
        }
        i += 1;
    }
    assert(a@ =~= b@);
    true
}

/// Whether `uuid` is one of `list`.
pub fn is_listed(uuid: &[u8; 16], list: &Vec<[u8; 16]>) -> (found: bool)
    ensures
        found == identity_views(list@).contains(uuid@),
{
    let mut k: usize = 0;
    while k < list.len()
        invariant
            k <= list@.len(),
            forall|j: int| 0 <= j < k ==> identity_views(list@)[j] != uuid@,
        decreases list@.len() - k,
    {
        if same_bytes(uuid.as_slice(), list[k].as_slice()) {
            assert(identity_views(list@)[k as int] == uuid@);
            return true;
        }
        k += 1;
    }
    false
}

/// `String::push` appends one character to the string.
pub assume_specification[ String::push ](s: &mut String, c: char)
    ensures
        final(s)@ == old(s)@.push(c),
;

/// The digit for `n`, in lower case from ten on.
pub open spec fn digit(n: int) -> char {
    seq!['0', '1', '2', '3', '4', '5', '6', '7', '8', '9', 'a', 'b', 'c', 'd', 'e', 'f'][n]
}

fn digit_char(n: u8) -> (c: char)
    requires
        n < 16,
    ensures
        c == digit(n as int),
{
    match n {
        0 => '0',
        1 => '1',
        2 => '2',
        3 => '3',
        4 => '4',
        5 => '5',
        6 => '6',
        7 => '7',
        8 => '8',
        9 => '9',
        10 => 'a',
        11 => 'b',
        12 => 'c',
        13 => 'd',
        14 => 'e',
        _ => 'f',
    }
}

/// The number of hyphens that stand before position `j` of an identity's text.
pub open spec fn hyphens_before(j: int) -> int {
    if j > 23 {
        4
    } else if j > 18 {
        3
    } else if j > 13 {
        2
    } else if j > 8 {
        1
    } else {
        0
    }
}

/// The character at position `j` of the text of identity `id`: a hyphen at
/// positions 8, 13, 18 and 23, else the next hexadecimal digit of `id`, high
/// half of each byte first.
pub open spec fn uuid_char(id: Seq<u8>, j: int) -> char {
    if j == 8 || j == 13 || j == 18 || j == 23 {
        '-'
    } else {
        let k = j - hyphens_before(j);
        let byte = id[k / 2];
        digit(
            if k % 2 == 0 {
                byte as int / 16
            } else {
                byte as int % 16
            },
        )
    }
}

/// The canonical text of an identity: 36 characters, hexadecimal digits in
/// groups of 8, 4, 4, 4 and 12 with hyphens between them.
pub open spec fn uuid_text(id: Seq<u8>) -> Seq<char> {
    Seq::new(36, |j: int| uuid_char(id, j))
}

/// Writes an identity as its canonical hyphenated text.
pub fn format_uuid(bytes: &[u8; 16]) -> (text: String)
    ensures
        text@ == uuid_text(bytes@),
{
    let mut text = String::new();
    let mut i: usize = 0;
    while i < 16
        invariant
            i <= 16,
            text@.len() == 2 * i + (if i > 10 {
                4int
            } else if i > 8 {
                3
            } else if i > 6 {
                2
            } else if i > 4 {
                1
            } else {
                0
            }),
            forall|j: int| 0 <= j < text@.len() ==> text@[j] == uuid_char(bytes@, j),
        decreases 16 - i,
    {
        if i == 4 || i == 6 || i == 8 || i == 10 {
            text.push('-');
        }
        let byte = bytes[i];
        text.push(digit_char(byte / 16));
        text.push(digit_char(byte % 16));
        i += 1;
    }
    assert(text@ =~= uuid_text(bytes@));
    text
}

/// The decimal text of `n`, without leading zeros.
pub open spec fn decimal_text(n: nat) -> Seq<char>
    decreases n,
{
    if n < 10 {
        seq![digit(n as int)]
    } else {
        decimal_text(n / 10).push(digit((n % 10) as int))
    }
}

/// Appends the decimal text of `n` to `text`.
pub fn push_decimal(text: &mut String, n: u64)
    ensures
        final(text)@ == old(text)@ + decimal_text(n as nat),
    decreases n,
{
    if n >= 10 {
        push_decimal(text, n / 10);
    }
    text.push(digit_char((n % 10) as u8));
    assert(final(text)@ =~= old(text)@ + decimal_text(n as nat));
}

/// A notice that the broker itself originates: opcode zero, the length of
/// the text as sixteen bits, low byte first, then the text.
///
/// Only the low sixteen bits of the length are written.
pub open spec fn relay_notice(text: Seq<u8>) -> Seq<u8> {
    seq![0u8, (text.len() % 256) as u8, (text.len() / 256 % 256) as u8] + text
}

/// The notice that carries `text`.
pub open spec fn notice_of(text: Seq<char>) -> Seq<u8> {
    relay_notice(encode_utf8(text))
}

/// Builds the notice that carries `msg`.
pub fn build_relay_msg(msg: &str) -> (frame: Vec<u8>)
    ensures
        frame@ == relay_notice(msg.spec_bytes()),
        frame@ == notice_of(msg@),
{
    let bytes = msg.as_bytes();
    let len: usize = bytes.len();
    let mut frame: Vec<u8> = Vec::new();
    frame.push(0x00);
    frame.push((len % 256) as u8);
    frame.push((len / 256 % 256) as u8);
    frame.extend_from_slice(bytes);
    assert(frame@ =~= relay_notice(msg.spec_bytes()));
    frame
}

/// The opcode of every frame that a client receives from the server.
pub const OP_DELIVERY: u8 = 0x11;

/// A frame as a client receives it: the delivery opcode, the transient id of
/// the relaying server, then the payload.
pub open spec fn delivery(sender_id: u8, tail: Seq<u8>) -> Seq<u8> {
    seq![OP_DELIVERY, sender_id] + tail
}

/// Wraps `tail` for delivery to a client on behalf of server `sender_id`.
pub fn build_delivery(sender_id: u8, tail: &[u8]) -> (frame: Vec<u8>)
    ensures
        frame@ == delivery(sender_id, tail@),
{
    let mut frame: Vec<u8> = Vec::new();
    frame.push(OP_DELIVERY);
    frame.push(sender_id);
    frame.extend_from_slice(tail);
    assert(frame@ =~= delivery(sender_id, tail@));
    frame
}

} // verus!
