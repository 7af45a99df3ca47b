//! The sync-identifier codec: layout constants, the decoded form of an
//! identifier, decoding with exact error conditions, and re-encoding.
//!
//! Layout of a sync identifier: the first `TIMESTAMP_LENGTH` bytes are the
//! ASCII-decimal, zero-padded timestamp delta (seconds since the network
//! epoch), the next byte is the record type, the next `FID_BYTES` bytes are
//! the big-endian subject id, and the remaining bytes are an opaque suffix.

use vstd::prelude::*;

verus! {

/// Width in bytes of the ASCII-decimal timestamp region.
pub const TIMESTAMP_LENGTH: usize = 10;

/// Width in bytes of the big-endian subject id.
pub const FID_BYTES: usize = 4;

/// Least length of a well-formed sync identifier: timestamp region, one
/// record-type byte, and the subject id. Anything shorter fails to decode.
pub const MIN_SYNC_ID_LENGTH: usize = 15;

/// Seconds between the Unix epoch and the network's own epoch
/// (2021-01-01T00:00:00Z), from which all encoded timestamps are measured.
pub const FARCASTER_EPOCH: u64 = 1609459200;

/// Record-type byte for a user message.
pub const RECORD_TYPE_MESSAGE: u8 = 1;
/// Record-type byte for a username proof.
pub const RECORD_TYPE_USERNAME_PROOF: u8 = 7;
/// Record-type byte for an on-chain event.
pub const RECORD_TYPE_ON_CHAIN_EVENT: u8 = 9;

/// The category of record a sync identifier refers to. Unrecognized
/// record-type bytes map to `Unknown`; they never make decoding fail.
#[derive(PartialEq, Eq, Structural, Clone, Copy, Debug)]
pub enum RecordType {
    Message,
    UsernameProof,
    OnChainEvent,
    Unknown,
}

/// Why a byte sequence failed to decode as a sync identifier.
#[derive(PartialEq, Eq, Structural, Clone, Copy, Debug)]
pub enum DecodeError {
    /// The input is shorter than `MIN_SYNC_ID_LENGTH`.
    TooShort,
    /// The timestamp region holds a non-digit byte, or its value does not
    /// fit the timestamp's integer width.
    InvalidTimestamp,
}

/// A decoded sync identifier.
pub struct SyncId {
    /// Seconds elapsed since `FARCASTER_EPOCH` when the record was created.
    pub timestamp_delta: u32,
    /// The raw record-type byte.
    pub record_type: u8,
    /// The owning subject (account) id.
    pub subject_fid: u32,
    /// The remaining opaque discriminator bytes.
    pub suffix: Vec<u8>,
}

/// The mathematical model of a decoded sync identifier.
#[verifier::ext_equal]
pub ghost struct SyncIdModel {
    pub timestamp_delta: int,
    pub record_type: u8,
    pub subject_fid: int,
    pub suffix: Seq<u8>,
}

impl View for SyncId {
    type V = SyncIdModel;

    open spec fn view(&self) -> SyncIdModel {
        SyncIdModel {
            timestamp_delta: self.timestamp_delta as int,
            record_type: self.record_type,
            subject_fid: self.subject_fid as int,
            suffix: self.suffix@,
        }
    }
}

/// Whether `b` is an ASCII decimal digit.
pub open spec fn is_digit(b: u8) -> bool {
    48 <= b <= 57
}

/// Numeric value of the ASCII digit `b`.
pub open spec fn digit_val(b: u8) -> int {
    b - 48
}

/// Whether every byte of `s` is an ASCII decimal digit.
pub open spec fn all_digits(s: Seq<u8>) -> bool {
    forall|i: int| 0 <= i < s.len() ==> is_digit(#[trigger] s[i])
}

/// Value of `s` read as a big-endian string of ASCII decimal digits.
pub open spec fn digits_value(s: Seq<u8>) -> int
    decreases s.len(),
{
    if s.len() == 0 {
        0
    } else {
        digits_value(s.drop_last()) * 10 + digit_val(s.last())
    }
}

/// Ten to the power `n`.
pub open spec fn pow10(n: nat) -> int
    decreases n,
{
    if n == 0 {
        1
    } else {
        10 * pow10((n - 1) as nat)
    }
}

/// 256 to the power `n`.
pub open spec fn pow256(n: nat) -> int
    decreases n,
{
    if n == 0 {
        1
    } else {
        256 * pow256((n - 1) as nat)
    }
}

/// The `n` ASCII digits of `v`, most significant first, zero-padded.
pub open spec fn digits_of(v: int, n: nat) -> Seq<u8>
    decreases n,
{
    if n == 0 {
        Seq::empty()
    } else {
        digits_of(v / 10, (n - 1) as nat).push((48 + v % 10) as u8)
    }
}

/// Value of `s` read as a big-endian base-256 integer.
pub open spec fn be_value(s: Seq<u8>) -> int
    decreases s.len(),
{
    if s.len() == 0 {
        0
    } else {
        be_value(s.drop_last()) * 256 + s.last()
    }
}

/// The `n` big-endian base-256 bytes of `v`.
pub open spec fn be_bytes_of(v: int, n: nat) -> Seq<u8>
    decreases n,
{
    if n == 0 {
        Seq::empty()
    } else {
        be_bytes_of(v / 256, (n - 1) as nat).push((v % 256) as u8)
    }
}

/// Whether `s` is too short to be a sync identifier.
pub open spec fn sync_id_too_short(s: Seq<u8>) -> bool {
    s.len() < MIN_SYNC_ID_LENGTH
}

/// The timestamp region of `s`.
pub open spec fn timestamp_region(s: Seq<u8>) -> Seq<u8> {
    s.subrange(0, TIMESTAMP_LENGTH as int)
}

/// Whether the timestamp region of `s` is malformed: a non-digit byte, or a
/// value that does not fit in the timestamp's integer width.
pub open spec fn sync_id_bad_timestamp(s: Seq<u8>) -> bool {
    !all_digits(timestamp_region(s)) || digits_value(timestamp_region(s)) > u32::MAX
}

/// What a byte sequence decodes to: `Some` exactly on well-formed inputs.
/// The record-type byte never decides success.
pub open spec fn spec_decode(s: Seq<u8>) -> Option<SyncIdModel> {
    if sync_id_too_short(s) || sync_id_bad_timestamp(s) {
        None
    } else {
        Some(
            SyncIdModel {
                timestamp_delta: digits_value(timestamp_region(s)),
                record_type: s[TIMESTAMP_LENGTH as int],
                subject_fid: be_value(
                    s.subrange(TIMESTAMP_LENGTH + 1, MIN_SYNC_ID_LENGTH as int),
                ),
                suffix: s.skip(MIN_SYNC_ID_LENGTH as int),
            },
        )
    }
}

/// Which error decoding `s` reports when it fails.
pub open spec fn spec_decode_error(s: Seq<u8>) -> DecodeError {
    if sync_id_too_short(s) {
        DecodeError::TooShort
    } else {
        DecodeError::InvalidTimestamp
    }
}

/// The byte sequence a decoded identifier serializes back to.
pub open spec fn spec_encode(v: SyncIdModel) -> Seq<u8> {
    digits_of(v.timestamp_delta, TIMESTAMP_LENGTH as nat) + seq![v.record_type]
        + be_bytes_of(v.subject_fid, FID_BYTES as nat) + v.suffix
}

/// The record type denoted by the record-type byte `b`.
pub open spec fn spec_record_type(b: u8) -> RecordType {
    if b == RECORD_TYPE_MESSAGE {
        RecordType::Message
    } else if b == RECORD_TYPE_USERNAME_PROOF {
        RecordType::UsernameProof
    } else if b == RECORD_TYPE_ON_CHAIN_EVENT {
        RecordType::OnChainEvent
    } else {
        RecordType::Unknown
    }
}

/// The stable display label of each record type.
pub open spec fn record_type_label_spec(t: RecordType) -> Seq<char> {
    match t {
        RecordType::Message => "user message"@,
        RecordType::UsernameProof => "username proof"@,
        RecordType::OnChainEvent => "on-chain event"@,
        RecordType::Unknown => "unknown"@,
    }
}

/// The absolute decoded time of a model value: epoch plus delta, in seconds.
pub open spec fn spec_decoded_time(v: SyncIdModel) -> int {
    FARCASTER_EPOCH + v.timestamp_delta
}

impl SyncId {
    /// The record type this identifier refers to.
    pub fn record_type(&self) -> (t: RecordType)
        ensures
            t == spec_record_type(self.record_type),
    {
        if self.record_type == RECORD_TYPE_MESSAGE {
            RecordType::Message
        } else if self.record_type == RECORD_TYPE_USERNAME_PROOF {
            RecordType::UsernameProof
        } else if self.record_type == RECORD_TYPE_ON_CHAIN_EVENT {
            RecordType::OnChainEvent
        } else {
            RecordType::Unknown
        }
    }

    /// The stable label of this identifier's record type; unrecognized
    /// record-type bytes all share the `"unknown"` label.
    pub fn record_type_label(&self) -> (r: &'static str)
        ensures
            r@ == record_type_label_spec(spec_record_type(self.record_type)),
    {
        record_type_label(self.record_type())
    }

    /// Absolute creation time of the identified record, in seconds since the
    /// Unix epoch: the network epoch plus the encoded delta.
    pub fn decoded_time(&self) -> (t: i64)
        ensures
            t == spec_decoded_time(self@),
    {
        FARCASTER_EPOCH as i64 + self.timestamp_delta as i64
    }
}

/// The stable label of a record type.
pub fn record_type_label(t: RecordType) -> (r: &'static str)
    ensures
        r@ == record_type_label_spec(t),
{
    match t {
        RecordType::Message => "user message",
        RecordType::UsernameProof => "username proof",
        RecordType::OnChainEvent => "on-chain event",
        RecordType::Unknown => "unknown",
    }
}

/// Converts a timestamp delta in network-epoch seconds to Unix-epoch seconds.
pub fn farcaster_to_unix(ts: u64) -> (r: u64)
    requires
        ts <= u64::MAX - FARCASTER_EPOCH,
    ensures
        r == FARCASTER_EPOCH + ts,
{
    FARCASTER_EPOCH + ts
}

/// Parses the fixed-width ASCII-decimal timestamp region at the front of
/// `bytes`. Fails with `TooShort` when fewer than `TIMESTAMP_LENGTH` bytes
/// are given, and with `InvalidTimestamp` when the region holds a non-digit
/// or its value does not fit the timestamp width.
pub fn parse_timestamp_region(bytes: &Vec<u8>) -> (r: Result<u32, DecodeError>)
    ensures
        match r {
            Ok(ts) => bytes@.len() >= TIMESTAMP_LENGTH
                && all_digits(bytes@.subrange(0, TIMESTAMP_LENGTH as int))
                && ts == digits_value(bytes@.subrange(0, TIMESTAMP_LENGTH as int)),
            Err(DecodeError::TooShort) => bytes@.len() < TIMESTAMP_LENGTH,
            Err(DecodeError::InvalidTimestamp) => bytes@.len() >= TIMESTAMP_LENGTH && (
            !all_digits(bytes@.subrange(0, TIMESTAMP_LENGTH as int)) || digits_value(
                bytes@.subrange(0, TIMESTAMP_LENGTH as int),
            ) > u32::MAX),
        },
{
    if bytes.len() < TIMESTAMP_LENGTH {
        return Err(DecodeError::TooShort);
    }
    let mut v: u64 = 0;
    let mut i: usize = 0;
    while i < TIMESTAMP_LENGTH
        invariant
            0 <= i <= TIMESTAMP_LENGTH,
            bytes@.len() >= TIMESTAMP_LENGTH,
            all_digits(bytes@.subrange(0, i as int)),
            v == digits_value(bytes@.subrange(0, i as int)),
            v < pow10(i as nat),
        decreases TIMESTAMP_LENGTH - i,
    {
        let b = bytes[i];
        if b < 48 || b > 57 {
            proof {
                assert(timestamp_region(bytes@)[i as int] == b);
            }
            return Err(DecodeError::InvalidTimestamp);
        }
        proof {
            lemma_pow10_le(i as nat, 9);
            reveal_with_fuel(pow10, 11);
            assert(pow10(9) == 1000000000);
            assert(bytes@.subrange(0, (i + 1) as int).drop_last() == bytes@.subrange(0, i as int));
            assert(bytes@.subrange(0, (i + 1) as int).last() == b);
        }
        v = v * 10 + ((b - 48) as u64);
        i = i + 1;
    }
    proof {
        assert(bytes@.subrange(0, TIMESTAMP_LENGTH as int) == timestamp_region(bytes@));
    }
    if v > u32::MAX as u64 {
        return Err(DecodeError::InvalidTimestamp);
    }
    Ok(v as u32)
}

/// `pow10` is positive.
pub proof fn lemma_pow10_pos(n: nat)
    ensures
        pow10(n) >= 1,
    decreases n,
{
    if n > 0 {
        lemma_pow10_pos((n - 1) as nat);
    }
}

/// `pow10` is monotone.
pub proof fn lemma_pow10_le(m: nat, n: nat)
    requires
        m <= n,
    ensures
        pow10(m) <= pow10(n),
    decreases n,
{
    if m < n {
        lemma_pow10_le(m, (n - 1) as nat);
        lemma_pow10_pos((n - 1) as nat);
    }
}

/// Decoded time is monotone in the encoded delta: no wraparound within the
/// timestamp width.
pub proof fn lemma_decoded_time_monotone(a: SyncIdModel, b: SyncIdModel)
    requires
        a.timestamp_delta <= b.timestamp_delta,
    ensures
        spec_decoded_time(a) <= spec_decoded_time(b),
{
}

/// Reads just the timestamp region of a raw identifier and converts it to
/// an absolute time in seconds since the Unix epoch. Needs only the
/// timestamp region to be present and well formed; the rest of the
/// identifier is not inspected.
pub fn timestamp_from_sync_id(input: &Vec<u8>) -> (r: Result<i64, DecodeError>)
    ensures
        match r {
            Ok(t) => input@.len() >= TIMESTAMP_LENGTH
                && all_digits(input@.subrange(0, TIMESTAMP_LENGTH as int))
                && t == FARCASTER_EPOCH + digits_value(input@.subrange(0, TIMESTAMP_LENGTH as int)),
            Err(DecodeError::TooShort) => input@.len() < TIMESTAMP_LENGTH,
            Err(DecodeError::InvalidTimestamp) => input@.len() >= TIMESTAMP_LENGTH && (
            !all_digits(input@.subrange(0, TIMESTAMP_LENGTH as int)) || digits_value(
                input@.subrange(0, TIMESTAMP_LENGTH as int),
            ) > u32::MAX),
        },
{
    let ts = parse_timestamp_region(input)?;
    Ok(FARCASTER_EPOCH as i64 + ts as i64)
}

/// A string of ASCII digits has a non-negative value below `pow10` of its
/// length.
pub proof fn lemma_digits_value_bounds(s: Seq<u8>)
    requires
        all_digits(s),
    ensures
        0 <= digits_value(s) < pow10(s.len()),
    decreases s.len(),
{
    if s.len() > 0 {
        assert(all_digits(s.drop_last())) by {
            assert(forall|i: int|
                0 <= i < s.len() - 1 ==> #[trigger] s.drop_last()[i] == s[i]);
        }
        lemma_digits_value_bounds(s.drop_last());
        assert(is_digit(s.last()));
    }
}

/// Rendering the value of a digit string back to its fixed width reproduces
/// the string: a digit string is determined by its length and its value.
pub proof fn lemma_digits_of_value(s: Seq<u8>)
    requires
        all_digits(s),
    ensures
        digits_of(digits_value(s), s.len()) == s,
    decreases s.len(),
{
    if s.len() == 0 {
        assert(digits_of(digits_value(s), s.len()) =~= s);
    } else {
        assert(all_digits(s.drop_last())) by {
            assert(forall|i: int|
                0 <= i < s.len() - 1 ==> #[trigger] s.drop_last()[i] == s[i]);
        }
        lemma_digits_value_bounds(s.drop_last());
        lemma_digits_of_value(s.drop_last());
        let w = digits_value(s.drop_last());
        let d = digit_val(s.last());
        let v = digits_value(s);
        assert(is_digit(s.last()));
        vstd::arithmetic::div_mod::lemma_fundamental_div_mod_converse(v, 10, w, d);
        assert((48 + v % 10) as u8 == s.last());
        assert(digits_of(v, s.len()) == digits_of(w, (s.len() - 1) as nat).push(s.last()));
        assert(s.drop_last().push(s.last()) =~= s);
    }
}

/// A big-endian byte string has a non-negative value below `pow256` of its
/// length.
pub proof fn lemma_be_value_bounds(s: Seq<u8>)
    ensures
        0 <= be_value(s) < pow256(s.len()),
    decreases s.len(),
{
    if s.len() > 0 {
        lemma_be_value_bounds(s.drop_last());
    }
}

/// Rendering the value of a big-endian byte string back to its fixed width
/// reproduces the string.
pub proof fn lemma_be_bytes_of_value(s: Seq<u8>)
    ensures
        be_bytes_of(be_value(s), s.len()) == s,
    decreases s.len(),
{
    if s.len() == 0 {
        assert(be_bytes_of(be_value(s), s.len()) =~= s);
    } else {
        lemma_be_value_bounds(s.drop_last());
        lemma_be_bytes_of_value(s.drop_last());
        let w = be_value(s.drop_last());
        let v = be_value(s);
        vstd::arithmetic::div_mod::lemma_fundamental_div_mod_converse(v, 256, w, s.last() as int);
        assert((v % 256) as u8 == s.last());
        assert(be_bytes_of(v, s.len()) == be_bytes_of(w, (s.len() - 1) as nat).push(s.last()));
        assert(s.drop_last().push(s.last()) =~= s);
    }
}

/// Round trip: any byte sequence that decodes successfully is reproduced,
/// byte for byte, by re-serializing the decoded value.
pub proof fn lemma_decode_encode_round_trip(s: Seq<u8>)
    requires
        spec_decode(s) is Some,
    ensures
        spec_encode(spec_decode(s)->Some_0) == s,
{
    let v = spec_decode(s)->Some_0;
    let ts = timestamp_region(s);
    let fs = s.subrange(TIMESTAMP_LENGTH + 1, MIN_SYNC_ID_LENGTH as int);
    lemma_digits_of_value(ts);
    lemma_be_bytes_of_value(fs);
    assert(spec_encode(v) =~= s);
}

/// The record-type byte never decides whether decoding succeeds: replacing
/// it with any byte leaves success unchanged.
pub proof fn lemma_unknown_type_tolerated(s: Seq<u8>, b: u8)
    requires
        TIMESTAMP_LENGTH < s.len(),
    ensures
        spec_decode(s.update(TIMESTAMP_LENGTH as int, b)) is Some <==> spec_decode(s) is Some,
{
    let u = s.update(TIMESTAMP_LENGTH as int, b);
    assert(timestamp_region(u) =~= timestamp_region(s));
}

/// Every record-type byte outside the known set maps to `Unknown`, whose
/// stable label is `"unknown"`.
pub proof fn lemma_unknown_type_label(b: u8)
    requires
        b != RECORD_TYPE_MESSAGE,
        b != RECORD_TYPE_USERNAME_PROOF,
        b != RECORD_TYPE_ON_CHAIN_EVENT,
    ensures
        spec_record_type(b) == RecordType::Unknown,
        record_type_label_spec(spec_record_type(b)) == "unknown"@,
{
}

/// Decodes a sync identifier from its byte form. Succeeds exactly on inputs
/// of at least the minimum length whose timestamp region is all ASCII digits
/// with a value that fits the timestamp width; the record-type byte never
/// decides success. On failure reports `TooShort` for short inputs, else
/// `InvalidTimestamp`.
pub fn decode(bytes: &Vec<u8>) -> (r: Result<SyncId, DecodeError>)
    ensures
        r is Ok <==> spec_decode(bytes@) is Some,
        match r {
            Ok(id) => spec_decode(bytes@) == Some(id@),
            Err(e) => e == spec_decode_error(bytes@),
        },
{
    if bytes.len() < MIN_SYNC_ID_LENGTH {
        return Err(DecodeError::TooShort);
    }
    let ts = match parse_timestamp_region(bytes) {
        Ok(ts) => ts,
        Err(_) => {
            return Err(DecodeError::InvalidTimestamp);
        },
    };
    let record_type = bytes[TIMESTAMP_LENGTH];
    let fid = (bytes[11] as u32) * 16777216 + (bytes[12] as u32) * 65536 + (bytes[13] as u32) * 256
        + (bytes[14] as u32);
    proof {
        let fs = bytes@.subrange(TIMESTAMP_LENGTH + 1, MIN_SYNC_ID_LENGTH as int);
        assert(fs.drop_last() == bytes@.subrange(11, 14));
        assert(bytes@.subrange(11, 14).drop_last() == bytes@.subrange(11, 13));
        assert(bytes@.subrange(11, 13).drop_last() == bytes@.subrange(11, 12));
        assert(bytes@.subrange(11, 12).drop_last() == bytes@.subrange(11, 11));
        assert(be_value(bytes@.subrange(11, 11)) == 0);
        assert(be_value(bytes@.subrange(11, 12)) == bytes@[11]);
        assert(be_value(bytes@.subrange(11, 13)) == bytes@[11] * 256 + bytes@[12]);
        assert(be_value(bytes@.subrange(11, 14)) == (bytes@[11] * 256 + bytes@[12]) * 256
            + bytes@[13]);
        assert(be_value(fs) == ((bytes@[11] * 256 + bytes@[12]) * 256 + bytes@[13]) * 256
            + bytes@[14]);
        assert(be_value(fs) == fid);
    }
    let mut suffix: Vec<u8> = Vec::new();
    let mut k: usize = MIN_SYNC_ID_LENGTH;
    while k < bytes.len()
        invariant
            MIN_SYNC_ID_LENGTH <= k <= bytes@.len(),
            suffix@ == bytes@.subrange(MIN_SYNC_ID_LENGTH as int, k as int),
        decreases bytes@.len() - k,
    {
        suffix.push(bytes[k]);
        proof {
            assert(suffix@ == bytes@.subrange(MIN_SYNC_ID_LENGTH as int, (k + 1) as int));
        }
        k = k + 1;
    }
    let id = SyncId { timestamp_delta: ts, record_type, subject_fid: fid, suffix };
    proof {
        assert(suffix@ == bytes@.skip(MIN_SYNC_ID_LENGTH as int));
        assert(spec_decode(bytes@) == Some(id@));
    }
    Ok(id)
}

/// Appends the `n`-digit zero-padded ASCII-decimal form of `v` to `out`.
fn push_digits(v: u32, n: usize, out: &mut Vec<u8>)
    ensures
        final(out)@ == old(out)@ + digits_of(v as int, n as nat),
    decreases n,
{
    if n > 0 {
        push_digits(v / 10, n - 1, out);
        out.push(48 + (v % 10) as u8);
        proof {
            assert(out@ == old(out)@ + digits_of(v as int, n as nat));
        }
    } else {
        proof {
            assert(out@ == old(out)@ + digits_of(v as int, 0));
        }
    }
}

/// Appends the `n` big-endian base-256 bytes of `v` to `out`.
fn push_be_bytes(v: u32, n: usize, out: &mut Vec<u8>)
    ensures
        final(out)@ == old(out)@ + be_bytes_of(v as int, n as nat),
    decreases n,
{
    if n > 0 {
        push_be_bytes(v / 256, n - 1, out);
        out.push((v % 256) as u8);
        proof {
            assert(out@ == old(out)@ + be_bytes_of(v as int, n as nat));
        }
    } else {
        proof {
            assert(out@ == old(out)@ + be_bytes_of(v as int, 0));
        }
    }
}

/// Serializes a decoded identifier back to its byte form.
pub fn encode(id: &SyncId) -> (r: Vec<u8>)
    ensures
        r@ == spec_encode(id@),
{
    let mut out: Vec<u8> = Vec::new();
    push_digits(id.timestamp_delta, TIMESTAMP_LENGTH, &mut out);
    out.push(id.record_type);
    push_be_bytes(id.subject_fid, FID_BYTES, &mut out);
    let ghost head = out@;
    let mut k: usize = 0;
    while k < id.suffix.len()
        invariant
            0 <= k <= id.suffix@.len(),
            out@ == head + id.suffix@.subrange(0, k as int),
        decreases id.suffix@.len() - k,
    {
        out.push(id.suffix[k]);
        proof {
            assert(out@ == head + id.suffix@.subrange(0, (k + 1) as int));
        }
        k = k + 1;
    }
    proof {
        assert(id.suffix@.subrange(0, id.suffix@.len() as int) == id.suffix@);
        assert(out@ == spec_encode(id@));
    }
    out
}

} // verus!
