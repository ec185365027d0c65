//! The envelope codec: wrapping payload bytes together with an enclosure
//! timestamp in a fixed binary wire schema, and unwrapping them again.
//!
//! The wire schema is the protobuf message
//! `{ 1: optional timestamp { 1: int64 seconds, 2: int32 nanos }, 2: bytes }`:
//! canonical encodings leave out fields that hold their default value.

use vstd::prelude::*;
use crate::error::Error;
use crate::wire::{
    parse_fields, spec_field_valid, spec_fields_enc, spec_fields_view, spec_parse_fields,
    spec_varint, spec_wt, write_varint, SpecWireField, SpecWireValue, WireField, WireValue,
};
use vstd::slice::slice_to_vec;

verus! {

/// The wire representation of a wall-clock instant: whole seconds since the
/// epoch and the remaining nanoseconds, both signed and of the same sign.
#[derive(Clone, Copy, Debug, PartialEq, Eq, Structural)]
pub struct WireTimestamp {
    pub seconds: i64,
    pub nanos: i32,
}

/// A decoded envelope: the enclosure timestamp, if present on the wire, and
/// the opaque payload bytes. The codec never reinterprets the payload.
pub struct Envelope {
    pub enclosed_at: Option<WireTimestamp>,
    pub payload: Vec<u8>,
}

impl View for Envelope {
    type V = (Option<(i64, i32)>, Seq<u8>);

    open spec fn view(&self) -> (Option<(i64, i32)>, Seq<u8>) {
        (
            (match self.enclosed_at {
                Some(ts) => Some((ts.seconds, ts.nanos)),
                None => None,
            }),
            self.payload@,
        )
    }
}

/// Whole seconds of a nanosecond count, truncating toward zero.
pub open spec fn spec_secs_of(t: int) -> int {
    if t >= 0 {
        t / 1_000_000_000
    } else {
        -((-t) / 1_000_000_000)
    }
}

/// Nanoseconds left over after `spec_secs_of`, with the sign of `t`.
pub open spec fn spec_frac_of(t: int) -> int {
    if t >= 0 {
        t % 1_000_000_000
    } else {
        -((-t) % 1_000_000_000)
    }
}

/// The two halves recompose exactly, and the fraction is a proper
/// remainder.
pub proof fn lemma_split_nanos(t: int)
    ensures
        spec_secs_of(t) * 1_000_000_000 + spec_frac_of(t) == t,
        -1_000_000_000 < spec_frac_of(t) < 1_000_000_000,
        t >= 0 ==> 0 <= spec_secs_of(t) <= t && 0 <= spec_frac_of(t),
        t < 0 ==> t <= spec_secs_of(t) <= 0 && spec_frac_of(t) <= 0,
{
    if t >= 0 {
        vstd::arithmetic::div_mod::lemma_fundamental_div_mod(t, 1_000_000_000);
        vstd::arithmetic::div_mod::lemma_remainder_upper(t, 1_000_000_000);
        vstd::arithmetic::div_mod::lemma_remainder_lower(t, 1_000_000_000);
        vstd::arithmetic::div_mod::lemma_div_nonincreasing(t, 1_000_000_000);
        vstd::arithmetic::div_mod::lemma_div_pos_is_pos(t, 1_000_000_000);
    } else {
        let m = -t;
        vstd::arithmetic::div_mod::lemma_fundamental_div_mod(m, 1_000_000_000);
        vstd::arithmetic::div_mod::lemma_remainder_upper(m, 1_000_000_000);
        vstd::arithmetic::div_mod::lemma_remainder_lower(m, 1_000_000_000);
        vstd::arithmetic::div_mod::lemma_div_nonincreasing(m, 1_000_000_000);
        vstd::arithmetic::div_mod::lemma_div_pos_is_pos(m, 1_000_000_000);
    }
}

/// The split of a nanosecond count into its wire halves.
pub open spec fn spec_split_nanos(t: i64) -> (i64, i32) {
    (spec_secs_of(t as int) as i64, spec_frac_of(t as int) as i32)
}

/// Split a nanosecond count into the wire timestamp representation.
/// Integer division truncates toward zero; no rounding.
pub fn nanos_to_timestamp(nanos: i64) -> (r: WireTimestamp)
    ensures
        r.seconds == spec_secs_of(nanos as int),
        r.nanos == spec_frac_of(nanos as int),
        r.seconds * 1_000_000_000 + r.nanos == nanos,
{
    proof {
        lemma_split_nanos(nanos as int);
    }
    if nanos >= 0 {
        let u = nanos as u64;
        let s = (u / 1_000_000_000) as i64;
        let f = (u % 1_000_000_000) as i32;
        WireTimestamp { seconds: s, nanos: f }
    } else {
        let m = (-(nanos + 1)) as u64 + 1;
        proof {
            assert(m == -(nanos as int));
        }
        let q = m / 1_000_000_000;
        let rm = m % 1_000_000_000;
        let s = -(q as i64);
        let f = -(rm as i32);
        WireTimestamp { seconds: s, nanos: f }
    }
}

/// Recompose a wire timestamp into a nanosecond count. This is the exact
/// left inverse of `nanos_to_timestamp` for every representable input.
pub fn timestamp_to_nanos(ts: &WireTimestamp) -> (r: i64)
    requires
        i64::MIN <= ts.seconds * 1_000_000_000 + ts.nanos <= i64::MAX,
    ensures
        r == ts.seconds * 1_000_000_000 + ts.nanos,
{
    let v: i128 = (ts.seconds as i128) * 1_000_000_000 + (ts.nanos as i128);
    v as i64
}

/// Relies on `std::time::SystemTime::now` and
/// `SystemTime::duration_since(UNIX_EPOCH)`: the wall-clock time as whole
/// nanoseconds since the epoch, which is nonnegative whenever the duration
/// fits an `i64`; the clock reading earlier than the epoch or past what an
/// `i64` holds is an error.
#[verifier::external_body]
pub(crate) fn current_time_nanos() -> (r: Result<i64, Error>)
    ensures
        r matches Ok(n) ==> 0 <= n,
        r matches Err(e) ==> e is InvalidTimestamp,
{
    match std::time::SystemTime::now().duration_since(std::time::UNIX_EPOCH) {
        Ok(d) => match i64::try_from(d.as_nanos()) {
            Ok(n) => Ok(n),
            Err(_) => Err(Error::InvalidTimestamp),
        },
        Err(_) => Err(Error::InvalidTimestamp),
    }
}

/// Read the current wall-clock time as a wire timestamp. Fails only if the
/// clock is unavailable.
pub fn current_timestamp() -> (r: Result<WireTimestamp, Error>)
    ensures
        match r {
            Ok(ts) => {
                &&& ts.seconds >= 0
                &&& ts.nanos >= 0
                &&& 0 <= ts.seconds * 1_000_000_000 + ts.nanos
            },
            Err(e) => e is InvalidTimestamp,
        },
{
    match current_time_nanos() {
        Ok(n) => {
            let ts = nanos_to_timestamp(n);
            proof {
                lemma_split_nanos(n as int);
            }
            Ok(ts)
        },
        Err(e) => Err(e),
    }
}

/// The wire fields of a timestamp message: `int64 seconds` in field 1 and
/// `int32 nanos` in field 2, each left out when zero.
pub open spec fn spec_ts_fields(s: i64, n: i32) -> Seq<SpecWireField> {
    (if s != 0 {
        seq![SpecWireField { number: 1, value: SpecWireValue::Varint(s as u64) }]
    } else {
        Seq::empty()
    }) + (if n != 0 {
        seq![SpecWireField { number: 2, value: SpecWireValue::Varint((n as i64) as u64) }]
    } else {
        Seq::empty()
    })
}

/// Canonical encoding of a timestamp message.
pub open spec fn spec_ts_enc(s: i64, n: i32) -> Seq<u8> {
    spec_fields_enc(spec_ts_fields(s, n))
}

/// The wire fields of an envelope: the encoded timestamp in field 1 when
/// present, the payload in field 2 when not empty.
pub open spec fn spec_env_fields(ts: Option<(i64, i32)>, payload: Seq<u8>) -> Seq<SpecWireField> {
    (match ts {
        Some((s, n)) => seq![
            SpecWireField { number: 1, value: SpecWireValue::Len(spec_ts_enc(s, n)) },
        ],
        None => Seq::empty(),
    }) + (if payload.len() > 0 {
        seq![SpecWireField { number: 2, value: SpecWireValue::Len(payload) }]
    } else {
        Seq::empty()
    })
}

/// Canonical encoding of a whole envelope.
pub open spec fn spec_encode_envelope(ts: Option<(i64, i32)>, payload: Seq<u8>) -> Seq<u8> {
    spec_fields_enc(spec_env_fields(ts, payload))
}

/// Interpret parsed wire fields as a timestamp message: field 1 is the
/// seconds, field 2 the nanoseconds, later occurrences win, unknown fields
/// are skipped, and a known field of the wrong wire type rejects the
/// message.
pub open spec fn spec_ts_fold(fs: Seq<SpecWireField>, s: i64, n: i32) -> Option<(i64, i32)>
    decreases fs.len(),
{
    if fs.len() == 0 {
        Some((s, n))
    } else {
        let f = fs[0];
        if f.number == 1 {
            match f.value {
                SpecWireValue::Varint(v) => spec_ts_fold(fs.drop_first(), v as i64, n),
                _ => None,
            }
        } else if f.number == 2 {
            match f.value {
                SpecWireValue::Varint(v) => spec_ts_fold(fs.drop_first(), s, v as i32),
                _ => None,
            }
        } else {
            spec_ts_fold(fs.drop_first(), s, n)
        }
    }
}

/// Interpret parsed wire fields as an envelope: field 1 carries the encoded
/// timestamp, field 2 the payload; later occurrences win, unknown fields
/// are skipped, and a known field of the wrong wire type rejects the
/// message.
pub open spec fn spec_env_fold(
    fs: Seq<SpecWireField>,
    tsb: Option<Seq<u8>>,
    payload: Seq<u8>,
) -> Option<(Option<Seq<u8>>, Seq<u8>)>
    decreases fs.len(),
{
    if fs.len() == 0 {
        Some((tsb, payload))
    } else {
        let f = fs[0];
        if f.number == 1 {
            match f.value {
                SpecWireValue::Len(b) => spec_env_fold(fs.drop_first(), Some(b), payload),
                _ => None,
            }
        } else if f.number == 2 {
            match f.value {
                SpecWireValue::Len(b) => spec_env_fold(fs.drop_first(), tsb, b),
                _ => None,
            }
        } else {
            spec_env_fold(fs.drop_first(), tsb, payload)
        }
    }
}

/// Parse envelope bytes: the timestamp half, if present on the wire, and
/// the payload bytes.
pub open spec fn spec_parse_envelope(bytes: Seq<u8>) -> Option<(Option<(i64, i32)>, Seq<u8>)> {
    match spec_parse_fields(bytes) {
        None => None,
        Some(fs) => match spec_env_fold(fs, None, Seq::empty()) {
            None => None,
            Some((tsb, p)) => match tsb {
                None => Some((None, p)),
                Some(b) => match spec_parse_fields(b) {
                    None => None,
                    Some(tfs) => match spec_ts_fold(tfs, 0, 0) {
                        None => None,
                        Some((s, n)) => Some((Some((s, n)), p)),
                    },
                },
            },
        },
    }
}

/// Encode a timestamp message canonically.
fn encode_timestamp(ts: &WireTimestamp) -> (r: Vec<u8>)
    ensures
        r@ == spec_ts_enc(ts.seconds, ts.nanos),
{
    let mut out: Vec<u8> = Vec::new();
    if ts.seconds != 0 {
        write_varint(&mut out, 8);
        write_varint(&mut out, #[verifier::truncate] (ts.seconds as u64));
    }
    if ts.nanos != 0 {
        write_varint(&mut out, 16);
        write_varint(&mut out, #[verifier::truncate] ((ts.nanos as i64) as u64));
    }
    proof {
        lemma_ts_enc_shape(ts.seconds, ts.nanos);
        assert(out@ =~= spec_ts_enc(ts.seconds, ts.nanos));
    }
    out
}

/// The canonical timestamp encoding, spelled out byte-for-byte.
proof fn lemma_ts_enc_shape(s: i64, n: i32)
    ensures
        spec_ts_enc(s, n) == (if s != 0 {
            spec_varint(8) + spec_varint((s as u64) as nat)
        } else {
            Seq::<u8>::empty()
        }) + (if n != 0 {
            spec_varint(16) + spec_varint((((n as i64) as u64)) as nat)
        } else {
            Seq::<u8>::empty()
        }),
{
    let fs = spec_ts_fields(s, n);
    let f1 = SpecWireField { number: 1, value: SpecWireValue::Varint(s as u64) };
    let f2 = SpecWireField { number: 2, value: SpecWireValue::Varint((n as i64) as u64) };
    assert(crate::wire::spec_field_enc(f1) == spec_varint(8) + spec_varint((s as u64) as nat));
    assert(crate::wire::spec_field_enc(f2) == spec_varint(16) + spec_varint(
        (((n as i64) as u64)) as nat,
    ));
    if s != 0 && n != 0 {
        assert(fs =~= seq![f1, f2]);
        crate::wire::lemma_fields_enc_pair(f1, f2);
    } else if s != 0 {
        assert(fs =~= seq![f1]);
        crate::wire::lemma_fields_enc_singleton(f1);
    } else if n != 0 {
        assert(fs =~= seq![f2]);
        crate::wire::lemma_fields_enc_singleton(f2);
    } else {
        assert(fs =~= Seq::<SpecWireField>::empty());
        assert(spec_fields_enc(fs) =~= Seq::<u8>::empty());
    }
    assert(spec_ts_enc(s, n) =~= (if s != 0 {
        spec_varint(8) + spec_varint((s as u64) as nat)
    } else {
        Seq::<u8>::empty()
    }) + (if n != 0 {
        spec_varint(16) + spec_varint((((n as i64) as u64)) as nat)
    } else {
        Seq::<u8>::empty()
    }));
}

/// Encode an envelope canonically from its timestamp and payload.
pub fn encode_envelope(ts: &WireTimestamp, payload: &[u8]) -> (r: Vec<u8>)
    ensures
        r@ == spec_encode_envelope(Some((ts.seconds, ts.nanos)), payload@),
{
    let tsb = encode_timestamp(ts);
    let mut out: Vec<u8> = Vec::new();
    write_varint(&mut out, 10);
    write_varint(&mut out, tsb.len() as u64);
    out.extend_from_slice(tsb.as_slice());
    let ghost mid = out@;
    proof {
        let f1 = SpecWireField {
            number: 1,
            value: SpecWireValue::Len(spec_ts_enc(ts.seconds, ts.nanos)),
        };
        assert(mid =~= crate::wire::spec_field_enc(f1));
    }
    if payload.len() > 0 {
        write_varint(&mut out, 18);
        write_varint(&mut out, payload.len() as u64);
        out.extend_from_slice(payload);
        proof {
            let f2 = SpecWireField { number: 2, value: SpecWireValue::Len(payload@) };
            assert(out@.skip(mid.len() as int) =~= crate::wire::spec_field_enc(f2));
        }
    }
    proof {
        lemma_env_enc_shape(Some((ts.seconds, ts.nanos)), payload@);
        assert(out@ =~= spec_encode_envelope(Some((ts.seconds, ts.nanos)), payload@));
    }
    out
}

/// Encode an envelope that carries no enclosure timestamp: only the
/// payload stands on the wire. Decoding such bytes yields an envelope with
/// `enclosed_at` absent, which `uncover` reports as a timestamp error.
pub fn enclose_without_timestamp(payload: &[u8]) -> (r: Vec<u8>)
    ensures
        r@ == spec_encode_envelope(None, payload@),
{
    let mut out: Vec<u8> = Vec::new();
    if payload.len() > 0 {
        write_varint(&mut out, 18);
        write_varint(&mut out, payload.len() as u64);
        out.extend_from_slice(payload);
        proof {
            let f2 = SpecWireField { number: 2, value: SpecWireValue::Len(payload@) };
            assert(out@ =~= crate::wire::spec_field_enc(f2));
        }
    }
    proof {
        lemma_env_enc_shape(None, payload@);
        assert(out@ =~= spec_encode_envelope(None, payload@));
    }
    out
}

/// The canonical envelope encoding, spelled out field-for-field.
proof fn lemma_env_enc_shape(ts: Option<(i64, i32)>, payload: Seq<u8>)
    ensures
        spec_encode_envelope(ts, payload) == (match ts {
            Some((s, n)) => crate::wire::spec_field_enc(
                SpecWireField { number: 1, value: SpecWireValue::Len(spec_ts_enc(s, n)) },
            ),
            None => Seq::<u8>::empty(),
        }) + (if payload.len() > 0 {
            crate::wire::spec_field_enc(
                SpecWireField { number: 2, value: SpecWireValue::Len(payload) },
            )
        } else {
            Seq::<u8>::empty()
        }),
{
    let fs = spec_env_fields(ts, payload);
    match ts {
        Some((s, n)) => {
            let f1 = SpecWireField { number: 1, value: SpecWireValue::Len(spec_ts_enc(s, n)) };
            if payload.len() > 0 {
                let f2 = SpecWireField { number: 2, value: SpecWireValue::Len(payload) };
                assert(fs =~= seq![f1, f2]);
                crate::wire::lemma_fields_enc_pair(f1, f2);
            } else {
                assert(fs =~= seq![f1]);
                crate::wire::lemma_fields_enc_singleton(f1);
            }
        },
        None => {
            if payload.len() > 0 {
                let f2 = SpecWireField { number: 2, value: SpecWireValue::Len(payload) };
                assert(fs =~= seq![f2]);
                crate::wire::lemma_fields_enc_singleton(f2);
            } else {
                assert(fs =~= Seq::<SpecWireField>::empty());
                assert(spec_fields_enc(fs) =~= Seq::<u8>::empty());
            }
        },
    }
    assert(spec_encode_envelope(ts, payload) =~= (match ts {
        Some((s, n)) => crate::wire::spec_field_enc(
            SpecWireField { number: 1, value: SpecWireValue::Len(spec_ts_enc(s, n)) },
        ),
        None => Seq::<u8>::empty(),
    }) + (if payload.len() > 0 {
        crate::wire::spec_field_enc(SpecWireField { number: 2, value: SpecWireValue::Len(payload) })
    } else {
        Seq::<u8>::empty()
    }));
}

/// Enclose a payload in an envelope. With a supplied timestamp the result
/// is the canonical encoding of that timestamp split into its wire halves;
/// with none, the current time is used, and only a clock failure can make
/// the call fail.
pub fn enclose(payload: &[u8], enclosed_at: Option<i64>) -> (r: Result<Vec<u8>, Error>)
    ensures
        enclosed_at matches Some(t) ==> r matches Ok(b) && b@ == spec_encode_envelope(
            Some(spec_split_nanos(t)),
            payload@,
        ),
        enclosed_at is None ==> (match r {
            Ok(b) => exists|t: i64|
                0 <= t && b@ == spec_encode_envelope(
                    Some(#[trigger] spec_split_nanos(t)),
                    payload@,
                ),
            Err(e) => e is InvalidTimestamp,
        }),
{
    let nanos = match enclosed_at {
        Some(t) => t,
        None => {
            match current_time_nanos() {
                Ok(n) => n,
                Err(e) => {
                    return Err(e);
                },
            }
        },
    };
    let ts = nanos_to_timestamp(nanos);
    let out = encode_envelope(&ts, payload);
    proof {
        lemma_split_nanos(nanos as int);
        assert((ts.seconds, ts.nanos) == spec_split_nanos(nanos));
    }
    Ok(out)
}

/// The view of an optional byte buffer.
pub open spec fn spec_opt_bytes_view(o: Option<Vec<u8>>) -> Option<Seq<u8>> {
    match o {
        Some(b) => Some(b@),
        None => None,
    }
}

/// Interpret parsed fields as an envelope, mirroring `spec_env_fold`.
fn env_fold_exec(fields: &Vec<WireField>) -> (r: Result<(Option<Vec<u8>>, Vec<u8>), ()>)
    ensures
        match r {
            Ok((tsb, p)) => spec_env_fold(spec_fields_view(fields@), None, Seq::empty()) == Some(
                (spec_opt_bytes_view(tsb), p@),
            ),
            Err(_) => spec_env_fold(spec_fields_view(fields@), None, Seq::empty()) is None,
        },
{
    let ghost all = spec_fields_view(fields@);
    let mut tsb: Option<Vec<u8>> = None;
    let mut payload: Vec<u8> = Vec::new();
    let mut idx: usize = 0;
    proof {
        assert(all.skip(0) =~= all);
    }
    while idx < fields.len()
        invariant
            idx <= fields@.len(),
            all == spec_fields_view(fields@),
            spec_env_fold(all, None, Seq::empty()) == spec_env_fold(
                all.skip(idx as int),
                spec_opt_bytes_view(tsb),
                payload@,
            ),
        decreases fields@.len() - idx,
    {
        let ghost suf = all.skip(idx as int);
        proof {
            assert(suf[0] == fields@[idx as int]@);
            assert(suf.drop_first() =~= all.skip(idx + 1));
        }
        let f = &fields[idx];
        if f.number == 1 {
            match &f.value {
                WireValue::Len(b) => {
                    tsb = Some(slice_to_vec(b.as_slice()));
                },
                _ => {
                    return Err(());
                },
            }
        } else if f.number == 2 {
            match &f.value {
                WireValue::Len(b) => {
                    payload = slice_to_vec(b.as_slice());
                },
                _ => {
                    return Err(());
                },
            }
        }
        idx = idx + 1;
    }
    proof {
        assert(all.skip(idx as int) =~= Seq::<SpecWireField>::empty());
    }
    Ok((tsb, payload))
}

/// Interpret parsed fields as a timestamp message, mirroring
/// `spec_ts_fold`.
fn ts_fold_exec(fields: &Vec<WireField>) -> (r: Result<(i64, i32), ()>)
    ensures
        match r {
            Ok((s, n)) => spec_ts_fold(spec_fields_view(fields@), 0, 0) == Some((s, n)),
            Err(_) => spec_ts_fold(spec_fields_view(fields@), 0, 0) is None,
        },
{
    let ghost all = spec_fields_view(fields@);
    let mut s: i64 = 0;
    let mut n: i32 = 0;
    let mut idx: usize = 0;
    proof {
        assert(all.skip(0) =~= all);
    }
    while idx < fields.len()
        invariant
            idx <= fields@.len(),
            all == spec_fields_view(fields@),
            spec_ts_fold(all, 0, 0) == spec_ts_fold(all.skip(idx as int), s, n),
        decreases fields@.len() - idx,
    {
        let ghost suf = all.skip(idx as int);
        proof {
            assert(suf[0] == fields@[idx as int]@);
            assert(suf.drop_first() =~= all.skip(idx + 1));
        }
        let f = &fields[idx];
        if f.number == 1 {
            match &f.value {
                WireValue::Varint(v) => {
                    s = #[verifier::truncate] (*v as i64);
                },
                _ => {
                    return Err(());
                },
            }
        } else if f.number == 2 {
            match &f.value {
                WireValue::Varint(v) => {
                    n = #[verifier::truncate] (*v as i32);
                },
                _ => {
                    return Err(());
                },
            }
        }
        idx = idx + 1;
    }
    proof {
        assert(all.skip(idx as int) =~= Seq::<SpecWireField>::empty());
    }
    Ok((s, n))
}

fn envelope_error_message() -> (r: String)
    ensures
        r@ == "bytes are not a well-formed envelope"@,
{
    let mut m = String::new();
    m.append("bytes are not a well-formed envelope");
    m
}

/// Decode envelope bytes into the timestamp, if present on the wire, and
/// the payload. Succeeds exactly when `spec_parse_envelope` does.
pub fn decode_envelope(bytes: &[u8]) -> (r: Result<Envelope, Error>)
    ensures
        match r {
            Ok(env) => spec_parse_envelope(bytes@) == Some(env@),
            Err(e) => spec_parse_envelope(bytes@) is None && e is EnvelopeDecodeError,
        },
{
    let fields = match parse_fields(bytes) {
        Ok(fs) => fs,
        Err(_) => {
            return Err(Error::EnvelopeDecodeError(envelope_error_message()));
        },
    };
    let (tsb, payload) = match env_fold_exec(&fields) {
        Ok(t) => t,
        Err(_) => {
            return Err(Error::EnvelopeDecodeError(envelope_error_message()));
        },
    };
    match tsb {
        None => Ok(Envelope { enclosed_at: None, payload }),
        Some(b) => {
            let tfields = match parse_fields(b.as_slice()) {
                Ok(fs) => fs,
                Err(_) => {
                    return Err(Error::EnvelopeDecodeError(envelope_error_message()));
                },
            };
            let (s, n) = match ts_fold_exec(&tfields) {
                Ok(t) => t,
                Err(_) => {
                    return Err(Error::EnvelopeDecodeError(envelope_error_message()));
                },
            };
            Ok(
                Envelope {
                    enclosed_at: Some(WireTimestamp { seconds: s, nanos: n }),
                    payload,
                },
            )
        },
    }
}

/// Unwrap an envelope with a caller-supplied receive time. Returns the
/// receive time, the enclosure time in nanoseconds, and the payload; fails
/// exactly when the bytes are not a well-formed envelope, when the wire
/// carries no timestamp, or when the recomposed nanosecond count does not
/// fit an `i64`.
pub fn uncover_at(message: &[u8], received_at: i64) -> (r: Result<(i64, i64, Vec<u8>), Error>)
    ensures
        match r {
            Ok((ra, ea, p)) => {
                &&& spec_parse_envelope(message@) matches Some((Some((s, n)), pp))
                    && ea == s * 1_000_000_000 + n && p@ == pp
                &&& ra == received_at
            },
            Err(e) => match spec_parse_envelope(message@) {
                None => e is EnvelopeDecodeError,
                Some((tso, _)) => match tso {
                    None => e is InvalidTimestamp,
                    Some((s, n)) => !(i64::MIN <= s * 1_000_000_000 + n <= i64::MAX)
                        && e is InvalidTimestamp,
                },
            },
        },
{
    let env = match decode_envelope(message) {
        Ok(env) => env,
        Err(e) => {
            return Err(e);
        },
    };
    match env.enclosed_at {
        None => Err(Error::InvalidTimestamp),
        Some(ts) => {
            let v: i128 = (ts.seconds as i128) * 1_000_000_000 + (ts.nanos as i128);
            if v < i64::MIN as i128 || v > i64::MAX as i128 {
                Err(Error::InvalidTimestamp)
            } else {
                let ea = timestamp_to_nanos(&ts);
                Ok((received_at, ea, env.payload))
            }
        },
    }
}

/// Unwrap an envelope: the receive time is captured from the local clock at
/// uncover time, not carried on the wire.
pub fn uncover(message: &[u8]) -> (r: Result<(i64, i64, Vec<u8>), Error>)
    ensures
        match r {
            Ok((ra, ea, p)) => {
                &&& spec_parse_envelope(message@) matches Some((Some((s, n)), pp))
                    && ea == s * 1_000_000_000 + n && p@ == pp
                &&& ra >= 0
            },
            Err(e) => {
                &&& e is EnvelopeDecodeError || e is InvalidTimestamp
                &&& e is EnvelopeDecodeError ==> spec_parse_envelope(message@) is None
            },
        },
{
    let received_at = match current_time_nanos() {
        Ok(n) => n,
        Err(e) => {
            return Err(e);
        },
    };
    uncover_at(message, received_at)
}

/// Round trip: parsing a canonical envelope encoding yields the timestamp
/// halves and the payload that were encoded, and the halves recompose to
/// the original nanosecond count.
pub proof fn lemma_envelope_roundtrip(t: i64, payload: Seq<u8>)
    requires
        payload.len() < 0x1_0000_0000_0000_0000,
    ensures
        spec_parse_envelope(spec_encode_envelope(Some(spec_split_nanos(t)), payload)) == Some(
            (Some(spec_split_nanos(t)), payload),
        ),
        spec_split_nanos(t).0 * 1_000_000_000 + spec_split_nanos(t).1 == t,
{
    lemma_split_nanos(t as int);
    let (s, n) = spec_split_nanos(t);
    lemma_ts_roundtrip(s, n);
    let tsb = spec_ts_enc(s, n);
    let fs = spec_env_fields(Some((s, n)), payload);
    let f1 = SpecWireField { number: 1, value: SpecWireValue::Len(tsb) };
    assert(spec_field_valid(f1)) by {
        lemma_ts_enc_len(s, n);
    };
    let e = Seq::<SpecWireField>::empty();
    if payload.len() > 0 {
        let f2 = SpecWireField { number: 2, value: SpecWireValue::Len(payload) };
        assert(fs =~= seq![f1, f2]);
        assert(forall|i: int| 0 <= i < fs.len() ==> spec_field_valid(#[trigger] fs[i]));
        crate::wire::lemma_fields_roundtrip(fs);
        assert(fs.drop_first() =~= seq![f2]);
        assert(seq![f2].drop_first() =~= e);
        assert(fs[0] == f1 && seq![f2][0] == f2);
        assert(spec_env_fold(e, Some(tsb), payload) == Some((Some(tsb), payload)));
        assert(spec_env_fold(seq![f2], Some(tsb), Seq::empty()) == spec_env_fold(
            e,
            Some(tsb),
            payload,
        ));
        assert(spec_env_fold(fs, None, Seq::empty()) == spec_env_fold(
            seq![f2],
            Some(tsb),
            Seq::empty(),
        ));
        assert(spec_env_fold(fs, None, Seq::empty()) == Some((Some(tsb), payload)));
    } else {
        assert(fs =~= seq![f1]);
        assert(forall|i: int| 0 <= i < fs.len() ==> spec_field_valid(#[trigger] fs[i]));
        crate::wire::lemma_fields_roundtrip(fs);
        assert(fs.drop_first() =~= e);
        assert(fs[0] == f1);
        assert(spec_env_fold(e, Some(tsb), Seq::empty()) == Some((Some(tsb), Seq::<u8>::empty())));
        assert(spec_env_fold(fs, None, Seq::empty()) == spec_env_fold(e, Some(tsb), Seq::empty()));
        assert(payload =~= Seq::<u8>::empty());
        assert(spec_env_fold(fs, None, Seq::empty()) == Some((Some(tsb), payload)));
    }
}

/// The timestamp encoding is at most 22 bytes.
proof fn lemma_ts_enc_len(s: i64, n: i32)
    ensures
        spec_ts_enc(s, n).len() <= 22,
{
    lemma_ts_enc_shape(s, n);
    crate::wire::lemma_varint_roundtrip(8, Seq::empty());
    crate::wire::lemma_varint_roundtrip(16, Seq::empty());
    crate::wire::lemma_varint_roundtrip(s as u64, Seq::empty());
    crate::wire::lemma_varint_roundtrip((n as i64) as u64, Seq::empty());
}

/// The envelope encoding adds at most 64 bytes around the payload.
pub proof fn lemma_env_enc_len(ts: (i64, i32), payload: Seq<u8>)
    requires
        payload.len() < 0x1_0000_0000_0000_0000,
    ensures
        spec_encode_envelope(Some(ts), payload).len() <= payload.len() + 64,
{
    let (s, n) = ts;
    lemma_env_enc_shape(Some(ts), payload);
    lemma_ts_enc_len(s, n);
    let tsb = spec_ts_enc(s, n);
    let f1 = SpecWireField { number: 1, value: SpecWireValue::Len(tsb) };
    crate::wire::lemma_varint_roundtrip(10, Seq::empty());
    crate::wire::lemma_varint_roundtrip(18, Seq::empty());
    crate::wire::lemma_varint_roundtrip(tsb.len() as u64, Seq::empty());
    crate::wire::lemma_varint_roundtrip(payload.len() as u64, Seq::empty());
    assert((tsb.len() as u64) as nat == tsb.len());
    assert((payload.len() as u64) as nat == payload.len());
    assert(crate::wire::spec_field_enc(f1).len() <= 42);
    if payload.len() > 0 {
        let f2 = SpecWireField { number: 2, value: SpecWireValue::Len(payload) };
        assert(crate::wire::spec_field_enc(f2).len() <= 20 + payload.len());
    }
}

/// Round trip of the timestamp message alone: parsing the canonical
/// encoding of the split halves gives the halves back.
proof fn lemma_ts_roundtrip(s: i64, n: i32)
    ensures
        (match spec_parse_fields(spec_ts_enc(s, n)) {
            Some(tfs) => spec_ts_fold(tfs, 0, 0) == Some((s, n)),
            None => false,
        }),
{
    let fs = spec_ts_fields(s, n);
    let f1 = SpecWireField { number: 1, value: SpecWireValue::Varint(s as u64) };
    let f2 = SpecWireField { number: 2, value: SpecWireValue::Varint((n as i64) as u64) };
    assert(forall|i: int| 0 <= i < fs.len() ==> spec_field_valid(#[trigger] fs[i])) by {
        if s != 0 && n != 0 {
            assert(fs =~= seq![f1, f2]);
        } else if s != 0 {
            assert(fs =~= seq![f1]);
        } else if n != 0 {
            assert(fs =~= seq![f2]);
        } else {
            assert(fs =~= Seq::<SpecWireField>::empty());
        }
    };
    crate::wire::lemma_fields_roundtrip(fs);
    assert((s as u64) as i64 == s) by (bit_vector);
    assert((((n as i64) as u64)) as i32 == n) by (bit_vector);
    let e = Seq::<SpecWireField>::empty();
    assert(spec_ts_fold(e, s, n) == Some((s, n)));
    if s != 0 && n != 0 {
        assert(fs =~= seq![f1, f2]);
        assert(fs.drop_first() =~= seq![f2]);
        assert(seq![f2].drop_first() =~= e);
        assert(fs[0] == f1 && seq![f2][0] == f2);
        assert(spec_ts_fold(seq![f2], s, 0) == spec_ts_fold(e, s, n));
        assert(spec_ts_fold(fs, 0, 0) == spec_ts_fold(seq![f2], s, 0));
        assert(spec_ts_fold(fs, 0, 0) == Some((s, n)));
    } else if s != 0 {
        assert(fs =~= seq![f1]);
        assert(fs.drop_first() =~= e);
        assert(fs[0] == f1);
        assert(spec_ts_fold(fs, 0, 0) == spec_ts_fold(e, s, 0));
        assert(spec_ts_fold(fs, 0, 0) == Some((s, n)));
    } else if n != 0 {
        assert(fs =~= seq![f2]);
        assert(fs.drop_first() =~= e);
        assert(fs[0] == f2);
        assert(spec_ts_fold(fs, 0, 0) == spec_ts_fold(e, 0, n));
        assert(spec_ts_fold(fs, 0, 0) == Some((s, n)));
    } else {
        assert(fs =~= e);
        assert(spec_ts_fold(fs, 0, 0) == Some((s, n)));
    }
}

/// Ordering: when the enclosure time and the receive time are sampled from
/// a non-decreasing clock, in causal order, unwrapping an envelope that was
/// wrapped at the earlier sample reports a receive time at least the
/// enclosure time.
pub proof fn lemma_received_not_before_enclosed(t: i64, received_at: i64, payload: Seq<u8>)
    requires
        t <= received_at,
        payload.len() < 0x1_0000_0000_0000_0000,
    ensures
        (match spec_parse_envelope(spec_encode_envelope(Some(spec_split_nanos(t)), payload)) {
            Some((Some((s, n)), _)) => s * 1_000_000_000 + n <= received_at,
            _ => false,
        }),
{
    lemma_envelope_roundtrip(t, payload);
}

} // verus!
