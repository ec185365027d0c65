//! The binary wire format shared by the envelope codec and the reflection
//! decoder: base-128 varints and tagged fields, as used by protobuf.

use vstd::prelude::*;
use vstd::arithmetic::power2::pow2;
use vstd::bytes::{spec_u32_from_le_bytes, spec_u32_to_le_bytes, spec_u64_from_le_bytes,
    spec_u64_to_le_bytes, u32_from_le_bytes, u64_from_le_bytes};
use vstd::slice::{slice_index_get, slice_subrange, slice_to_vec};

verus! {

/// Canonical base-128 encoding of `v`: seven value bits per byte, least
/// significant group first, the high bit of a byte marking continuation.
pub open spec fn spec_varint(v: nat) -> Seq<u8>
    decreases v,
{
    if v < 128 {
        seq![v as u8]
    } else {
        proof {
            vstd::arithmetic::div_mod::lemma_div_is_strictly_smaller(v as int, 128);
        }
        seq![(v % 128 + 128) as u8] + spec_varint(v / 128)
    }
}

/// The value of a complete varint byte sequence: the low seven bits of each
/// byte, least significant byte first.
pub open spec fn spec_varint_value(s: Seq<u8>) -> nat
    decreases s.len(),
{
    if s.len() == 0 {
        0
    } else {
        ((s[0] % 128) as nat) + 128 * spec_varint_value(s.drop_first())
    }
}

/// Byte length of the varint at the start of `s`: one more than the number of
/// leading continuation bytes, provided a final byte comes before `s` ends.
pub open spec fn spec_varint_size(s: Seq<u8>) -> Option<int>
    decreases s.len(),
{
    if s.len() == 0 {
        None
    } else if s[0] < 128 {
        Some(1int)
    } else {
        match spec_varint_size(s.drop_first()) {
            None => None,
            Some(n) => Some(n + 1),
        }
    }
}

/// The varint at the start of `s` and its byte length. The decoder is
/// strict: at most ten bytes, and the value must fit in 64 bits, which is
/// exactly what canonical encodings of `u64` values look like.
pub open spec fn spec_parse_varint(s: Seq<u8>) -> Option<(u64, int)> {
    match spec_varint_size(s) {
        None => None,
        Some(n) => {
            if n <= 10 && spec_varint_value(s.take(n)) < 0x1_0000_0000_0000_0000 {
                Some((spec_varint_value(s.take(n)) as u64, n))
            } else {
                None
            }
        },
    }
}

pub proof fn lemma_varint_size_bounds(s: Seq<u8>)
    ensures
        spec_varint_size(s) matches Some(n) ==> 1 <= n <= s.len(),
    decreases s.len(),
{
    if s.len() > 0 && s[0] >= 128 {
        lemma_varint_size_bounds(s.drop_first());
    }
}

/// Unfolding of `spec_parse_varint` on a final byte.
proof fn lemma_parse_varint_final(s: Seq<u8>)
    requires
        s.len() > 0,
        s[0] < 128,
    ensures
        spec_parse_varint(s) == Some((s[0] as u64, 1int)),
{
    let t = s.take(1);
    assert(t.drop_first() =~= Seq::<u8>::empty());
    assert(spec_varint_value(t.drop_first()) == 0);
    assert(t[0] == s[0]);
    assert(spec_varint_value(t) == ((s[0] % 128) as nat));
}

/// Unfolding of `spec_parse_varint` on a continuation byte: the tail is a
/// varint of its own, and the value recombines from the tail's value.
proof fn lemma_parse_varint_cont(s: Seq<u8>)
    requires
        s.len() > 0,
        s[0] >= 128,
    ensures
        spec_parse_varint(s) == (match spec_parse_varint(s.drop_first()) {
            None => None::<(u64, int)>,
            Some((v, n)) => {
                if n + 1 <= 10 && (s[0] % 128) + 128 * v < 0x1_0000_0000_0000_0000 {
                    Some((((s[0] % 128) + 128 * v) as u64, n + 1))
                } else {
                    None
                }
            },
        }),
{
    let t = s.drop_first();
    lemma_varint_size_bounds(t);
    match spec_varint_size(t) {
        None => {
            assert(spec_varint_size(s) is None);
        },
        Some(m) => {
            assert(spec_varint_size(s) == Some(m + 1));
            // Relate the value of s.take(m + 1) to the value of t.take(m).
            assert(s.take(m + 1).drop_first() =~= t.take(m));
            assert(s.take(m + 1)[0] == s[0]);
            assert(spec_varint_value(s.take(m + 1)) == ((s[0] % 128) as nat) + 128
                * spec_varint_value(t.take(m)));
            if m > 10 {
                // both sides reject on size
                assert(spec_parse_varint(s) is None);
            }
        },
    }
}

/// Encoded varints are between one and `k` bytes long when the value is
/// below `pow2(7 * k)`.
proof fn lemma_spec_varint_len(v: nat, k: nat)
    requires
        k >= 1,
        v < pow2(7 * k),
    ensures
        1 <= spec_varint(v).len() <= k,
    decreases v,
{
    vstd::arithmetic::power2::lemma2_to64();
    if v < 128 {
    } else {
        assert(k >= 2) by {
            if k == 1 {
                assert(pow2(7) == 128);
            }
        };
        assert(pow2(7 * k) == 128 * pow2((7 * (k - 1)) as nat)) by {
            vstd::arithmetic::power2::lemma_pow2_adds(7, (7 * (k - 1)) as nat);
            assert(7 + 7 * (k - 1) == 7 * k) by (nonlinear_arith)
                requires k >= 2;
            assert(pow2(7) == 128);
        };
        assert(v / 128 < pow2((7 * (k - 1)) as nat)) by {
            vstd::arithmetic::div_mod::lemma_multiply_divide_lt(
                v as int,
                128,
                pow2((7 * (k - 1)) as nat) as int,
            );
        };
        vstd::arithmetic::div_mod::lemma_div_is_strictly_smaller(v as int, 128);
        lemma_spec_varint_len(v / 128, (k - 1) as nat);
    }
}

/// Canonical encodings round-trip: parsing an encoded `u64` from the front
/// of any byte sequence yields the value back and consumes exactly the
/// encoding.
pub proof fn lemma_varint_roundtrip(v: u64, rest: Seq<u8>)
    ensures
        1 <= spec_varint(v as nat).len() <= 10,
        spec_parse_varint(spec_varint(v as nat) + rest) == Some(
            (v, spec_varint(v as nat).len() as int),
        ),
    decreases v,
{
    assert(v < pow2(70)) by {
        vstd::arithmetic::power2::lemma2_to64();
        vstd::arithmetic::power2::lemma_pow2_strictly_increases(64, 70);
    };
    lemma_spec_varint_len(v as nat, 10);
    let e = spec_varint(v as nat);
    let s = e + rest;
    if v < 128 {
        assert(s[0] == v as u8);
        lemma_parse_varint_final(s);
    } else {
        let b = (v as nat % 128 + 128) as u8;
        let v2 = v / 128;
        vstd::arithmetic::div_mod::lemma_div_is_strictly_smaller(v as int, 128);
        lemma_varint_roundtrip(v2, rest);
        assert(s.drop_first() =~= spec_varint(v2 as nat) + rest);
        assert(s[0] == b && b >= 128);
        lemma_parse_varint_cont(s);
        vstd::arithmetic::div_mod::lemma_fundamental_div_mod(v as int, 128);
        assert((s[0] % 128) + 128 * v2 == v);
    }
}

/// Decode the varint that starts at index `i` of `s`, returning the value
/// and the index just past it.
pub fn parse_varint(s: &[u8], i: usize) -> (r: Result<(u64, usize), ()>)
    requires
        i <= s@.len(),
    ensures
        match r {
            Ok((v, j)) => {
                &&& i < j <= s@.len()
                &&& spec_parse_varint(s@.skip(i as int)) == Some((v, j - i))
            },
            Err(_) => spec_parse_varint(s@.skip(i as int)) is None,
        },
    decreases s@.len() - i,
{
    if i == s.len() {
        assert(s@.skip(i as int) =~= Seq::<u8>::empty());
        return Err(());
    }
    let b = *slice_index_get(s, i);
    let ghost tail = s@.skip(i as int);
    assert(tail[0] == b);
    if b < 128 {
        proof {
            lemma_parse_varint_final(tail);
        }
        Ok((b as u64, i + 1))
    } else {
        proof {
            lemma_parse_varint_cont(tail);
            assert(tail.drop_first() =~= s@.skip(i + 1));
        }
        match parse_varint(s, i + 1) {
            Err(e) => Err(e),
            Ok((hi, j)) => {
                let low = (b % 128) as u64;
                if hi >= 0x200_0000_0000_0000 {
                    // the combined value does not fit in 64 bits
                    proof {
                        assert(low + 128 * hi >= 0x1_0000_0000_0000_0000);
                    }
                    Err(())
                } else if j - i > 10 {
                    Err(())
                } else {
                    proof {
                        assert(low + 128 * hi < 0x1_0000_0000_0000_0000);
                    }
                    Ok((low + 128 * hi, j))
                }
            },
        }
    }
}

/// Append the canonical varint encoding of `v` to `out`.
pub fn write_varint(out: &mut Vec<u8>, v: u64)
    ensures
        final(out)@ == old(out)@ + spec_varint(v as nat),
{
    let mut x = v;
    while x >= 128
        invariant
            old(out)@ + spec_varint(v as nat) =~= out@ + spec_varint(x as nat),
        decreases x,
    {
        let b = (x % 128 + 128) as u8;
        proof {
            assert(spec_varint(x as nat) == seq![b] + spec_varint((x / 128) as nat));
        }
        out.push(b);
        x = x / 128;
        proof {
            assert(old(out)@ + spec_varint(v as nat) =~= out@ + spec_varint(x as nat));
        }
    }
    out.push(x as u8);
    proof {
        assert(spec_varint(x as nat) == seq![x as u8]);
        assert(out@ =~= old(out)@ + spec_varint(v as nat));
    }
}


/// A single wire-format value, at the spec level.
pub enum SpecWireValue {
    Varint(u64),
    Fixed64(u64),
    Len(Seq<u8>),
    Fixed32(u32),
}

/// A numbered field holding a wire-format value, at the spec level.
pub struct SpecWireField {
    pub number: u64,
    pub value: SpecWireValue,
}

/// A single wire-format value.
pub enum WireValue {
    Varint(u64),
    Fixed64(u64),
    Len(Vec<u8>),
    Fixed32(u32),
}

impl View for WireValue {
    type V = SpecWireValue;

    open spec fn view(&self) -> SpecWireValue {
        match self {
            WireValue::Varint(v) => SpecWireValue::Varint(*v),
            WireValue::Fixed64(v) => SpecWireValue::Fixed64(*v),
            WireValue::Len(b) => SpecWireValue::Len(b@),
            WireValue::Fixed32(v) => SpecWireValue::Fixed32(*v),
        }
    }
}

/// A numbered field holding a wire-format value.
pub struct WireField {
    pub number: u64,
    pub value: WireValue,
}

impl View for WireField {
    type V = SpecWireField;

    open spec fn view(&self) -> SpecWireField {
        SpecWireField { number: self.number, value: self.value@ }
    }
}

/// The views of a sequence of parsed fields.
pub open spec fn spec_fields_view(fs: Seq<WireField>) -> Seq<SpecWireField> {
    fs.map_values(|f: WireField| f@)
}

pub proof fn lemma_parse_varint_bounds(s: Seq<u8>)
    ensures
        spec_parse_varint(s) matches Some((v, n)) ==> 1 <= n <= s.len(),
{
    lemma_varint_size_bounds(s);
}

/// Parse a byte sequence as a series of tagged fields: each field is a
/// varint tag holding the field number and the wire type, followed by a
/// value of that wire type. Field number zero and wire types other than
/// varint, 64-bit, length-delimited and 32-bit are rejected.
pub open spec fn spec_parse_fields(s: Seq<u8>) -> Option<Seq<SpecWireField>>
    decreases s.len(),
{
    if s.len() == 0 {
        Some(Seq::empty())
    } else {
        match spec_parse_varint(s) {
            None => None,
            Some((tag, tn)) => {
                let number = tag / 8;
                let rest = s.skip(tn);
                if number == 0 {
                    None
                } else if tag % 8 == 0 {
                    match spec_parse_varint(rest) {
                        None => None,
                        Some((v, vn)) => {
                            proof {
                                lemma_parse_varint_bounds(s);
                                lemma_parse_varint_bounds(rest);
                            }
                            match spec_parse_fields(rest.skip(vn)) {
                                None => None,
                                Some(fs) => Some(
                                    seq![
                                        SpecWireField {
                                            number: number,
                                            value: SpecWireValue::Varint(v),
                                        },
                                    ] + fs,
                                ),
                            }
                        },
                    }
                } else if tag % 8 == 1 {
                    if rest.len() < 8 {
                        None
                    } else {
                        proof {
                            lemma_parse_varint_bounds(s);
                        }
                        match spec_parse_fields(rest.skip(8)) {
                            None => None,
                            Some(fs) => Some(
                                seq![
                                    SpecWireField {
                                        number: number,
                                        value: SpecWireValue::Fixed64(
                                            spec_u64_from_le_bytes(rest.take(8)),
                                        ),
                                    },
                                ] + fs,
                            ),
                        }
                    }
                } else if tag % 8 == 2 {
                    match spec_parse_varint(rest) {
                        None => None,
                        Some((l, ln)) => {
                            let body = rest.skip(ln);
                            if l > body.len() {
                                None
                            } else {
                                proof {
                                    lemma_parse_varint_bounds(s);
                                    lemma_parse_varint_bounds(rest);
                                }
                                match spec_parse_fields(body.skip(l as int)) {
                                    None => None,
                                    Some(fs) => Some(
                                        seq![
                                            SpecWireField {
                                                number: number,
                                                value: SpecWireValue::Len(body.take(l as int)),
                                            },
                                        ] + fs,
                                    ),
                                }
                            }
                        },
                    }
                } else if tag % 8 == 5 {
                    if rest.len() < 4 {
                        None
                    } else {
                        proof {
                            lemma_parse_varint_bounds(s);
                        }
                        match spec_parse_fields(rest.skip(4)) {
                            None => None,
                            Some(fs) => Some(
                                seq![
                                    SpecWireField {
                                        number: number,
                                        value: SpecWireValue::Fixed32(
                                            spec_u32_from_le_bytes(rest.take(4)),
                                        ),
                                    },
                                ] + fs,
                            ),
                        }
                    }
                } else {
                    None
                }
            },
        }
    }
}

/// The wire type encoded into a field tag.
pub open spec fn spec_wt(v: SpecWireValue) -> u64 {
    match v {
        SpecWireValue::Varint(_) => 0,
        SpecWireValue::Fixed64(_) => 1,
        SpecWireValue::Len(_) => 2,
        SpecWireValue::Fixed32(_) => 5,
    }
}

/// A field whose tag fits a `u64` and whose length-delimited value, if any,
/// has a length that fits a `u64`.
pub open spec fn spec_field_valid(f: SpecWireField) -> bool {
    &&& 1 <= f.number < 0x2000_0000_0000_0000
    &&& (f.value matches SpecWireValue::Len(b) ==> b.len() < 0x1_0000_0000_0000_0000)
}

/// Canonical encoding of one field: the tag varint, then the value.
pub open spec fn spec_field_enc(f: SpecWireField) -> Seq<u8> {
    spec_varint((f.number * 8 + spec_wt(f.value)) as nat) + (match f.value {
        SpecWireValue::Varint(v) => spec_varint(v as nat),
        SpecWireValue::Fixed64(v) => spec_u64_to_le_bytes(v),
        SpecWireValue::Len(b) => spec_varint(b.len()) + b,
        SpecWireValue::Fixed32(v) => spec_u32_to_le_bytes(v),
    })
}

/// Canonical encoding of a field sequence, in order.
pub open spec fn spec_fields_enc(fs: Seq<SpecWireField>) -> Seq<u8>
    decreases fs.len(),
{
    if fs.len() == 0 {
        Seq::empty()
    } else {
        spec_field_enc(fs[0]) + spec_fields_enc(fs.drop_first())
    }
}


/// The encoding of a one-field sequence is the field's encoding.
pub proof fn lemma_fields_enc_singleton(f: SpecWireField)
    ensures
        spec_fields_enc(seq![f]) == spec_field_enc(f),
{
    assert(seq![f].drop_first() =~= Seq::<SpecWireField>::empty());
    assert(spec_fields_enc(Seq::<SpecWireField>::empty()) =~= Seq::<u8>::empty());
    assert(spec_fields_enc(seq![f]) =~= spec_field_enc(f));
}

/// The encoding of a two-field sequence is the two encodings in order.
pub proof fn lemma_fields_enc_pair(f: SpecWireField, g: SpecWireField)
    ensures
        spec_fields_enc(seq![f, g]) == spec_field_enc(f) + spec_field_enc(g),
{
    lemma_fields_enc_singleton(g);
    assert(seq![f, g].drop_first() =~= seq![g]);
    assert(spec_fields_enc(seq![f, g]) =~= spec_field_enc(f) + spec_field_enc(g));
}

/// Parsing one canonically encoded field from the front of a stream yields
/// that field and leaves the remainder to parse.
proof fn lemma_field_roundtrip(f: SpecWireField, rest: Seq<u8>)
    requires
        spec_field_valid(f),
    ensures
        spec_parse_fields(spec_field_enc(f) + rest) == (match spec_parse_fields(rest) {
            None => None::<Seq<SpecWireField>>,
            Some(fs) => Some(seq![f] + fs),
        }),
{
    let wt = spec_wt(f.value);
    let tag = (f.number * 8 + wt) as u64;
    let tagb = spec_varint(tag as nat);
    let vb = (match f.value {
        SpecWireValue::Varint(v) => spec_varint(v as nat),
        SpecWireValue::Fixed64(v) => spec_u64_to_le_bytes(v),
        SpecWireValue::Len(b) => spec_varint(b.len()) + b,
        SpecWireValue::Fixed32(v) => spec_u32_to_le_bytes(v),
    });
    let s = spec_field_enc(f) + rest;
    assert(s =~= tagb + (vb + rest));
    lemma_varint_roundtrip(tag, vb + rest);
    assert(spec_parse_varint(s) == Some((tag, tagb.len() as int)));
    assert(s.skip(tagb.len() as int) =~= vb + rest);
    assert(tag == f.number * 8 + wt);
    assert(tag / 8 == f.number && tag % 8 == wt) by {
        vstd::arithmetic::div_mod::lemma_fundamental_div_mod_converse(
            tag as int,
            8,
            f.number as int,
            wt as int,
        );
    };
    assert(s.len() > 0);
    let body = vb + rest;
    match f.value {
        SpecWireValue::Varint(v) => {
            lemma_varint_roundtrip(v, rest);
            assert(body =~= spec_varint(v as nat) + rest);
            assert(body.skip(spec_varint(v as nat).len() as int) =~= rest);
        },
        SpecWireValue::Fixed64(v) => {
            vstd::bytes::lemma_auto_spec_u64_to_from_le_bytes();
            assert(spec_u64_to_le_bytes(v).len() == 8);
            assert(body.take(8) =~= spec_u64_to_le_bytes(v));
            assert(spec_u64_from_le_bytes(body.take(8)) == v);
            assert(body.skip(8) =~= rest);
        },
        SpecWireValue::Len(b) => {
            let lv = b.len() as u64;
            lemma_varint_roundtrip(lv, b + rest);
            assert(spec_varint(b.len()) =~= spec_varint(lv as nat));
            assert(body =~= spec_varint(lv as nat) + (b + rest));
            let ln = spec_varint(lv as nat).len() as int;
            assert(spec_parse_varint(body) == Some((lv, ln)));
            assert(body.skip(ln) =~= b + rest);
            assert((b + rest).take(b.len() as int) =~= b);
            assert((b + rest).skip(b.len() as int) =~= rest);
        },
        SpecWireValue::Fixed32(v) => {
            vstd::bytes::lemma_auto_spec_u32_to_from_le_bytes();
            assert(spec_u32_to_le_bytes(v).len() == 4);
            assert(body.take(4) =~= spec_u32_to_le_bytes(v));
            assert(spec_u32_from_le_bytes(body.take(4)) == v);
            assert(body.skip(4) =~= rest);
        },
    }
}

/// Canonical encodings of whole field sequences round-trip through the
/// parser.
pub proof fn lemma_fields_roundtrip(fs: Seq<SpecWireField>)
    requires
        forall|i: int| 0 <= i < fs.len() ==> spec_field_valid(#[trigger] fs[i]),
    ensures
        spec_parse_fields(spec_fields_enc(fs)) == Some(fs),
    decreases fs.len(),
{
    if fs.len() == 0 {
        assert(spec_fields_enc(fs) =~= Seq::<u8>::empty());
    } else {
        lemma_fields_roundtrip(fs.drop_first());
        lemma_field_roundtrip(fs[0], spec_fields_enc(fs.drop_first()));
        assert(seq![fs[0]] + fs.drop_first() =~= fs);
    }
}

/// Parse the single field that starts at index `i`, returning the field
/// and the index just past it.
fn parse_one_field(s: &[u8], i: usize) -> (r: Result<(WireField, usize), ()>)
    requires
        i < s@.len(),
    ensures
        match r {
            Ok((f, ni)) => {
                &&& i < ni <= s@.len()
                &&& spec_parse_fields(s@.skip(i as int)) == (match spec_parse_fields(
                    s@.skip(ni as int),
                ) {
                    None => None::<Seq<SpecWireField>>,
                    Some(fs) => Some(seq![f@] + fs),
                })
            },
            Err(_) => spec_parse_fields(s@.skip(i as int)) is None,
        },
{
    let ghost suf = s@.skip(i as int);
    assert(suf.len() > 0);
    let (tag, j) = match parse_varint(s, i) {
        Ok(t) => t,
        Err(_) => {
            proof {
                assert(spec_parse_fields(suf) is None);
            }
            return Err(());
        },
    };
    let number = tag / 8;
    let wt = tag % 8;
    let ghost tn = j - i;
    let ghost rest = suf.skip(tn as int);
    proof {
        assert(rest =~= s@.skip(j as int));
    }
    if number == 0 {
        proof {
            assert(spec_parse_fields(suf) is None);
        }
        return Err(());
    }
    if wt == 0 {
        let (v, k) = match parse_varint(s, j) {
            Ok(t) => t,
            Err(_) => {
                proof {
                    assert(spec_parse_fields(suf) is None);
                }
                return Err(());
            },
        };
        proof {
            assert(rest.skip(k - j) =~= s@.skip(k as int));
        }
        Ok((WireField { number: number, value: WireValue::Varint(v) }, k))
    } else if wt == 1 {
        if s.len() - j < 8 {
            proof {
                assert(spec_parse_fields(suf) is None);
            }
            return Err(());
        }
        let v = u64_from_le_bytes(slice_subrange(s, j, j + 8));
        proof {
            assert(rest.take(8) =~= s@.subrange(j as int, j + 8));
            assert(rest.skip(8) =~= s@.skip(j + 8));
        }
        Ok((WireField { number: number, value: WireValue::Fixed64(v) }, j + 8))
    } else if wt == 2 {
        let (l, k) = match parse_varint(s, j) {
            Ok(t) => t,
            Err(_) => {
                proof {
                    assert(spec_parse_fields(suf) is None);
                }
                return Err(());
            },
        };
        proof {
            assert(rest.skip(k - j) =~= s@.skip(k as int));
        }
        if l > (s.len() - k) as u64 {
            proof {
                assert(rest.skip(k - j).len() == s@.len() - k);
                assert(spec_parse_fields(suf) is None);
            }
            return Err(());
        }
        let lu = l as usize;
        let body = slice_to_vec(slice_subrange(s, k, k + lu));
        proof {
            assert(s@.skip(k as int).take(l as int) =~= s@.subrange(k as int, k + l as int));
            assert(s@.skip(k as int).skip(l as int) =~= s@.skip(k + l as int));
        }
        Ok((WireField { number: number, value: WireValue::Len(body) }, k + lu))
    } else if wt == 5 {
        if s.len() - j < 4 {
            proof {
                assert(spec_parse_fields(suf) is None);
            }
            return Err(());
        }
        let v = u32_from_le_bytes(slice_subrange(s, j, j + 4));
        proof {
            assert(rest.take(4) =~= s@.subrange(j as int, j + 4));
            assert(rest.skip(4) =~= s@.skip(j + 4));
        }
        Ok((WireField { number: number, value: WireValue::Fixed32(v) }, j + 4))
    } else {
        proof {
            assert(spec_parse_fields(suf) is None);
        }
        Err(())
    }
}

/// Parse a whole byte sequence into its wire fields. Succeeds exactly when
/// `spec_parse_fields` does, and returns the same fields.
pub fn parse_fields(s: &[u8]) -> (r: Result<Vec<WireField>, ()>)
    ensures
        match r {
            Ok(fields) => spec_parse_fields(s@) == Some(spec_fields_view(fields@)),
            Err(_) => spec_parse_fields(s@) is None,
        },
{
    let mut out: Vec<WireField> = Vec::new();
    let mut i: usize = 0;
    proof {
        assert(s@.skip(0) =~= s@);
        assert(spec_fields_view(out@) =~= Seq::<SpecWireField>::empty());
    }
    while i < s.len()
        invariant
            i <= s@.len(),
            spec_parse_fields(s@) == (match spec_parse_fields(s@.skip(i as int)) {
                None => None::<Seq<SpecWireField>>,
                Some(fs) => Some(spec_fields_view(out@) + fs),
            }),
        decreases s@.len() - i,
    {
        let (field, ni) = match parse_one_field(s, i) {
            Ok(t) => t,
            Err(_) => {
                return Err(());
            },
        };
        let ghost old_out = out@;
        out.push(field);
        proof {
            assert(spec_fields_view(out@) =~= spec_fields_view(old_out) + seq![field@]);
            assert(forall|fs: Seq<SpecWireField>|
                (spec_fields_view(old_out) + seq![field@]) + fs =~= spec_fields_view(old_out) + (
                seq![field@] + fs));
        }
        i = ni;
    }
    proof {
        assert(s@.skip(i as int) =~= Seq::<u8>::empty());
        assert(spec_parse_fields(s@.skip(i as int)) == Some(Seq::<SpecWireField>::empty()));
        assert(spec_fields_view(out@) + Seq::<SpecWireField>::empty() =~= spec_fields_view(out@));
    }
    Ok(out)
}

} // verus!
