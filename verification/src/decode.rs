//! The value and struct decoders: tag dispatch, container and map
//! decoding with the packed-blob fast path, the field loop with its
//! base/derived linearization, the identifier reconstruction pass, and the
//! struct byte-length check.

use vstd::prelude::*;
use crate::stream::MyReader;
use crate::stream::read_u8_s;
use crate::stream::uleb_decode;
use crate::stream::sleb_decode;
use crate::stream::string_decode;
use crate::stream::wstring_decode;
use crate::stream::field_header_s;
use crate::stream::container_header_s;
use crate::types::BondType;
use crate::types::BondValue;
use crate::types::Guid;
use crate::types::MadeleineError;
use crate::types::ValueModel;
use crate::types::guid_string;
use crate::types::spec_tag_from;
use crate::types::seq_models;
use crate::types::pair_models;
use crate::types::value_model;

verus! {

broadcast use crate::stream::lemma_uleb_bounds;

/// The bytes of a packed blob, one `Uint8` element per byte.
pub open spec fn blob_decode(s: Seq<u8>, i: int, c: nat) -> Result<
    (Seq<ValueModel>, int),
    MadeleineError,
> {
    if 0 <= i && i + c <= s.len() {
        Ok((Seq::new(c, |k: int| ValueModel::Uint8(s[i + k])), i + c))
    } else {
        Err(MadeleineError::ReadError)
    }
}

/// A little-endian 32-bit value read from four bytes at `i`.
pub open spec fn le_u32_at(s: Seq<u8>, i: int) -> u32 {
    ((s[i] as int) + 256 * (s[i + 1] as int) + 65536 * (s[i + 2] as int) + 16777216 * (s[i
        + 3] as int)) as u32
}

/// A little-endian 64-bit value read from eight bytes at `i`.
pub open spec fn le_u64_at(s: Seq<u8>, i: int) -> u64 {
    ((s[i] as int) + 256 * (s[i + 1] as int) + 65536 * (s[i + 2] as int) + 16777216 * (s[i
        + 3] as int) + 4294967296 * (s[i + 4] as int) + 1099511627776 * (s[i + 5] as int)
        + 281474976710656 * (s[i + 6] as int) + 72057594037927936 * (s[i + 7] as int)) as u64
}

/// Decodes one value of type `t` at `i`: the value's model and the next
/// position, or the first error the wire data forces.
pub open spec fn spec_value(s: Seq<u8>, i: int, t: BondType) -> Result<
    (ValueModel, int),
    MadeleineError,
>
    decreases s.len() - i, 0int, 3int,
{
    match t {
        BondType::Stop => Ok((ValueModel::Stop, i)),
        BondType::StopBase => Ok((ValueModel::StopBase, i)),
        BondType::Bool => (match read_u8_s(s, i) {
            Err(e) => Err(e),
            Ok((b, e1)) => Ok((ValueModel::Bool(b != 0), e1)),
        }),
        BondType::Uint8 => (match read_u8_s(s, i) {
            Err(e) => Err(e),
            Ok((b, e1)) => Ok((ValueModel::Uint8(b), e1)),
        }),
        BondType::Uint16 => (match uleb_decode(s, i) {
            Err(e) => Err(e),
            Ok((v, e1)) => if v <= u16::MAX as u64 {
                Ok((ValueModel::Uint16(v as u16), e1))
            } else {
                Err(MadeleineError::TryFromIntError)
            },
        }),
        BondType::Uint32 => (match uleb_decode(s, i) {
            Err(e) => Err(e),
            Ok((v, e1)) => if v <= u32::MAX as u64 {
                Ok((ValueModel::Uint32(v as u32), e1))
            } else {
                Err(MadeleineError::TryFromIntError)
            },
        }),
        BondType::Uint64 => (match uleb_decode(s, i) {
            Err(e) => Err(e),
            Ok((v, e1)) => Ok((ValueModel::Uint64(v), e1)),
        }),
        BondType::Float => if 0 <= i && i + 4 <= s.len() {
            Ok((ValueModel::Float(le_u32_at(s, i)), i + 4))
        } else {
            Err(MadeleineError::ReadError)
        },
        BondType::Double => if 0 <= i && i + 8 <= s.len() {
            Ok((ValueModel::Double(le_u64_at(s, i)), i + 8))
        } else {
            Err(MadeleineError::ReadError)
        },
        BondType::String => (match string_decode(s, i) {
            Err(e) => Err(e),
            Ok((cs, e1)) => Ok((ValueModel::String(cs), e1)),
        }),
        BondType::Wstring => (match wstring_decode(s, i) {
            Err(e) => Err(e),
            Ok((cs, e1)) => Ok((ValueModel::Wstring(cs), e1)),
        }),
        BondType::Int8 => (match read_u8_s(s, i) {
            Err(e) => Err(e),
            Ok((b, e1)) => Ok((ValueModel::Int8(b as i8), e1)),
        }),
        BondType::Int16 => (match sleb_decode(s, i) {
            Err(e) => Err(e),
            Ok((n, e1)) => if i16::MIN as i64 <= n && n <= i16::MAX as i64 {
                Ok((ValueModel::Int16(n as i16), e1))
            } else {
                Err(MadeleineError::TryFromIntError)
            },
        }),
        BondType::Int32 => (match sleb_decode(s, i) {
            Err(e) => Err(e),
            Ok((n, e1)) => if i32::MIN as i64 <= n && n <= i32::MAX as i64 {
                Ok((ValueModel::Int32(n as i32), e1))
            } else {
                Err(MadeleineError::TryFromIntError)
            },
        }),
        BondType::Int64 => (match sleb_decode(s, i) {
            Err(e) => Err(e),
            Ok((n, e1)) => Ok((ValueModel::Int64(n), e1)),
        }),
        BondType::List => (match spec_list(s, i, BondType::List) {
            Err(e) => Err(e),
            Ok((es, e1)) => Ok((ValueModel::List(es), e1)),
        }),
        BondType::SetValue => (match spec_list(s, i, BondType::SetValue) {
            Err(e) => Err(e),
            Ok((es, e1)) => Ok((ValueModel::SetValue(es), e1)),
        }),
        BondType::MapValue => (match spec_map(s, i) {
            Err(e) => Err(e),
            Ok((ps, e1)) => Ok((ValueModel::MapValue(ps), e1)),
        }),
        BondType::Struct => spec_struct(s, i, 2),
        BondType::Unavailable => Err(MadeleineError::UnavailableBondType),
    }
}

/// Decodes a list or set payload at `i`: the container header, then either
/// the packed blob of bytes (a `List` of byte-sized elements) or the
/// elements one at a time.
pub open spec fn spec_list(s: Seq<u8>, i: int, container_type: BondType) -> Result<
    (Seq<ValueModel>, int),
    MadeleineError,
>
    decreases s.len() - i, 0int, 2int,
{
    match container_header_s(s, i) {
        Err(e) => Err(e),
        Ok((et, c, e1)) => if !(i < e1 <= s.len()) {
            Err(MadeleineError::ReadError)
        } else if container_type == BondType::List && (et == BondType::Int8 || et
            == BondType::Uint8) {
            blob_decode(s, e1, c as nat)
        } else {
            spec_elems(s, e1, et, c as nat)
        },
    }
}

/// Decodes `c` values of type `t` one after another, starting at `i`.
pub open spec fn spec_elems(s: Seq<u8>, i: int, t: BondType, c: nat) -> Result<
    (Seq<ValueModel>, int),
    MadeleineError,
>
    decreases s.len() - i, c, 4int,
{
    if c == 0 {
        Ok((Seq::empty(), i))
    } else {
        match spec_value(s, i, t) {
            Err(e) => Err(e),
            Ok((m, e1)) => if !(i <= e1 <= s.len()) {
                Err(MadeleineError::ReadError)
            } else {
                match spec_elems(s, e1, t, (c - 1) as nat) {
                    Err(e) => Err(e),
                    Ok((ms, end)) => Ok((seq![m] + ms, end)),
                }
            },
        }
    }
}

/// Decodes a map payload at `i`: two raw tag bytes, masked to their low
/// five bits, then a LEB128 entry count, then the key-value pairs.
pub open spec fn spec_map(s: Seq<u8>, i: int) -> Result<
    (Seq<(ValueModel, ValueModel)>, int),
    MadeleineError,
>
    decreases s.len() - i, 0int, 2int,
{
    match read_u8_s(s, i) {
        Err(e) => Err(e),
        Ok((kb, i1)) => match spec_tag_from(kb % 32) {
            Err(e) => Err(e),
            Ok(kt) => match read_u8_s(s, i1) {
                Err(e) => Err(e),
                Ok((vb, i2)) => match spec_tag_from(vb % 32) {
                    Err(e) => Err(e),
                    Ok(vt) => match uleb_decode(s, i2) {
                        Err(e) => Err(e),
                        Ok((c, i3)) => if !(i < i3 <= s.len()) {
                            Err(MadeleineError::ReadError)
                        } else {
                            spec_pairs(s, i3, kt, vt, c as nat)
                        },
                    },
                },
            },
        },
    }
}

/// Decodes `c` key-value pairs of the given fixed types, starting at `i`.
pub open spec fn spec_pairs(s: Seq<u8>, i: int, kt: BondType, vt: BondType, c: nat) -> Result<
    (Seq<(ValueModel, ValueModel)>, int),
    MadeleineError,
>
    decreases s.len() - i, c, 4int,
{
    if c == 0 {
        Ok((Seq::empty(), i))
    } else {
        match spec_value(s, i, kt) {
            Err(e) => Err(e),
            Ok((km, e1)) => if !(i <= e1 <= s.len()) {
                Err(MadeleineError::ReadError)
            } else {
                match spec_value(s, e1, vt) {
                    Err(e) => Err(e),
                    Ok((vm, e2)) => if !(e1 <= e2 <= s.len()) {
                        Err(MadeleineError::ReadError)
                    } else {
                        match spec_pairs(s, e2, kt, vt, (c - 1) as nat) {
                            Err(e) => Err(e),
                            Ok((ps, end)) => Ok((seq![(km, vm)] + ps, end)),
                        }
                    },
                }
            },
        }
    }
}

/// Decodes one struct field at `i`: its header, then its value. The field
/// id is read but discarded; decoded structs are positional.
pub open spec fn spec_field(s: Seq<u8>, i: int) -> Result<(ValueModel, int), MadeleineError>
    decreases s.len() - i, 0int, 0int,
{
    match field_header_s(s, i) {
        Err(e) => Err(e),
        Ok((t, id, h)) => if !(i < h <= s.len()) {
            Err(MadeleineError::ReadError)
        } else {
            spec_value(s, h, t)
        },
    }
}

/// Runs the struct field loop from `i` with the fields accumulated so far:
/// a `Stop` value ends the loop, a `StopBase` value moves the accumulated
/// fields to the base level and restarts the accumulator, and any other
/// value is appended.
pub open spec fn spec_fields(s: Seq<u8>, i: int, cur: Seq<ValueModel>, base: Seq<ValueModel>) -> Result<
    (Seq<ValueModel>, Seq<ValueModel>, int),
    MadeleineError,
>
    decreases s.len() - i, 0int, 1int,
{
    match spec_field(s, i) {
        Err(e) => Err(e),
        Ok((m, e1)) => if !(i < e1 <= s.len()) {
            Err(MadeleineError::ReadError)
        } else if m is Stop {
            Ok((cur, base, e1))
        } else if m is StopBase {
            spec_fields(s, e1, Seq::empty(), cur)
        } else {
            spec_fields(s, e1, cur.push(m), base)
        },
    }
}

/// Wraps a decoded base field list and a decoded field list as one struct
/// model: a non-empty base level becomes a base struct of its own, with no
/// further base.
pub open spec fn mk_struct_model(base_fields: Seq<ValueModel>, fields: Seq<ValueModel>) -> ValueModel {
    ValueModel::Struct {
        base: if base_fields.len() > 0 {
            Option::Some(
                Box::new(ValueModel::Struct { base: Option::None, fields: base_fields }),
            )
        } else {
            Option::None
        },
        fields,
    }
}

/// One left-to-right pass of the identifier reconstruction heuristic: four
/// consecutive fields of shape `Uint32, Uint16, Uint16, Uint64` collapse
/// into one `Guid`, and scanning continues right after it; any other field
/// is kept and scanning advances by one.
pub open spec fn spec_guid_pass(ms: Seq<ValueModel>) -> Seq<ValueModel>
    decreases ms.len(),
{
    if ms.len() < 4 {
        ms
    } else {
        match (ms[0], ms[1], ms[2], ms[3]) {
            (
                ValueModel::Uint32(a),
                ValueModel::Uint16(b),
                ValueModel::Uint16(c),
                ValueModel::Uint64(d),
            ) => seq![ValueModel::Guid(guid_string(a, b, c, d))] + spec_guid_pass(ms.skip(4)),
            _ => seq![ms[0]] + spec_guid_pass(ms.skip(1)),
        }
    }
}

/// The struct byte-length rule on a final position: when a length prefix
/// and a body start were recorded, the measured span must equal the
/// declared length exactly.
pub open spec fn check_len_s(pos: int, expected_length: Option<u64>, start_pos: Option<u64>) -> Result<
    (),
    MadeleineError,
> {
    match (expected_length, start_pos) {
        (Option::Some(ex), Option::Some(st)) => if pos - st == ex {
            Ok(())
        } else {
            Err(MadeleineError::IncorrectStructLength(ex, (pos - st) as u64))
        },
        _ => Ok(()),
    }
}

/// Decodes a full struct at `i`. At protocol version 2 a LEB128 byte
/// length comes first and the body that follows, up to the position where
/// the field loop stops, must span exactly that many bytes. The fields
/// before a `StopBase` marker become the base level; the identifier
/// heuristic runs over the current level's fields.
pub open spec fn spec_struct(s: Seq<u8>, i: int, version: u8) -> Result<
    (ValueModel, int),
    MadeleineError,
>
    decreases s.len() - i, 0int, 2int,
{
    if version == 2 {
        match uleb_decode(s, i) {
            Err(e) => Err(e),
            Ok((expected, e1)) => if !(i < e1 <= s.len()) {
                Err(MadeleineError::ReadError)
            } else {
                match spec_fields(s, e1, Seq::empty(), Seq::empty()) {
                    Err(e) => Err(e),
                    Ok((fs, bs, end)) => match check_len_s(
                        end,
                        Option::Some(expected),
                        Option::Some(e1 as u64),
                    ) {
                        Err(e) => Err(e),
                        Ok(()) => Ok((mk_struct_model(bs, spec_guid_pass(fs)), end)),
                    },
                }
            },
        }
    } else {
        match spec_fields(s, i, Seq::empty(), Seq::empty()) {
            Err(e) => Err(e),
            Ok((fs, bs, end)) => Ok((mk_struct_model(bs, spec_guid_pass(fs)), end)),
        }
    }
}

/// Appends a decoded prefix to the result of decoding the remaining
/// elements.
pub open spec fn elems_combine(
    prefix: Seq<ValueModel>,
    r: Result<(Seq<ValueModel>, int), MadeleineError>,
) -> Result<(Seq<ValueModel>, int), MadeleineError> {
    match r {
        Err(e) => Err(e),
        Ok((ms, end)) => Ok((prefix + ms, end)),
    }
}

/// Appends decoded pairs to the result of decoding the remaining pairs.
pub open spec fn pairs_combine(
    prefix: Seq<(ValueModel, ValueModel)>,
    r: Result<(Seq<(ValueModel, ValueModel)>, int), MadeleineError>,
) -> Result<(Seq<(ValueModel, ValueModel)>, int), MadeleineError> {
    match r {
        Err(e) => Err(e),
        Ok((ps, end)) => Ok((prefix + ps, end)),
    }
}

/// A value models `Stop` or `StopBase` exactly when it is that marker.
proof fn lemma_model_control(v: BondValue)
    ensures
        value_model(v) is Stop <==> v is Stop,
        value_model(v) is StopBase <==> v is StopBase,
{
    match v {
        BondValue::Guid(_) => {},
        BondValue::Bool(_) => {},
        BondValue::Uint8(_) => {},
        BondValue::Uint16(_) => {},
        BondValue::Uint32(_) => {},
        BondValue::Uint64(_) => {},
        BondValue::Float(_) => {},
        BondValue::Double(_) => {},
        BondValue::Stop => {},
        BondValue::StopBase => {},
        BondValue::List(_) => {},
        BondValue::SetValue(_) => {},
        BondValue::MapValue(_) => {},
        BondValue::String(_) => {},
        BondValue::Wstring(_) => {},
        BondValue::Int8(_) => {},
        BondValue::Int16(_) => {},
        BondValue::Int32(_) => {},
        BondValue::Int64(_) => {},
        BondValue::Struct { .. } => {},
    }
}

/// Decoding a packed blob of `Uint8` bytes and decoding the same bytes as
/// `c` single `Uint8` elements give the same element sequence and the same
/// final position.
pub proof fn lemma_blob_path_equivalence(s: Seq<u8>, i: int, c: nat)
    requires
        0 <= i,
        i + c <= s.len(),
    ensures
        spec_elems(s, i, BondType::Uint8, c) == blob_decode(s, i, c),
    decreases c,
{
    if c == 0 {
        assert(blob_decode(s, i, c)->Ok_0.0 =~= spec_elems(s, i, BondType::Uint8, c)->Ok_0.0);
    } else {
        lemma_blob_path_equivalence(s, i + 1, (c - 1) as nat);
        let m = ValueModel::Uint8(s[i]);
        let tail = blob_decode(s, i + 1, (c - 1) as nat)->Ok_0.0;
        assert(spec_value(s, i, BondType::Uint8) == Ok::<(ValueModel, int), MadeleineError>(
            (m, i + 1),
        ));
        assert(blob_decode(s, i, c)->Ok_0.0 =~= seq![m] + tail);
        assert(spec_elems(s, i, BondType::Uint8, c) == Ok::<
            (Seq<ValueModel>, int),
            MadeleineError,
        >((seq![m] + tail, i + c)));
        assert(blob_decode(s, i, c) == Ok::<(Seq<ValueModel>, int), MadeleineError>(
            (seq![m] + tail, i + c),
        ));
    }
}

/// Reads a packed blob of `count` raw bytes and materializes one `Uint8`
/// element per byte.
#[verifier::loop_isolation(false)]
fn read_blob(reader: &mut MyReader, count: u32) -> (r: Result<Vec<BondValue>, MadeleineError>)
    requires
        old(reader).wf(),
    ensures
        final(reader).wf(),
        final(reader).data@ == old(reader).data@,
        old(reader).pos <= final(reader).pos,
        (match blob_decode(old(reader).data@, old(reader).pos as int, count as nat) {
            Ok(p) => r matches Ok(v) && seq_models(v@) == p.0 && final(reader).pos as int == p.1,
            Err(e) => r matches Err(e2) && e2 == e,
        }),
{
    let bytes = match reader.read_bytes(count as u64) {
        Ok(b) => b,
        Err(e) => {
            return Err(e);
        },
    };
    let mut out: Vec<BondValue> = Vec::new();
    let mut k: usize = 0;
    let n = bytes.len();
    while k < n
        invariant
            n == bytes@.len(),
            k <= n,
            out@.len() == k,
            forall|j: int| 0 <= j < k ==> out@[j] == BondValue::Uint8(bytes@[j]),
        decreases n - k,
    {
        out.push(BondValue::Uint8(bytes[k]));
        k = k + 1;
    }
    proof {
        assert(seq_models(out@) =~= blob_decode(
            old(reader).data@,
            old(reader).pos as int,
            count as nat,
        )->Ok_0.0);
    }
    Ok(out)
}

/// Decodes `count` values of the element type, in order.
#[verifier::loop_isolation(false)]
fn read_elements(reader: &mut MyReader, element_type: &BondType, count: u32) -> (r: Result<
    Vec<BondValue>,
    MadeleineError,
>)
    requires
        old(reader).wf(),
    ensures
        final(reader).wf(),
        final(reader).data@ == old(reader).data@,
        old(reader).pos <= final(reader).pos,
        (match spec_elems(old(reader).data@, old(reader).pos as int, *element_type, count as nat) {
            Ok(p) => r matches Ok(v) && seq_models(v@) == p.0 && final(reader).pos as int == p.1,
            Err(e) => r matches Err(e2) && e2 == e,
        }),
    decreases reader.data@.len() - reader.pos, 4int,
{
    let ghost s = reader.data@;
    let ghost i0 = reader.pos as int;
    let mut out: Vec<BondValue> = Vec::new();
    let mut k: u32 = 0;
    proof {
        assert(seq_models(out@) =~= Seq::<ValueModel>::empty());
    }
    while k < count
        invariant
            reader.wf(),
            reader.data@ == s,
            i0 <= reader.pos,
            k <= count,
            spec_elems(s, i0, *element_type, count as nat) == elems_combine(
                seq_models(out@),
                spec_elems(s, reader.pos as int, *element_type, (count - k) as nat),
            ),
        decreases count - k,
    {
        let ghost pos_k = reader.pos as int;
        let ghost out_prev = out@;
        let v = match read_value(element_type, reader) {
            Ok(v) => v,
            Err(e) => {
                return Err(e);
            },
        };
        out.push(v);
        k = k + 1;
        proof {
            assert(seq_models(out@) =~= seq_models(out_prev).push(value_model(v)));
            assert(seq_models(out_prev) + seq![value_model(v)] =~= seq_models(out@));
            let rest = spec_elems(s, reader.pos as int, *element_type, (count - k) as nat);
            if rest is Ok {
                assert(seq_models(out_prev) + (seq![value_model(v)] + rest->Ok_0.0) =~= seq_models(
                    out@,
                ) + rest->Ok_0.0);
            }
        }
    }
    proof {
        assert(seq_models(out@) + Seq::<ValueModel>::empty() =~= seq_models(out@));
    }
    Ok(out)
}

/// Decodes `count` key-value pairs of the two fixed types, in order.
#[verifier::loop_isolation(false)]
fn read_pairs(reader: &mut MyReader, key_type: &BondType, value_type: &BondType, count: u64) -> (r:
    Result<Vec<(BondValue, BondValue)>, MadeleineError>)
    requires
        old(reader).wf(),
    ensures
        final(reader).wf(),
        final(reader).data@ == old(reader).data@,
        old(reader).pos <= final(reader).pos,
        (match spec_pairs(
            old(reader).data@,
            old(reader).pos as int,
            *key_type,
            *value_type,
            count as nat,
        ) {
            Ok(p) => r matches Ok(v) && pair_models(v@) == p.0 && final(reader).pos as int == p.1,
            Err(e) => r matches Err(e2) && e2 == e,
        }),
    decreases reader.data@.len() - reader.pos, 4int,
{
    let ghost s = reader.data@;
    let ghost i0 = reader.pos as int;
    let mut out: Vec<(BondValue, BondValue)> = Vec::new();
    let mut k: u64 = 0;
    proof {
        assert(pair_models(out@) =~= Seq::<(ValueModel, ValueModel)>::empty());
    }
    while k < count
        invariant
            reader.wf(),
            reader.data@ == s,
            i0 <= reader.pos,
            k <= count,
            spec_pairs(s, i0, *key_type, *value_type, count as nat) == pairs_combine(
                pair_models(out@),
                spec_pairs(s, reader.pos as int, *key_type, *value_type, (count - k) as nat),
            ),
        decreases count - k,
    {
        let ghost out_prev = out@;
        let kv = match read_value(key_type, reader) {
            Ok(v) => v,
            Err(e) => {
                return Err(e);
            },
        };
        let vv = match read_value(value_type, reader) {
            Ok(v) => v,
            Err(e) => {
                return Err(e);
            },
        };
        out.push((kv, vv));
        k = k + 1;
        proof {
            assert(pair_models(out@) =~= pair_models(out_prev).push(
                (value_model(kv), value_model(vv)),
            ));
            let rest = spec_pairs(
                s,
                reader.pos as int,
                *key_type,
                *value_type,
                (count - k) as nat,
            );
            if rest is Ok {
                assert(pair_models(out_prev) + (seq![(value_model(kv), value_model(vv))]
                    + rest->Ok_0.0) =~= pair_models(out@) + rest->Ok_0.0);
            }
        }
    }
    proof {
        assert(pair_models(out@) + Seq::<(ValueModel, ValueModel)>::empty() =~= pair_models(out@));
    }
    Ok(out)
}

/// Decodes a list or set payload: the container header, then either the
/// packed blob (a `List` of byte-sized elements) or the elements one at a
/// time.
pub fn read_list(reader: &mut MyReader, container_type: &BondType) -> (r: Result<
    Vec<BondValue>,
    MadeleineError,
>)
    requires
        old(reader).wf(),
    ensures
        final(reader).wf(),
        final(reader).data@ == old(reader).data@,
        old(reader).pos <= final(reader).pos,
        (match spec_list(old(reader).data@, old(reader).pos as int, *container_type) {
            Ok(p) => r matches Ok(v) && seq_models(v@) == p.0 && final(reader).pos as int == p.1,
            Err(e) => r matches Err(e2) && e2 == e,
        }),
    decreases reader.data@.len() - reader.pos, 2int,
{
    let (element_type, count) = match reader.get_type_and_count() {
        Ok(p) => p,
        Err(e) => {
            return Err(e);
        },
    };
    if *container_type == BondType::List && (element_type == BondType::Int8 || element_type
        == BondType::Uint8) {
        read_blob(reader, count)
    } else {
        read_elements(reader, &element_type, count)
    }
}

/// Decodes a map payload: two raw tag bytes masked to their low five bits,
/// a LEB128 entry count, then the pairs.
pub fn read_map(reader: &mut MyReader) -> (r: Result<
    Vec<(BondValue, BondValue)>,
    MadeleineError,
>)
    requires
        old(reader).wf(),
    ensures
        final(reader).wf(),
        final(reader).data@ == old(reader).data@,
        old(reader).pos <= final(reader).pos,
        (match spec_map(old(reader).data@, old(reader).pos as int) {
            Ok(p) => r matches Ok(v) && pair_models(v@) == p.0 && final(reader).pos as int == p.1,
            Err(e) => r matches Err(e2) && e2 == e,
        }),
    decreases reader.data@.len() - reader.pos, 2int,
{
    let kb = match reader.read_u8() {
        Ok(b) => b,
        Err(e) => {
            return Err(e);
        },
    };
    let key_type = match BondType::try_from_u8(kb % 32) {
        Ok(t) => t,
        Err(e) => {
            return Err(e);
        },
    };
    let vb = match reader.read_u8() {
        Ok(b) => b,
        Err(e) => {
            return Err(e);
        },
    };
    let value_type = match BondType::try_from_u8(vb % 32) {
        Ok(t) => t,
        Err(e) => {
            return Err(e);
        },
    };
    let count = match reader.read_uleb128() {
        Ok(c) => c,
        Err(e) => {
            return Err(e);
        },
    };
    read_pairs(reader, &key_type, &value_type, count)
}

/// Reads one field: its header, whose id is discarded, then its value.
pub fn read_field(reader: &mut MyReader) -> (r: Result<BondValue, MadeleineError>)
    requires
        old(reader).wf(),
    ensures
        final(reader).wf(),
        final(reader).data@ == old(reader).data@,
        old(reader).pos <= final(reader).pos,
        (match spec_field(old(reader).data@, old(reader).pos as int) {
            Ok(p) => r matches Ok(v) && value_model(v) == p.0 && final(reader).pos as int == p.1
                && old(reader).pos < final(reader).pos,
            Err(e) => r matches Err(e2) && e2 == e,
        }),
    decreases reader.data@.len() - reader.pos, 0int,
{
    let field_typeid = match reader.get_type_and_id() {
        Ok(p) => p,
        Err(e) => {
            return Err(e);
        },
    };
    read_value(&field_typeid.0, reader)
}

/// Checks the struct byte-length rule at the current position: when a
/// length prefix and a body start were recorded, the measured span must
/// equal the declared length, and a mismatch reports both values.
pub fn check_struct_length(
    reader: &MyReader,
    expected_length: Option<u64>,
    start_pos: Option<u64>,
) -> (r: Result<(), MadeleineError>)
    requires
        expected_length is Some && start_pos is Some ==> start_pos->0 <= reader.pos as u64,
    ensures
        r == check_len_s(reader.pos as int, expected_length, start_pos),
{
    if let (Some(expected), Some(start)) = (expected_length, start_pos) {
        let actual_length = reader.stream_position() - start;
        if actual_length != expected {
            return Err(MadeleineError::IncorrectStructLength(expected, actual_length));
        }
    }
    Ok(())
}

/// Collapses every run of four consecutive fields of shape `Uint32,
/// Uint16, Uint16, Uint64` into one `Guid`, scanning left to right and
/// continuing right after each match.
#[verifier::loop_isolation(false)]
pub fn process_values_for_guids(values: &mut Vec<BondValue>)
    ensures
        seq_models(final(values)@) == spec_guid_pass(seq_models(old(values)@)),
{
    let ghost orig = values@;
    let mut out: Vec<BondValue> = Vec::new();
    proof {
        assert(seq_models(out@) =~= Seq::<ValueModel>::empty());
        assert(Seq::<ValueModel>::empty() + spec_guid_pass(seq_models(values@)) =~= spec_guid_pass(
            seq_models(values@),
        ));
    }
    while values.len() > 0
        invariant
            spec_guid_pass(seq_models(orig)) == seq_models(out@) + spec_guid_pass(
                seq_models(values@),
            ),
        decreases values@.len(),
    {
        let ghost ms = seq_models(values@);
        let ghost out_prev = out@;
        let mut matched = false;
        if values.len() >= 4 {
            let c0 = (match &values[0] {
                BondValue::Uint32(_) => true,
                _ => false,
            });
            let c1 = (match &values[1] {
                BondValue::Uint16(_) => true,
                _ => false,
            });
            let c2 = (match &values[2] {
                BondValue::Uint16(_) => true,
                _ => false,
            });
            let c3 = (match &values[3] {
                BondValue::Uint64(_) => true,
                _ => false,
            });
            matched = c0 && c1 && c2 && c3;
        }
        if matched {
            let a = (match values.remove(0) {
                BondValue::Uint32(a) => a,
                _ => 0,
            });
            let b = (match values.remove(0) {
                BondValue::Uint16(b) => b,
                _ => 0,
            });
            let c = (match values.remove(0) {
                BondValue::Uint16(c) => c,
                _ => 0,
            });
            let d = (match values.remove(0) {
                BondValue::Uint64(d) => d,
                _ => 0,
            });
            let g = Guid::from_parts(a, b, c, d);
            out.push(BondValue::Guid(g));
            proof {
                assert(seq_models(values@) =~= ms.skip(4));
                assert(spec_guid_pass(ms) == seq![
                    ValueModel::Guid(guid_string(a, b, c, d)),
                ] + spec_guid_pass(ms.skip(4)));
                assert(seq_models(out@) =~= seq_models(out_prev).push(
                    ValueModel::Guid(guid_string(a, b, c, d)),
                ));
                assert(seq_models(out_prev) + (seq![
                    ValueModel::Guid(guid_string(a, b, c, d)),
                ] + spec_guid_pass(ms.skip(4))) =~= seq_models(out@) + spec_guid_pass(ms.skip(4)));
            }
        } else {
            let ghost vlen = values@.len();
            let v = values.remove(0);
            out.push(v);
            proof {
                assert(seq_models(values@) =~= ms.skip(1));
                if vlen >= 4 {
                    assert(spec_guid_pass(ms) == seq![ms[0]] + spec_guid_pass(ms.skip(1)));
                } else {
                    assert(ms =~= seq![ms[0]] + ms.skip(1));
                    assert(spec_guid_pass(ms.skip(1)) == ms.skip(1));
                    assert(spec_guid_pass(ms) == seq![ms[0]] + spec_guid_pass(ms.skip(1)));
                }
                assert(seq_models(out@) =~= seq_models(out_prev).push(ms[0]));
                assert(seq_models(out_prev) + (seq![ms[0]] + spec_guid_pass(ms.skip(1)))
                    =~= seq_models(out@) + spec_guid_pass(ms.skip(1)));
            }
        }
    }
    proof {
        assert(seq_models(values@) =~= Seq::<ValueModel>::empty());
        assert(spec_guid_pass(Seq::<ValueModel>::empty()) =~= Seq::<ValueModel>::empty());
        assert(seq_models(out@) + Seq::<ValueModel>::empty() =~= seq_models(out@));
    }
    core::mem::swap(values, &mut out);
}

/// Decodes one value of the given type from the stream.
pub fn read_value(bond_type: &BondType, reader: &mut MyReader) -> (r: Result<
    BondValue,
    MadeleineError,
>)
    requires
        old(reader).wf(),
    ensures
        final(reader).wf(),
        final(reader).data@ == old(reader).data@,
        old(reader).pos <= final(reader).pos,
        (match spec_value(old(reader).data@, old(reader).pos as int, *bond_type) {
            Ok(p) => r matches Ok(v) && value_model(v) == p.0 && final(reader).pos as int == p.1,
            Err(e) => r matches Err(e2) && e2 == e,
        }),
    decreases reader.data@.len() - reader.pos, 3int,
{
    match bond_type {
        BondType::Stop => Ok(BondValue::Stop),
        BondType::StopBase => Ok(BondValue::StopBase),
        BondType::Bool => (match reader.read_u8() {
            Ok(b) => Ok(BondValue::Bool(b != 0)),
            Err(e) => Err(e),
        }),
        BondType::Uint8 => (match reader.read_u8() {
            Ok(b) => Ok(BondValue::Uint8(b)),
            Err(e) => Err(e),
        }),
        BondType::Uint16 => (match reader.read_uleb128() {
            Ok(v) => if v <= u16::MAX as u64 {
                Ok(BondValue::Uint16(v as u16))
            } else {
                Err(MadeleineError::TryFromIntError)
            },
            Err(e) => Err(e),
        }),
        BondType::Uint32 => (match reader.read_uleb128() {
            Ok(v) => if v <= u32::MAX as u64 {
                Ok(BondValue::Uint32(v as u32))
            } else {
                Err(MadeleineError::TryFromIntError)
            },
            Err(e) => Err(e),
        }),
        BondType::Uint64 => (match reader.read_uleb128() {
            Ok(v) => Ok(BondValue::Uint64(v)),
            Err(e) => Err(e),
        }),
        BondType::Float => (match reader.read_bytes(4) {
            Ok(b) => Ok(
                BondValue::Float(
                    (b[0] as u32) + 256 * (b[1] as u32) + 65536 * (b[2] as u32) + 16777216 * (
                    b[3] as u32),
                ),
            ),
            Err(e) => Err(e),
        }),
        BondType::Double => (match reader.read_bytes(8) {
            Ok(b) => Ok(
                BondValue::Double(
                    (b[0] as u64) + 256 * (b[1] as u64) + 65536 * (b[2] as u64) + 16777216 * (
                    b[3] as u64) + 4294967296 * (b[4] as u64) + 1099511627776 * (b[5] as u64)
                        + 281474976710656 * (b[6] as u64) + 72057594037927936 * (b[7] as u64),
                ),
            ),
            Err(e) => Err(e),
        }),
        BondType::String => (match reader.read_string() {
            Ok(st) => Ok(BondValue::String(st)),
            Err(e) => Err(e),
        }),
        BondType::Wstring => (match reader.read_wstring() {
            Ok(st) => Ok(BondValue::Wstring(st)),
            Err(e) => Err(e),
        }),
        BondType::Int8 => (match reader.read_u8() {
            Ok(b) => Ok(BondValue::Int8(b as i8)),
            Err(e) => Err(e),
        }),
        BondType::Int16 => (match reader.read_sleb128() {
            Ok(n) => if i16::MIN as i64 <= n && n <= i16::MAX as i64 {
                Ok(BondValue::Int16(n as i16))
            } else {
                Err(MadeleineError::TryFromIntError)
            },
            Err(e) => Err(e),
        }),
        BondType::Int32 => (match reader.read_sleb128() {
            Ok(n) => if i32::MIN as i64 <= n && n <= i32::MAX as i64 {
                Ok(BondValue::Int32(n as i32))
            } else {
                Err(MadeleineError::TryFromIntError)
            },
            Err(e) => Err(e),
        }),
        BondType::Int64 => (match reader.read_sleb128() {
            Ok(n) => Ok(BondValue::Int64(n)),
            Err(e) => Err(e),
        }),
        BondType::List => (match read_list(reader, bond_type) {
            Ok(v) => Ok(BondValue::List(v)),
            Err(e) => Err(e),
        }),
        BondType::SetValue => (match read_list(reader, bond_type) {
            Ok(v) => Ok(BondValue::SetValue(v)),
            Err(e) => Err(e),
        }),
        BondType::MapValue => (match read_map(reader) {
            Ok(v) => Ok(BondValue::MapValue(v)),
            Err(e) => Err(e),
        }),
        BondType::Struct => read_struct(reader, 2),
        BondType::Unavailable => Err(MadeleineError::UnavailableBondType),
    }
}

/// Decodes a full struct from the stream: at protocol version 2 a LEB128
/// byte length comes first and the body must span exactly that many
/// bytes. Fields before a `StopBase` marker become the base level;
/// decoding ends at a `Stop` marker, after which the identifier heuristic
/// runs over the current level's fields.
#[verifier::loop_isolation(false)]
pub fn read_struct(reader: &mut MyReader, version: u8) -> (r: Result<BondValue, MadeleineError>)
    requires
        old(reader).wf(),
    ensures
        final(reader).wf(),
        final(reader).data@ == old(reader).data@,
        old(reader).pos <= final(reader).pos,
        (match spec_struct(old(reader).data@, old(reader).pos as int, version) {
            Ok(p) => r matches Ok(v) && value_model(v) == p.0 && final(reader).pos as int == p.1,
            Err(e) => r matches Err(e2) && e2 == e,
        }),
    decreases reader.data@.len() - reader.pos, 2int,
{
    let ghost s = reader.data@;
    let ghost i0 = reader.pos as int;
    let mut expected_length: Option<u64> = None;
    let mut start_pos: Option<u64> = None;
    if version == 2 {
        let length = match reader.read_uleb128() {
            Ok(v) => v,
            Err(e) => {
                return Err(e);
            },
        };
        expected_length = Some(length);
        start_pos = Some(reader.stream_position());
    }
    let ghost i1 = reader.pos as int;
    let mut values: Vec<BondValue> = Vec::new();
    let mut base_struct: Vec<BondValue> = Vec::new();
    proof {
        assert(seq_models(values@) =~= Seq::<ValueModel>::empty());
        assert(seq_models(base_struct@) =~= Seq::<ValueModel>::empty());
    }
    loop
        invariant
            reader.wf(),
            reader.data@ == s,
            i0 <= i1 <= reader.pos,
            version == 2 ==> (uleb_decode(s, i0) matches Ok(p) && expected_length == Some(p.0)
                && p.1 == i1 && start_pos == Some(i1 as u64) && i0 < i1),
            version != 2 ==> i1 == i0 && expected_length is None && start_pos is None,
            spec_fields(s, i1, Seq::empty(), Seq::empty()) == spec_fields(
                s,
                reader.pos as int,
                seq_models(values@),
                seq_models(base_struct@),
            ),
        decreases s.len() - reader.pos,
    {
        let ghost pos_k = reader.pos as int;
        let ghost cur_ms = seq_models(values@);
        let ghost base_ms = seq_models(base_struct@);
        let f = match read_field(reader) {
            Ok(f) => f,
            Err(e) => {
                return Err(e);
            },
        };
        proof {
            lemma_model_control(f);
        }
        match f {
            BondValue::Stop => {
                let ghost end = reader.pos as int;
                proof {
                    assert(spec_fields(s, pos_k, cur_ms, base_ms) == Ok::<
                        (Seq<ValueModel>, Seq<ValueModel>, int),
                        MadeleineError,
                    >((cur_ms, base_ms, end)));
                    assert(spec_fields(s, i1, Seq::empty(), Seq::empty()) == Ok::<
                        (Seq<ValueModel>, Seq<ValueModel>, int),
                        MadeleineError,
                    >((cur_ms, base_ms, end)));
                }
                process_values_for_guids(&mut values);
                match check_struct_length(reader, expected_length, start_pos) {
                    Ok(()) => {},
                    Err(e) => {
                        return Err(e);
                    },
                }
                proof {
                    assert(seq_models(base_struct@) == base_ms);
                    assert(seq_models(values@) == spec_guid_pass(cur_ms));
                    assert(base_ms.len() == base_struct@.len());
                }
                let base = if base_struct.len() > 0 {
                    let inner = BondValue::new_struct(None, base_struct);
                    proof {
                        assert(value_model(inner) =~= (ValueModel::Struct {
                            base: Option::None,
                            fields: base_ms,
                        }));
                    }
                    Some(Box::new(inner))
                } else {
                    None
                };
                let result = BondValue::new_struct(base, values);
                proof {
                    assert(value_model(result) =~= mk_struct_model(
                        base_ms,
                        spec_guid_pass(cur_ms),
                    ));
                }
                return Ok(result);
            },
            BondValue::StopBase => {
                base_struct = values;
                values = Vec::new();
                proof {
                    assert(seq_models(values@) =~= Seq::<ValueModel>::empty());
                }
            },
            field => {
                let ghost fm = value_model(field);
                values.push(field);
                proof {
                    assert(seq_models(values@) =~= cur_ms.push(fm));
                }
            },
        }
    }
}

} // verus!
