//! Storage-type registry and bounded previews of tensor payloads.
//!
//! Decoded numbers are given exactly: floats as IEEE-754 bit patterns, and a
//! packed-nibble element as its block scale (bits) and signed code, whose
//! value is `scale * code`.
use vstd::prelude::*;
use vstd::arithmetic::div_mod::lemma_fundamental_div_mod_converse;
use crate::cursor::{FormatError, le_u16, le_u32};
use crate::model::{ParsedModel, TensorDescriptor, TensorModel, find_tensor, first_named};
use crate::text::push_char;

verus! {

pub const STORAGE_F32: u32 = 0;
pub const STORAGE_F16: u32 = 1;
/// Blocks of a 4-byte scale followed by 8 bytes holding sixteen 4-bit codes.
pub const STORAGE_NIBBLE: u32 = 2;
pub const STORAGE_I8: u32 = 24;
pub const STORAGE_I16: u32 = 25;
pub const STORAGE_I32: u32 = 26;

pub const NIBBLE_BLOCK_BYTES: u64 = 12;
pub const NIBBLE_BLOCK_ELEMS: u64 = 16;
/// Subtracted from each 4-bit code of a packed-nibble block.
pub const NIBBLE_ZERO_POINT: i8 = 8;

#[derive(Debug, Clone, Copy, PartialEq, Eq, Structural)]
pub enum Decoder {
    Float32,
    Float16,
    Nibble,
    Int8,
    Int16,
    Int32,
    /// No exact decoder: each byte is shown as a labelled raw byte.
    Unsupported,
}

/// How a storage type lays out its elements: `unit_elems` elements in each
/// `unit_bytes`-byte unit.
#[derive(Debug, Clone, Copy, PartialEq, Eq, Structural)]
pub struct StorageScheme {
    pub unit_bytes: u64,
    pub unit_elems: u64,
    pub decoder: Decoder,
}

pub open spec fn scheme_of(tag: u32) -> StorageScheme {
    if tag == STORAGE_F32 {
        StorageScheme { unit_bytes: 4, unit_elems: 1, decoder: Decoder::Float32 }
    } else if tag == STORAGE_F16 {
        StorageScheme { unit_bytes: 2, unit_elems: 1, decoder: Decoder::Float16 }
    } else if tag == STORAGE_NIBBLE {
        StorageScheme {
            unit_bytes: NIBBLE_BLOCK_BYTES,
            unit_elems: NIBBLE_BLOCK_ELEMS,
            decoder: Decoder::Nibble,
        }
    } else if tag == STORAGE_I8 {
        StorageScheme { unit_bytes: 1, unit_elems: 1, decoder: Decoder::Int8 }
    } else if tag == STORAGE_I16 {
        StorageScheme { unit_bytes: 2, unit_elems: 1, decoder: Decoder::Int16 }
    } else if tag == STORAGE_I32 {
        StorageScheme { unit_bytes: 4, unit_elems: 1, decoder: Decoder::Int32 }
    } else {
        StorageScheme { unit_bytes: 1, unit_elems: 1, decoder: Decoder::Unsupported }
    }
}

/// The registry entry for a storage-type tag.
pub fn lookup(tag: u32) -> (r: StorageScheme)
    ensures
        r == scheme_of(tag),
        r.unit_bytes >= 1,
        r.unit_elems >= 1,
{
    if tag == STORAGE_F32 {
        StorageScheme { unit_bytes: 4, unit_elems: 1, decoder: Decoder::Float32 }
    } else if tag == STORAGE_F16 {
        StorageScheme { unit_bytes: 2, unit_elems: 1, decoder: Decoder::Float16 }
    } else if tag == STORAGE_NIBBLE {
        StorageScheme {
            unit_bytes: NIBBLE_BLOCK_BYTES,
            unit_elems: NIBBLE_BLOCK_ELEMS,
            decoder: Decoder::Nibble,
        }
    } else if tag == STORAGE_I8 {
        StorageScheme { unit_bytes: 1, unit_elems: 1, decoder: Decoder::Int8 }
    } else if tag == STORAGE_I16 {
        StorageScheme { unit_bytes: 2, unit_elems: 1, decoder: Decoder::Int16 }
    } else if tag == STORAGE_I32 {
        StorageScheme { unit_bytes: 4, unit_elems: 1, decoder: Decoder::Int32 }
    } else {
        StorageScheme { unit_bytes: 1, unit_elems: 1, decoder: Decoder::Unsupported }
    }
}

/// One previewed element, or in raw mode one unit as hexadecimal text.
#[derive(Debug)]
pub enum PreviewValue {
    /// Bits of a 32-bit float.
    Float32(u32),
    /// Bits of a 16-bit float.
    Float16(u16),
    /// `scale * code`, with the scale's 32-bit float bits.
    Scaled { scale: u32, code: i8 },
    Int(i64),
    /// A byte of a storage type without an exact decoder.
    Unsupported { tag: u32, byte: u8 },
    Hex(String),
}

pub enum PreviewModel {
    Float32(u32),
    Float16(u16),
    Scaled { scale: u32, code: i8 },
    Int(i64),
    Unsupported { tag: u32, byte: u8 },
    Hex(Seq<char>),
}

pub open spec fn preview_model(v: PreviewValue) -> PreviewModel {
    match v {
        PreviewValue::Float32(x) => PreviewModel::Float32(x),
        PreviewValue::Float16(x) => PreviewModel::Float16(x),
        PreviewValue::Scaled { scale, code } => PreviewModel::Scaled { scale, code },
        PreviewValue::Int(x) => PreviewModel::Int(x),
        PreviewValue::Unsupported { tag, byte } => PreviewModel::Unsupported { tag, byte },
        PreviewValue::Hex(s) => PreviewModel::Hex(s@),
    }
}

pub open spec fn preview_models(vs: Seq<PreviewValue>) -> Seq<PreviewModel> {
    Seq::new(vs.len(), |i: int| preview_model(vs[i]))
}

/// The 4-bit code `k` of a byte pair sequence: low nibble first.
pub open spec fn nibble(byte: u8, k: int) -> u8 {
    if k % 2 == 0 {
        byte & 0x0f
    } else {
        byte >> 4u8
    }
}

/// Element `k` of the unit that starts at `u`.
pub open spec fn unit_element(b: Seq<u8>, u: int, tag: u32, k: int) -> PreviewModel {
    match scheme_of(tag).decoder {
        Decoder::Float32 => PreviewModel::Float32(le_u32(b.subrange(u, u + 4))),
        Decoder::Float16 => PreviewModel::Float16(le_u16(b.subrange(u, u + 2))),
        Decoder::Nibble => PreviewModel::Scaled {
            scale: le_u32(b.subrange(u, u + 4)),
            code: (nibble(b[u + 4 + k / 2], k) - NIBBLE_ZERO_POINT) as i8,
        },
        Decoder::Int8 => PreviewModel::Int(b[u] as i8 as i64),
        Decoder::Int16 => PreviewModel::Int(le_u16(b.subrange(u, u + 2)) as i16 as i64),
        Decoder::Int32 => PreviewModel::Int(le_u32(b.subrange(u, u + 4)) as i32 as i64),
        Decoder::Unsupported => PreviewModel::Unsupported { tag, byte: b[u] },
    }
}

/// Element `j` of a tensor whose bytes start at `base`.
pub open spec fn element_at(b: Seq<u8>, base: int, tag: u32, j: int) -> PreviewModel {
    let s = scheme_of(tag);
    unit_element(b, base + (j / s.unit_elems as int) * s.unit_bytes, tag, j % s.unit_elems as int)
}

/// Number of elements the dimensions describe.
pub open spec fn dims_product(d: Seq<u64>) -> nat
    decreases d.len(),
{
    if d.len() == 0 {
        1
    } else {
        dims_product(d.drop_last()) * (d.last() as nat)
    }
}

pub open spec fn min(a: int, b: int) -> int {
    if a <= b {
        a
    } else {
        b
    }
}

/// Whole units that fit between `base` and the end of the buffer.
pub open spec fn units_available(len: int, base: int, tag: u32) -> int {
    (len - base) / scheme_of(tag).unit_bytes as int
}

/// Elements wanted: at most `max`, and no more than the tensor holds.
pub open spec fn wanted(t: TensorModel, max: u64) -> int {
    min(max as int, dims_product(t.dims) as int)
}

/// Hexadecimal digit of a value below 16.
pub open spec fn hex_digit(d: u8) -> char {
    if d < 10 {
        (('0' as u8) + d) as char
    } else {
        (('a' as u8) + d - 10) as char
    }
}

/// Two lower-case hexadecimal digits per byte.
pub open spec fn hex_text(s: Seq<u8>) -> Seq<char>
    decreases s.len(),
{
    if s.len() == 0 {
        Seq::empty()
    } else {
        hex_text(s.drop_last()) + seq![hex_digit(s.last() / 16), hex_digit(s.last() % 16)]
    }
}

/// The preview of tensor `t` in buffer `b` whose data region starts at
/// `start`: decoded elements, or hexadecimal units in raw mode, cut short
/// where the buffer ends.
pub open spec fn preview_spec(b: Seq<u8>, start: int, t: TensorModel, max: u64, raw: bool) -> Result<
    Seq<PreviewModel>,
    FormatError,
> {
    let base = start + t.offset;
    let s = scheme_of(t.storage_type);
    let ub = s.unit_bytes as int;
    let ue = s.unit_elems as int;
    let avail = units_available(b.len() as int, base, t.storage_type);
    if base > b.len() {
        Err(FormatError::SeekOutOfRange)
    } else if raw {
        let n = min((wanted(t, max) + ue - 1) / ue, avail);
        Ok(
            Seq::new(
                n as nat,
                |k: int| PreviewModel::Hex(hex_text(b.subrange(base + k * ub, base + k * ub + ub))),
            ),
        )
    } else {
        let n = min(wanted(t, max), avail * ue);
        Ok(Seq::new(n as nat, |j: int| element_at(b, base, t.storage_type, j)))
    }
}

proof fn lemma_capped_step(p: int, c: int, d: int)
    requires
        p >= 0,
        c >= 0,
        d >= 0,
    ensures
        min(min(p, c) * d, c) == min(p * d, c),
{
    if p > c && d >= 1 {
        assert(c * d >= c) by (nonlinear_arith)
            requires
                c >= 0,
                d >= 1,
        ;
        assert(p * d >= p) by (nonlinear_arith)
            requires
                p >= 0,
                d >= 1,
        ;
    }
    if d == 0 {
        assert(p * d == 0 && c * d == 0) by (nonlinear_arith)
            requires
                d == 0,
        ;
    }
}

/// `min(product of dims, cap)`, without overflow.
pub fn capped_product(dims: &Vec<u64>, cap: u64) -> (r: u64)
    ensures
        r as int == min(dims_product(dims@) as int, cap as int),
{
    let mut acc: u64 = if cap >= 1 {
        1
    } else {
        0
    };
    let mut i: usize = 0;
    proof {
        assert(dims@.subrange(0, 0).len() == 0);
    }
    while i < dims.len()
        invariant
            i <= dims@.len(),
            acc as int == min(dims_product(dims@.subrange(0, i as int)) as int, cap as int),
        decreases dims@.len() - i,
    {
        let d = dims[i];
        assert((acc as int) * (d as int) <= u64::MAX as int * u64::MAX as int) by (nonlinear_arith)
            requires
                0 <= acc <= u64::MAX,
                0 <= d <= u64::MAX,
        ;
        let m: u128 = (acc as u128) * (d as u128);
        proof {
            let s = dims@.subrange(0, i + 1);
            assert(s.drop_last() =~= dims@.subrange(0, i as int));
            lemma_capped_step(
                dims_product(dims@.subrange(0, i as int)) as int,
                cap as int,
                d as int,
            );
        }
        acc = if m > cap as u128 {
            cap
        } else {
            m as u64
        };
        i += 1;
    }
    proof {
        assert(dims@.subrange(0, dims@.len() as int) =~= dims@);
    }
    acc
}

/// Decodes element `k` of the unit at `u`.
fn unit_value(data: &[u8], u: usize, tag: u32, scheme: StorageScheme, k: u64) -> (r: PreviewValue)
    requires
        scheme == scheme_of(tag),
        u + scheme.unit_bytes <= data@.len(),
        k < scheme.unit_elems,
    ensures
        preview_model(r) == unit_element(data@, u as int, tag, k as int),
{
    match scheme.decoder {
        Decoder::Float32 => PreviewValue::Float32(
            (data[u] as u32) | ((data[u + 1] as u32) << 8u32) | ((data[u + 2] as u32) << 16u32)
                | ((data[u + 3] as u32) << 24u32),
        ),
        Decoder::Float16 => PreviewValue::Float16((data[u] as u16) | ((data[u + 1] as u16) << 8u16)),
        Decoder::Nibble => {
            let scale = (data[u] as u32) | ((data[u + 1] as u32) << 8u32) | ((data[u + 2] as u32)
                << 16u32) | ((data[u + 3] as u32) << 24u32);
            let byte = data[u + 4 + (k / 2) as usize];
            let code = if k % 2 == 0 {
                byte & 0x0f
            } else {
                byte >> 4u8
            };
            assert(byte & 0x0f <= 15 && byte >> 4u8 <= 15) by (bit_vector);
            PreviewValue::Scaled { scale, code: code as i8 - NIBBLE_ZERO_POINT }
        },
        Decoder::Int8 => PreviewValue::Int(data[u] as i8 as i64),
        Decoder::Int16 => PreviewValue::Int(
            ((data[u] as u16) | ((data[u + 1] as u16) << 8u16)) as i16 as i64,
        ),
        Decoder::Int32 => PreviewValue::Int(
            ((data[u] as u32) | ((data[u + 1] as u32) << 8u32) | ((data[u + 2] as u32) << 16u32)
                | ((data[u + 3] as u32) << 24u32)) as i32 as i64,
        ),
        Decoder::Unsupported => PreviewValue::Unsupported { tag, byte: data[u] },
    }
}


fn hex_char(d: u8) -> (c: char)
    requires
        d < 16,
    ensures
        c == hex_digit(d),
{
    if d < 10 {
        (48u8 + d) as char
    } else {
        (87u8 + d) as char
    }
}

/// Lower-case hexadecimal text of a byte span.
pub fn hex_of(bytes: &[u8]) -> (r: String)
    ensures
        r@ == hex_text(bytes@),
{
    let mut text = String::new();
    let mut i: usize = 0;
    proof {
        assert(bytes@.subrange(0, 0) =~= Seq::<u8>::empty());
    }
    while i < bytes.len()
        invariant
            i <= bytes@.len(),
            text@ == hex_text(bytes@.subrange(0, i as int)),
        decreases bytes@.len() - i,
    {
        let b = bytes[i];
        push_char(&mut text, hex_char(b / 16));
        push_char(&mut text, hex_char(b % 16));
        proof {
            let s = bytes@.subrange(0, i + 1);
            assert(s.drop_last() =~= bytes@.subrange(0, i as int));
            assert(s.last() == b);
            assert(text@ =~= hex_text(s));
        }
        i += 1;
    }
    proof {
        assert(bytes@.subrange(0, bytes@.len() as int) =~= bytes@);
    }
    text
}

proof fn lemma_unit_fits(unit: int, avail: int, ue: int, ub: int, j: int, k: int, count: int, room: int)
    requires
        ue >= 1,
        ub >= 1,
        0 <= unit,
        0 <= k < ue,
        j == unit * ue + k,
        j < count,
        count <= avail * ue,
        avail == room / ub,
        room >= 0,
    ensures
        unit < avail,
        (unit + 1) * ub <= room,
        unit * ub + ub <= room,
{
    assert(unit < avail) by (nonlinear_arith)
        requires
            ue >= 1,
            0 <= k,
            unit * ue + k < avail * ue,
    ;
    assert(avail * ub <= room) by (nonlinear_arith)
        requires
            ub >= 1,
            room >= 0,
            avail == room / ub,
    ;
    assert((unit + 1) * ub <= avail * ub) by (nonlinear_arith)
        requires
            unit + 1 <= avail,
            ub >= 1,
    ;
    assert(unit * ub + ub <= room) by (nonlinear_arith)
        requires
            unit + 1 <= avail,
            ub >= 1,
            avail * ub <= room,
    ;
}

/// Decodes up to `max_elements` elements of `desc` (or, with `raw`, the
/// hexadecimal text of each unit that holds them), stopping early where the
/// buffer ends. Fails only when the tensor starts past the end of `data`.
pub fn preview_tensor(
    data: &[u8],
    model: &ParsedModel,
    desc: &TensorDescriptor,
    max_elements: u64,
    raw: bool,
) -> (r: Result<Vec<PreviewValue>, FormatError>)
    ensures
        match r {
            Ok(vs) => preview_spec(data@, model.data_start as int, desc.view(), max_elements, raw)
                == Ok::<Seq<PreviewModel>, FormatError>(preview_models(vs@)),
            Err(e) => preview_spec(data@, model.data_start as int, desc.view(), max_elements, raw)
                == Err::<Seq<PreviewModel>, FormatError>(e),
        },
{
    let len = data.len();
    if desc.offset as u128 + model.data_start as u128 > len as u128 {
        return Err(FormatError::SeekOutOfRange);
    }
    let base: usize = model.data_start + desc.offset as usize;
    let tag = desc.storage_type;
    let scheme = lookup(tag);
    let ub = scheme.unit_bytes;
    let ue = scheme.unit_elems;
    let want = capped_product(&desc.dims, max_elements);
    let room = len - base;
    let avail: u128 = room as u128 / ub as u128;
    let ghost t = desc.view();
    assert(want as int == wanted(t, max_elements));
    assert(avail == units_available(data@.len() as int, base as int, tag));
    assert(avail <= room) by (nonlinear_arith)
        requires
            ub >= 1,
            room >= 0,
            avail == room as int / ub as int,
    ;
    assert(ue <= 32);
    assert(avail * ue <= 0x1_0000_0000_0000_0000 * 32) by (nonlinear_arith)
        requires
            avail <= room <= usize::MAX,
            ue <= 32,
    ;
    let mut out: Vec<PreviewValue> = Vec::new();
    if raw {
        let needed: u128 = (want as u128 + ue as u128 - 1) / ue as u128;
        let n: u128 = if needed < avail {
            needed
        } else {
            avail
        };
        let mut k: u128 = 0;
        let mut u: usize = base;
        while k < n
            invariant
                scheme == scheme_of(tag),
                ub == scheme.unit_bytes,
                ub >= 1,
                base <= len == data@.len(),
                room == len - base,
                avail == room as int / ub as int,
                n <= avail,
                k <= n,
                u == base + k * ub,
                preview_models(out@) =~= Seq::new(
                    k as nat,
                    |i: int|
                        PreviewModel::Hex(
                            hex_text(
                                data@.subrange(base + i * ub as int, base + i * ub as int + ub),
                            ),
                        ),
                ),
            decreases n - k,
        {
            proof {
                lemma_unit_fits(k as int, avail as int, 1, ub as int, k as int, 0, n as int, room as int);
            }
            let h = hex_of(&data[u..u + ub as usize]);
            let ghost before = out@;
            out.push(PreviewValue::Hex(h));
            proof {
                assert(preview_models(out@) =~= preview_models(before).push(
                    PreviewModel::Hex(
                        hex_text(data@.subrange(base + k * ub as int, base + k * ub as int + ub)),
                    ),
                ));
            }
            u = u + ub as usize;
            k = k + 1;
            proof {
                assert((k - 1) * ub + ub == k * ub) by (nonlinear_arith);
            }
        }
    } else {
        let count: u128 = if (want as u128) < avail * ue as u128 {
            want as u128
        } else {
            avail * ue as u128
        };
        let mut j: u128 = 0;
        let mut k: u64 = 0;
        let mut u: usize = base;
        let ghost mut unit: int = 0;
        while j < count
            invariant
                scheme == scheme_of(tag),
                ub == scheme.unit_bytes,
                ue == scheme.unit_elems,
                ub >= 1,
                ue >= 1,
                base <= len == data@.len(),
                room == len - base,
                avail == room as int / ub as int,
                count <= avail * ue,
                j <= count,
                0 <= unit,
                k < ue,
                j == unit * ue + k,
                u == base + unit * ub,
                preview_models(out@) =~= Seq::new(
                    j as nat,
                    |i: int| element_at(data@, base as int, tag, i),
                ),
            decreases count - j,
        {
            proof {
                lemma_unit_fits(unit, avail as int, ue as int, ub as int, j as int, k as int, count as int, room as int);
                lemma_fundamental_div_mod_converse(j as int, ue as int, unit, k as int);
            }
            let v = unit_value(data, u, tag, scheme, k);
            assert(preview_model(v) == element_at(data@, base as int, tag, j as int));
            let ghost before = out@;
            out.push(v);
            proof {
                assert(preview_models(out@) =~= preview_models(before).push(preview_model(v)));
            }
            j = j + 1;
            k = k + 1;
            if k == ue {
                proof {
                    assert(unit * ue + ue == (unit + 1) * ue) by (nonlinear_arith);
                    assert(unit * ub + ub == (unit + 1) * ub) by (nonlinear_arith);
                }
                k = 0;
                u = u + ub as usize;
                proof {
                    unit = unit + 1;
                }
            }
        }
    }
    Ok(out)
}

/// Previews the first tensor named `name`; `TensorNotFound` when none is.
pub fn preview_named(
    data: &[u8],
    model: &ParsedModel,
    name: &str,
    max_elements: u64,
    raw: bool,
) -> (r: Result<Vec<PreviewValue>, FormatError>)
    ensures
        match first_named(model.view().tensors, name@) {
            None => r is Err && r->Err_0 == FormatError::TensorNotFound,
            Some(i) => match r {
                Ok(vs) => preview_spec(
                    data@,
                    model.data_start as int,
                    model.view().tensors[i],
                    max_elements,
                    raw,
                ) == Ok::<Seq<PreviewModel>, FormatError>(preview_models(vs@)),
                Err(e) => preview_spec(
                    data@,
                    model.data_start as int,
                    model.view().tensors[i],
                    max_elements,
                    raw,
                ) == Err::<Seq<PreviewModel>, FormatError>(e),
            },
        },
{
    match find_tensor(model, name) {
        Some(t) => preview_tensor(data, model, t, max_elements, raw),
        None => Err(FormatError::TensorNotFound),
    }
}

} // verus!
