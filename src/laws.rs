//! Byte-level encodings of headers and values, and what decoding them gives.
use vstd::prelude::*;
use vstd::utf8::{encode_utf8, encode_utf8_decode_utf8, encode_utf8_valid_utf8};
use crate::cursor::{
    FormatError, le_u32, lemma_u16_bytes, lemma_u32_bytes, lemma_u64_bytes, u16_bytes, u32_bytes,
    u64_bytes,
};
use crate::header::{FileHeader, MAGIC, SPLIT_LAYOUT_VERSION, header_at};
use crate::model::{TensorModel, parse_spec};
use crate::quant::{
    PreviewModel, STORAGE_NIBBLE, dims_product, min, nibble, preview_spec, scheme_of, unit_element,
    units_available, wanted,
};
use crate::value::{
    TAG_ARRAY, TAG_BOOL, TAG_F32, TAG_F64, TAG_I16, TAG_I32, TAG_I64, TAG_I8, TAG_STRING,
    TAG_U16, TAG_U32, TAG_U64, TAG_U8, ValueModel, items_at, value_at,
};

verus! {

/// The header bytes for the given fields, in the layout of `version`.
pub open spec fn header_bytes(version: u32, tensor_count: u64, metadata_count: u64) -> Seq<u8> {
    u32_bytes(MAGIC) + u32_bytes(version) + if version >= SPLIT_LAYOUT_VERSION {
        u64_bytes(tensor_count) + u64_bytes(metadata_count)
    } else {
        u64_bytes(metadata_count) + u64_bytes(tensor_count)
    }
}

/// The type tag a value is written with.
pub open spec fn tag_of(m: ValueModel) -> u32 {
    match m {
        ValueModel::U8(_) => TAG_U8,
        ValueModel::I8(_) => TAG_I8,
        ValueModel::U16(_) => TAG_U16,
        ValueModel::I16(_) => TAG_I16,
        ValueModel::U32(_) => TAG_U32,
        ValueModel::I32(_) => TAG_I32,
        ValueModel::F32(_) => TAG_F32,
        ValueModel::Bool(_) => TAG_BOOL,
        ValueModel::Str(_) => TAG_STRING,
        ValueModel::Array(_, _) => TAG_ARRAY,
        ValueModel::U64(_) => TAG_U64,
        ValueModel::I64(_) => TAG_I64,
        ValueModel::F64(_) => TAG_F64,
        ValueModel::Unknown(t) => t,
    }
}

/// A string as written: 8-byte length, then its UTF-8 bytes.
pub open spec fn string_bytes(s: Seq<char>) -> Seq<u8> {
    u64_bytes(encode_utf8(s).len() as u64) + encode_utf8(s)
}

/// The bytes of a value (its tag is written by whoever holds it).
pub open spec fn encode_value(m: ValueModel) -> Seq<u8>
    decreases m,
{
    match m {
        ValueModel::U8(x) => seq![x],
        ValueModel::I8(x) => seq![x as u8],
        ValueModel::U16(x) => u16_bytes(x),
        ValueModel::I16(x) => u16_bytes(x as u16),
        ValueModel::U32(x) => u32_bytes(x),
        ValueModel::I32(x) => u32_bytes(x as u32),
        ValueModel::F32(x) => u32_bytes(x),
        ValueModel::Bool(x) => seq![if x { 1u8 } else { 0u8 }],
        ValueModel::Str(s) => string_bytes(s),
        ValueModel::Array(t, items) => u32_bytes(t) + u64_bytes(items.len() as u64) + encode_items(
            items,
        ),
        ValueModel::U64(x) => u64_bytes(x),
        ValueModel::I64(x) => u64_bytes(x as u64),
        ValueModel::F64(x) => u64_bytes(x),
        ValueModel::Unknown(_) => Seq::empty(),
    }
}

pub open spec fn encode_items(items: Seq<ValueModel>) -> Seq<u8>
    decreases items,
{
    if items.len() == 0 {
        Seq::empty()
    } else {
        encode_value(items[0]) + encode_items(items.drop_first())
    }
}

/// Levels of array nesting: 0 for a scalar, one more than the deepest
/// element for an array.
pub open spec fn nesting(m: ValueModel) -> nat
    decreases m,
{
    match m {
        ValueModel::Array(_, items) => 1 + items_nesting(items),
        _ => 0,
    }
}

pub open spec fn items_nesting(items: Seq<ValueModel>) -> nat
    decreases items,
{
    if items.len() == 0 {
        0
    } else {
        let a = nesting(items[0]);
        let b = items_nesting(items.drop_first());
        if a >= b {
            a
        } else {
            b
        }
    }
}

/// A value that can be written: lengths fit their 8-byte fields, array
/// elements carry the array's element tag, and an unknown tag is not one
/// of the known ones.
pub open spec fn well_formed(m: ValueModel) -> bool
    decreases m,
{
    match m {
        ValueModel::Str(s) => encode_utf8(s).len() <= u64::MAX,
        ValueModel::Array(t, items) => items.len() <= u64::MAX && items_well_formed(t, items),
        ValueModel::Unknown(t) => t > TAG_F64,
        _ => true,
    }
}

pub open spec fn items_well_formed(t: u32, items: Seq<ValueModel>) -> bool
    decreases items,
{
    if items.len() == 0 {
        true
    } else {
        tag_of(items[0]) == t && well_formed(items[0]) && items_well_formed(t, items.drop_first())
    }
}

proof fn lemma_split(b: Seq<u8>, p: int, x: Seq<u8>, y: Seq<u8>)
    requires
        0 <= p,
        p + x.len() + y.len() <= b.len(),
        b.subrange(p, p + x.len() + y.len()) == x + y,
    ensures
        b.subrange(p, p + x.len()) == x,
        b.subrange(p + x.len(), p + x.len() + y.len()) == y,
{
    assert(b.subrange(p, p + x.len()) =~= (x + y).subrange(0, x.len() as int));
    assert(b.subrange(p + x.len(), p + x.len() + y.len()) =~= (x + y).subrange(
        x.len() as int,
        (x.len() + y.len()) as int,
    ));
    assert((x + y).subrange(0, x.len() as int) =~= x);
    assert((x + y).subrange(x.len() as int, (x.len() + y.len()) as int) =~= y);
}

proof fn lemma_value_decodes(m: ValueModel, b: Seq<u8>, p: int, depth: nat)
    requires
        well_formed(m),
        nesting(m) <= depth,
        0 <= p,
        p + encode_value(m).len() <= b.len(),
        b.subrange(p, p + encode_value(m).len()) == encode_value(m),
    ensures
        value_at(b, p, tag_of(m), depth) == Ok::<(ValueModel, int), FormatError>(
            (m, p + encode_value(m).len()),
        ),
    decreases m,
{
    let e = encode_value(m);
    match m {
        ValueModel::U8(x) => {
            assert(b.subrange(p, p + 1)[0] == b[p]);
        },
        ValueModel::I8(x) => {
            assert(b.subrange(p, p + 1)[0] == b[p]);
            assert((x as u8) as i8 == x) by (bit_vector);
        },
        ValueModel::Bool(x) => {
            assert(b.subrange(p, p + 1)[0] == b[p]);
        },
        ValueModel::U16(x) => {
            lemma_u16_bytes(x);
        },
        ValueModel::I16(x) => {
            lemma_u16_bytes(x as u16);
            assert((x as u16) as i16 == x) by (bit_vector);
        },
        ValueModel::U32(x) => {
            lemma_u32_bytes(x);
        },
        ValueModel::I32(x) => {
            lemma_u32_bytes(x as u32);
            assert((x as u32) as i32 == x) by (bit_vector);
        },
        ValueModel::F32(x) => {
            lemma_u32_bytes(x);
        },
        ValueModel::U64(x) => {
            lemma_u64_bytes(x);
        },
        ValueModel::I64(x) => {
            lemma_u64_bytes(x as u64);
            assert((x as u64) as i64 == x) by (bit_vector);
        },
        ValueModel::F64(x) => {
            lemma_u64_bytes(x);
        },
        ValueModel::Str(s) => {
            let body = encode_utf8(s);
            let n = body.len() as u64;
            lemma_split(b, p, u64_bytes(n), body);
            lemma_u64_bytes(n);
            encode_utf8_valid_utf8(s);
            encode_utf8_decode_utf8(s);
        },
        ValueModel::Array(t, items) => {
            let h = u32_bytes(t);
            let c = u64_bytes(items.len() as u64);
            let body = encode_items(items);
            assert(e == h + c + body);
            lemma_split(b, p, h + c, body);
            lemma_split(b, p, h, c);
            lemma_u32_bytes(t);
            lemma_u64_bytes(items.len() as u64);
            lemma_items_decode(t, items, b, p + 12, (depth - 1) as nat);
        },
        ValueModel::Unknown(t) => {},
    }
}

proof fn lemma_items_decode(t: u32, items: Seq<ValueModel>, b: Seq<u8>, p: int, depth: nat)
    requires
        items_well_formed(t, items),
        items_nesting(items) <= depth,
        0 <= p,
        p + encode_items(items).len() <= b.len(),
        b.subrange(p, p + encode_items(items).len()) == encode_items(items),
    ensures
        items_at(b, p, t, items.len(), depth) == Ok::<(Seq<ValueModel>, int), FormatError>(
            (items, p + encode_items(items).len()),
        ),
    decreases items,
{
    if items.len() > 0 {
        let first = encode_value(items[0]);
        let rest = encode_items(items.drop_first());
        lemma_split(b, p, first, rest);
        lemma_value_decodes(items[0], b, p, depth);
        lemma_items_decode(t, items.drop_first(), b, p + first.len(), depth);
        assert(seq![items[0]] + items.drop_first() =~= items);
    } else {
        assert(items =~= Seq::<ValueModel>::empty());
    }
}

proof fn lemma_value_too_deep(m: ValueModel, b: Seq<u8>, p: int, depth: nat)
    requires
        well_formed(m),
        nesting(m) > depth,
        0 <= p,
        p + encode_value(m).len() <= b.len(),
        b.subrange(p, p + encode_value(m).len()) == encode_value(m),
    ensures
        value_at(b, p, tag_of(m), depth) == Err::<(ValueModel, int), FormatError>(
            FormatError::TooDeep,
        ),
    decreases m,
{
    if let ValueModel::Array(t, items) = m {
        if depth > 0 {
            let h = u32_bytes(t);
            let c = u64_bytes(items.len() as u64);
            let body = encode_items(items);
            lemma_split(b, p, h + c, body);
            lemma_split(b, p, h, c);
            lemma_u32_bytes(t);
            lemma_u64_bytes(items.len() as u64);
            lemma_items_too_deep(t, items, b, p + 12, (depth - 1) as nat);
        }
    }
}

proof fn lemma_items_too_deep(t: u32, items: Seq<ValueModel>, b: Seq<u8>, p: int, depth: nat)
    requires
        items_well_formed(t, items),
        items_nesting(items) > depth,
        0 <= p,
        p + encode_items(items).len() <= b.len(),
        b.subrange(p, p + encode_items(items).len()) == encode_items(items),
    ensures
        items_at(b, p, t, items.len(), depth) == Err::<(Seq<ValueModel>, int), FormatError>(
            FormatError::TooDeep,
        ),
    decreases items,
{
    let first = encode_value(items[0]);
    let rest = encode_items(items.drop_first());
    lemma_split(b, p, first, rest);
    if nesting(items[0]) > depth {
        lemma_value_too_deep(items[0], b, p, depth);
    } else {
        lemma_value_decodes(items[0], b, p, depth);
        lemma_items_too_deep(t, items.drop_first(), b, p + first.len(), depth);
    }
}

/// Decoding a header recovers exactly the fields it was written with,
/// whatever bytes follow it.
pub proof fn law_header_round_trip(
    version: u32,
    tensor_count: u64,
    metadata_count: u64,
    rest: Seq<u8>,
)
    ensures
        header_at(header_bytes(version, tensor_count, metadata_count) + rest, 0) == Ok::<
            (FileHeader, int),
            FormatError,
        >((FileHeader { magic: MAGIC, version, tensor_count, metadata_count }, 24)),
{
    let b = header_bytes(version, tensor_count, metadata_count) + rest;
    lemma_u32_bytes(MAGIC);
    lemma_u32_bytes(version);
    lemma_u64_bytes(tensor_count);
    lemma_u64_bytes(metadata_count);
    assert(b.subrange(0, 4) =~= u32_bytes(MAGIC));
    assert(b.subrange(4, 8) =~= u32_bytes(version));
    if version >= SPLIT_LAYOUT_VERSION {
        assert(b.subrange(8, 16) =~= u64_bytes(tensor_count));
        assert(b.subrange(16, 24) =~= u64_bytes(metadata_count));
    } else {
        assert(b.subrange(8, 16) =~= u64_bytes(metadata_count));
        assert(b.subrange(16, 24) =~= u64_bytes(tensor_count));
    }
}

/// Input whose first four bytes are not the signature is rejected with
/// `BadMagic`, whatever follows them.
pub proof fn law_bad_magic(b: Seq<u8>, max_depth: nat)
    requires
        b.len() >= 4,
        le_u32(b.subrange(0, 4)) != MAGIC,
    ensures
        parse_spec(b, max_depth) == Err::<crate::model::ModelView, FormatError>(
            FormatError::BadMagic,
        ),
{
}

/// A UTF-8 string written as its 8-byte length and bytes decodes to itself.
pub proof fn law_string_round_trip(s: Seq<char>, rest: Seq<u8>, max_depth: nat)
    requires
        encode_utf8(s).len() <= u64::MAX,
    ensures
        value_at(string_bytes(s) + rest, 0, TAG_STRING, max_depth) == Ok::<
            (ValueModel, int),
            FormatError,
        >((ValueModel::Str(s), string_bytes(s).len() as int)),
{
    let m = ValueModel::Str(s);
    let b = encode_value(m) + rest;
    assert(b.subrange(0, encode_value(m).len() as int) =~= encode_value(m));
    lemma_value_decodes(m, b, 0, max_depth);
}

/// A value nested no deeper than the bound decodes to exactly itself.
pub proof fn law_value_round_trip(m: ValueModel, rest: Seq<u8>, max_depth: nat)
    requires
        well_formed(m),
        nesting(m) <= max_depth,
    ensures
        value_at(encode_value(m) + rest, 0, tag_of(m), max_depth) == Ok::<
            (ValueModel, int),
            FormatError,
        >((m, encode_value(m).len() as int)),
{
    let b = encode_value(m) + rest;
    assert(b.subrange(0, encode_value(m).len() as int) =~= encode_value(m));
    lemma_value_decodes(m, b, 0, max_depth);
}

/// A value nested deeper than the bound fails with `TooDeep`.
pub proof fn law_too_deep(m: ValueModel, rest: Seq<u8>, max_depth: nat)
    requires
        well_formed(m),
        nesting(m) > max_depth,
    ensures
        value_at(encode_value(m) + rest, 0, tag_of(m), max_depth) == Err::<
            (ValueModel, int),
            FormatError,
        >(FormatError::TooDeep),
{
    let b = encode_value(m) + rest;
    assert(b.subrange(0, encode_value(m).len() as int) =~= encode_value(m));
    lemma_value_too_deep(m, b, 0, max_depth);
}

/// A preview of a tensor that starts inside the buffer succeeds and holds
/// no more entries than requested nor than the tensor has elements.
pub proof fn law_preview_bounded(b: Seq<u8>, start: int, t: TensorModel, max: u64, raw: bool)
    requires
        0 <= start,
        start + t.offset <= b.len(),
    ensures
        preview_spec(b, start, t, max, raw) is Ok,
        preview_spec(b, start, t, max, raw)->Ok_0.len() <= max,
        preview_spec(b, start, t, max, raw)->Ok_0.len() <= dims_product(t.dims),
{
    let s = scheme_of(t.storage_type);
    let ue = s.unit_elems as int;
    let w = wanted(t, max);
    let avail = units_available(b.len() as int, start + t.offset, t.storage_type);
    assert(avail >= 0) by (nonlinear_arith)
        requires
            avail == (b.len() - (start + t.offset)) / (s.unit_bytes as int),
            s.unit_bytes >= 1,
            b.len() - (start + t.offset) >= 0,
    ;
    assert(0 <= w <= max && w <= dims_product(t.dims));
    if raw {
        assert((w + ue - 1) / ue <= w) by (nonlinear_arith)
            requires
                ue >= 1,
                w >= 0,
        ;
        assert((w + ue - 1) / ue >= 0) by (nonlinear_arith)
            requires
                ue >= 1,
                w >= 0,
        ;
    } else {
        assert(avail * ue >= 0) by (nonlinear_arith)
            requires
                avail >= 0,
                ue >= 1,
        ;
    }
}

/// In a packed-nibble block, the code 8 stands for zero: the element is the
/// block's scale times a code of 0.
pub proof fn law_nibble_zero_point(b: Seq<u8>, u: int, k: int)
    requires
        0 <= k,
        nibble(b[u + 4 + k / 2], k) == 8,
    ensures
        unit_element(b, u, STORAGE_NIBBLE, k) == (PreviewModel::Scaled {
            scale: le_u32(b.subrange(u, u + 4)),
            code: 0,
        }),
{
}

} // verus!
