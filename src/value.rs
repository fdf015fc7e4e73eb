//! Tagged metadata values and their recursive, depth-bounded decoder.
use vstd::prelude::*;
use crate::cursor::{
    ByteCursor, FormatError, Step, bytes_at, u16_at, u32_at, u64_at, u8_at,
};
use crate::text::{text_from_bytes, utf8_text};

verus! {

pub const TAG_U8: u32 = 0;
pub const TAG_I8: u32 = 1;
pub const TAG_U16: u32 = 2;
pub const TAG_I16: u32 = 3;
pub const TAG_U32: u32 = 4;
pub const TAG_I32: u32 = 5;
pub const TAG_F32: u32 = 6;
pub const TAG_BOOL: u32 = 7;
pub const TAG_STRING: u32 = 8;
pub const TAG_ARRAY: u32 = 9;
pub const TAG_U64: u32 = 10;
pub const TAG_I64: u32 = 11;
pub const TAG_F64: u32 = 12;

/// Array nesting allowed by `parse` unless a caller chooses another bound.
pub const DEFAULT_MAX_DEPTH: u32 = 16;

/// A decoded metadata value. Floats are kept as their IEEE-754 bit patterns.
#[derive(Debug)]
pub enum MetadataValue {
    Uint8(u8),
    Int8(i8),
    Uint16(u16),
    Int16(i16),
    Uint32(u32),
    Int32(i32),
    Float32(u32),
    Bool(bool),
    Str(String),
    /// Element type tag and the elements.
    Array(u32, Vec<MetadataValue>),
    Uint64(u64),
    Int64(i64),
    Float64(u64),
    /// A value whose type tag this decoder does not know; it occupies no bytes.
    Unknown(u32),
}

/// Mathematical model of a metadata value.
pub enum ValueModel {
    U8(u8),
    I8(i8),
    U16(u16),
    I16(i16),
    U32(u32),
    I32(i32),
    F32(u32),
    Bool(bool),
    Str(Seq<char>),
    Array(u32, Seq<ValueModel>),
    U64(u64),
    I64(i64),
    F64(u64),
    Unknown(u32),
}

pub open spec fn value_model(v: MetadataValue) -> ValueModel
    decreases v,
{
    match v {
        MetadataValue::Uint8(x) => ValueModel::U8(x),
        MetadataValue::Int8(x) => ValueModel::I8(x),
        MetadataValue::Uint16(x) => ValueModel::U16(x),
        MetadataValue::Int16(x) => ValueModel::I16(x),
        MetadataValue::Uint32(x) => ValueModel::U32(x),
        MetadataValue::Int32(x) => ValueModel::I32(x),
        MetadataValue::Float32(x) => ValueModel::F32(x),
        MetadataValue::Bool(x) => ValueModel::Bool(x),
        MetadataValue::Str(s) => ValueModel::Str(s@),
        MetadataValue::Array(t, a) => ValueModel::Array(t, value_models(a@)),
        MetadataValue::Uint64(x) => ValueModel::U64(x),
        MetadataValue::Int64(x) => ValueModel::I64(x),
        MetadataValue::Float64(x) => ValueModel::F64(x),
        MetadataValue::Unknown(t) => ValueModel::Unknown(t),
    }
}

pub open spec fn value_models(s: Seq<MetadataValue>) -> Seq<ValueModel>
    decreases s,
{
    if s.len() == 0 {
        Seq::empty()
    } else {
        value_models(s.drop_last()).push(value_model(s.last()))
    }
}

/// A length-prefixed string at `p`.
pub open spec fn string_at(b: Seq<u8>, p: int) -> Step<Seq<char>> {
    match u64_at(b, p) {
        Err(e) => Err(e),
        Ok((n, q)) => match bytes_at(b, q, n as int) {
            Err(e) => Err(e),
            Ok((s, r)) => Ok((utf8_text(s), r)),
        },
    }
}

/// The value of type `tag` at `p`, with at most `depth` levels of arrays.
pub open spec fn value_at(b: Seq<u8>, p: int, tag: u32, depth: nat) -> Step<ValueModel>
    decreases depth, 0nat,
{
    if tag == TAG_U8 {
        match u8_at(b, p) {
            Err(e) => Err(e),
            Ok((x, q)) => Ok((ValueModel::U8(x), q)),
        }
    } else if tag == TAG_I8 {
        match u8_at(b, p) {
            Err(e) => Err(e),
            Ok((x, q)) => Ok((ValueModel::I8(x as i8), q)),
        }
    } else if tag == TAG_U16 {
        match u16_at(b, p) {
            Err(e) => Err(e),
            Ok((x, q)) => Ok((ValueModel::U16(x), q)),
        }
    } else if tag == TAG_I16 {
        match u16_at(b, p) {
            Err(e) => Err(e),
            Ok((x, q)) => Ok((ValueModel::I16(x as i16), q)),
        }
    } else if tag == TAG_U32 {
        match u32_at(b, p) {
            Err(e) => Err(e),
            Ok((x, q)) => Ok((ValueModel::U32(x), q)),
        }
    } else if tag == TAG_I32 {
        match u32_at(b, p) {
            Err(e) => Err(e),
            Ok((x, q)) => Ok((ValueModel::I32(x as i32), q)),
        }
    } else if tag == TAG_F32 {
        match u32_at(b, p) {
            Err(e) => Err(e),
            Ok((x, q)) => Ok((ValueModel::F32(x), q)),
        }
    } else if tag == TAG_BOOL {
        match u8_at(b, p) {
            Err(e) => Err(e),
            Ok((x, q)) => Ok((ValueModel::Bool(x != 0), q)),
        }
    } else if tag == TAG_STRING {
        match string_at(b, p) {
            Err(e) => Err(e),
            Ok((s, q)) => Ok((ValueModel::Str(s), q)),
        }
    } else if tag == TAG_ARRAY {
        if depth == 0 {
            Err(FormatError::TooDeep)
        } else {
            match u32_at(b, p) {
                Err(e) => Err(e),
                Ok((t, q)) => match u64_at(b, q) {
                    Err(e) => Err(e),
                    Ok((n, r)) => match items_at(b, r, t, n as nat, (depth - 1) as nat) {
                        Err(e) => Err(e),
                        Ok((vs, s)) => Ok((ValueModel::Array(t, vs), s)),
                    },
                },
            }
        }
    } else if tag == TAG_U64 {
        match u64_at(b, p) {
            Err(e) => Err(e),
            Ok((x, q)) => Ok((ValueModel::U64(x), q)),
        }
    } else if tag == TAG_I64 {
        match u64_at(b, p) {
            Err(e) => Err(e),
            Ok((x, q)) => Ok((ValueModel::I64(x as i64), q)),
        }
    } else if tag == TAG_F64 {
        match u64_at(b, p) {
            Err(e) => Err(e),
            Ok((x, q)) => Ok((ValueModel::F64(x), q)),
        }
    } else {
        Ok((ValueModel::Unknown(tag), p))
    }
}

/// `n` consecutive values of type `tag` at `p`.
pub open spec fn items_at(b: Seq<u8>, p: int, tag: u32, n: nat, depth: nat) -> Step<
    Seq<ValueModel>,
>
    decreases depth, n,
{
    if n == 0 {
        Ok((Seq::empty(), p))
    } else {
        match value_at(b, p, tag, depth) {
            Err(e) => Err(e),
            Ok((v, q)) => match items_at(b, q, tag, (n - 1) as nat, depth) {
                Err(e) => Err(e),
                Ok((vs, r)) => Ok((seq![v] + vs, r)),
            },
        }
    }
}

/// Puts `a` in front of the items of a successful step.
pub open spec fn prepend(a: Seq<ValueModel>, st: Step<Seq<ValueModel>>) -> Step<Seq<ValueModel>> {
    match st {
        Ok((vs, q)) => Ok((a + vs, q)),
        Err(e) => Err(e),
    }
}

/// Relates an executable value result and position to a `Step` of models.
pub open spec fn value_outcome(r: Result<MetadataValue, FormatError>, pos: usize) -> Step<
    ValueModel,
> {
    match r {
        Ok(v) => Ok((value_model(v), pos as int)),
        Err(e) => Err(e),
    }
}

/// Reads a length-prefixed string, decoding malformed UTF-8 lossily.
pub fn read_string(cur: &mut ByteCursor) -> (r: Result<String, FormatError>)
    requires
        old(cur).wf(),
    ensures
        final(cur).wf(),
        final(cur).data@ == old(cur).data@,
        match r {
            Ok(s) => string_at(old(cur).data@, old(cur).pos as int) == Ok::<
                (Seq<char>, int),
                FormatError,
            >((s@, final(cur).pos as int)),
            Err(e) => string_at(old(cur).data@, old(cur).pos as int) == Err::<
                (Seq<char>, int),
                FormatError,
            >(e),
        },
{
    let n = cur.read_u64_le()?;
    let raw = cur.read_exact(n)?;
    Ok(text_from_bytes(raw))
}

/// Decodes one value of type `tag`; arrays may nest at most `depth` levels.
pub fn decode_value(cur: &mut ByteCursor, tag: u32, depth: u32) -> (r: Result<
    MetadataValue,
    FormatError,
>)
    requires
        old(cur).wf(),
    ensures
        final(cur).wf(),
        final(cur).data@ == old(cur).data@,
        value_outcome(r, final(cur).pos) == value_at(
            old(cur).data@,
            old(cur).pos as int,
            tag,
            depth as nat,
        ),
    decreases depth,
{
    if tag == TAG_U8 {
        Ok(MetadataValue::Uint8(cur.read_u8()?))
    } else if tag == TAG_I8 {
        Ok(MetadataValue::Int8(cur.read_u8()? as i8))
    } else if tag == TAG_U16 {
        Ok(MetadataValue::Uint16(cur.read_u16_le()?))
    } else if tag == TAG_I16 {
        Ok(MetadataValue::Int16(cur.read_u16_le()? as i16))
    } else if tag == TAG_U32 {
        Ok(MetadataValue::Uint32(cur.read_u32_le()?))
    } else if tag == TAG_I32 {
        Ok(MetadataValue::Int32(cur.read_u32_le()? as i32))
    } else if tag == TAG_F32 {
        Ok(MetadataValue::Float32(cur.read_u32_le()?))
    } else if tag == TAG_BOOL {
        Ok(MetadataValue::Bool(cur.read_u8()? != 0))
    } else if tag == TAG_STRING {
        Ok(MetadataValue::Str(read_string(cur)?))
    } else if tag == TAG_ARRAY {
        if depth == 0 {
            return Err(FormatError::TooDeep);
        }
        let elem = cur.read_u32_le()?;
        let n = cur.read_u64_le()?;
        let ghost b = cur.data@;
        let ghost start = cur.pos as int;
        let mut items: Vec<MetadataValue> = Vec::new();
        let mut i: u64 = 0;
        while i < n
            invariant
                cur.wf(),
                cur.data@ == b,
                b == old(cur).data@,
                tag == TAG_ARRAY,
                0 < depth,
                u32_at(b, old(cur).pos as int) == Ok::<(u32, int), FormatError>(
                    (elem, old(cur).pos + 4),
                ),
                u64_at(b, old(cur).pos + 4) == Ok::<(u64, int), FormatError>((n, start)),
                i <= n,
                items_at(b, start, elem, n as nat, (depth - 1) as nat) == prepend(
                    value_models(items@),
                    items_at(b, cur.pos as int, elem, (n - i) as nat, (depth - 1) as nat),
                ),
            decreases n - i,
        {
            let ghost p = cur.pos as int;
            let v = match decode_value(cur, elem, depth - 1) {
                Ok(v) => v,
                Err(e) => {
                    assert(items_at(b, p, elem, (n - i) as nat, (depth - 1) as nat) == Err::<
                        (Seq<ValueModel>, int),
                        FormatError,
                    >(e));
                    return Err(e);
                },
            };
            proof {
                assert(items@.push(v).drop_last() =~= items@);
                assert(value_models(items@.push(v)) == value_models(items@).push(value_model(v)));
                let rest = items_at(b, cur.pos as int, elem, (n - i - 1) as nat, (depth - 1) as nat);
                if let Ok((vs, q)) = rest {
                    assert(value_models(items@) + (seq![value_model(v)] + vs) =~= value_models(
                        items@,
                    ).push(value_model(v)) + vs);
                }
            }
            items.push(v);
            i += 1;
        }
        proof {
            assert(value_models(items@) + Seq::<ValueModel>::empty() =~= value_models(items@));
        }
        Ok(MetadataValue::Array(elem, items))
    } else if tag == TAG_U64 {
        Ok(MetadataValue::Uint64(cur.read_u64_le()?))
    } else if tag == TAG_I64 {
        Ok(MetadataValue::Int64(cur.read_u64_le()? as i64))
    } else if tag == TAG_F64 {
        Ok(MetadataValue::Float64(cur.read_u64_le()?))
    } else {
        Ok(MetadataValue::Unknown(tag))
    }
}

} // verus!
