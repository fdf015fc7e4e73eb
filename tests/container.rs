use ternary_tools::cursor::{ByteCursor, FormatError};
use ternary_tools::estimate::{estimate_parameters, parse_decimal, PARAMS_PER_BLOCK};
use ternary_tools::header::{decode_header, MAGIC};
use ternary_tools::model::{find_tensor, parse, parse_with_depth, MetadataTable};
use ternary_tools::quant::{
    lookup, preview_named, preview_tensor, Decoder, PreviewValue, STORAGE_F16, STORAGE_F32,
    STORAGE_I16, STORAGE_I32, STORAGE_I8, STORAGE_NIBBLE,
};
use ternary_tools::value::{
    decode_value, MetadataValue, TAG_ARRAY, TAG_STRING, TAG_U32, TAG_U8,
};

fn header(version: u32, tensors: u64, kv: u64) -> Vec<u8> {
    let mut b = Vec::new();
    b.extend_from_slice(&MAGIC.to_le_bytes());
    b.extend_from_slice(&version.to_le_bytes());
    if version >= 3 {
        b.extend_from_slice(&tensors.to_le_bytes());
        b.extend_from_slice(&kv.to_le_bytes());
    } else {
        b.extend_from_slice(&kv.to_le_bytes());
        b.extend_from_slice(&tensors.to_le_bytes());
    }
    b
}

fn put_str(b: &mut Vec<u8>, s: &str) {
    b.extend_from_slice(&(s.len() as u64).to_le_bytes());
    b.extend_from_slice(s.as_bytes());
}

fn put_tensor(b: &mut Vec<u8>, name: &str, dims: &[u64], storage: u32, offset: u64) {
    put_str(b, name);
    b.extend_from_slice(&(dims.len() as u32).to_le_bytes());
    for d in dims {
        b.extend_from_slice(&d.to_le_bytes());
    }
    b.extend_from_slice(&storage.to_le_bytes());
    b.extend_from_slice(&offset.to_le_bytes());
}

fn value_f32(v: &PreviewValue) -> f32 {
    match v {
        PreviewValue::Float32(bits) => f32::from_bits(*bits),
        PreviewValue::Scaled { scale, code } => f32::from_bits(*scale) * (*code as f32),
        other => panic!("not a float: {:?}", other),
    }
}

#[test]
fn header_counts_version_three() {
    let mut b = header(3, 5, 7);
    b.extend_from_slice(&[0xaa, 0xbb, 0xcc]);
    let mut cur = ByteCursor::new(&b);
    let h = decode_header(&mut cur).unwrap();
    assert_eq!(h.magic, MAGIC);
    assert_eq!(h.version, 3);
    assert_eq!(h.tensor_count, 5);
    assert_eq!(h.metadata_count, 7);
    assert_eq!(cur.pos, 24);
}

#[test]
fn header_counts_older_layout() {
    let b = header(2, 9, 4);
    let mut cur = ByteCursor::new(&b);
    let h = decode_header(&mut cur).unwrap();
    assert_eq!(h.version, 2);
    assert_eq!(h.tensor_count, 9);
    assert_eq!(h.metadata_count, 4);
}

#[test]
fn unknown_version_is_not_fatal() {
    let b = header(99, 0, 0);
    let m = parse(&b).unwrap();
    assert_eq!(m.header.version, 99);
    assert_eq!(m.tensors.len(), 0);
}

#[test]
fn bad_magic_stops_after_signature() {
    let mut b = header(3, 0, 0);
    b[3] = b'X';
    assert!(matches!(parse(&b), Err(FormatError::BadMagic)));
    let mut cur = ByteCursor::new(&b);
    assert!(matches!(decode_header(&mut cur), Err(FormatError::BadMagic)));
    assert_eq!(cur.pos, 4);
    let short = [b'N', b'O', b'P', b'E'];
    assert!(matches!(parse(&short), Err(FormatError::BadMagic)));
}

#[test]
fn short_input_is_truncated() {
    let b = [0x47u8, 0x47];
    match parse(&b) {
        Err(FormatError::Truncated { expected, available }) => {
            assert_eq!(expected, 4);
            assert_eq!(available, 2);
        }
        _ => panic!("expected truncation"),
    }
}

#[test]
fn string_value_round_trip() {
    let mut b = Vec::new();
    put_str(&mut b, "héllo wörld");
    b.push(0xff);
    let mut cur = ByteCursor::new(&b);
    match decode_value(&mut cur, TAG_STRING, 4).unwrap() {
        MetadataValue::Str(s) => assert_eq!(s, "héllo wörld"),
        other => panic!("unexpected {:?}", other),
    }
    assert_eq!(cur.pos, b.len() - 1);
}

#[test]
fn malformed_utf8_is_replaced() {
    let mut b = Vec::new();
    b.extend_from_slice(&3u64.to_le_bytes());
    b.extend_from_slice(&[b'a', 0xff, b'b']);
    let mut cur = ByteCursor::new(&b);
    match decode_value(&mut cur, TAG_STRING, 4).unwrap() {
        MetadataValue::Str(s) => assert_eq!(s, "a\u{FFFD}b"),
        other => panic!("unexpected {:?}", other),
    }
}

fn nested_array(levels: u32) -> Vec<u8> {
    // `levels` arrays, the innermost holding two u8 values.
    if levels == 1 {
        let mut b = Vec::new();
        b.extend_from_slice(&TAG_U8.to_le_bytes());
        b.extend_from_slice(&2u64.to_le_bytes());
        b.extend_from_slice(&[7, 9]);
        b
    } else {
        let mut b = Vec::new();
        b.extend_from_slice(&TAG_ARRAY.to_le_bytes());
        b.extend_from_slice(&1u64.to_le_bytes());
        b.extend_from_slice(&nested_array(levels - 1));
        b
    }
}

#[test]
fn nested_arrays_within_bound() {
    let b = nested_array(3);
    let mut cur = ByteCursor::new(&b);
    let v = decode_value(&mut cur, TAG_ARRAY, 3).unwrap();
    assert_eq!(cur.pos, b.len());
    match v {
        MetadataValue::Array(t1, a1) => {
            assert_eq!(t1, TAG_ARRAY);
            assert_eq!(a1.len(), 1);
            match &a1[0] {
                MetadataValue::Array(t2, a2) => {
                    assert_eq!(*t2, TAG_ARRAY);
                    match &a2[0] {
                        MetadataValue::Array(t3, a3) => {
                            assert_eq!(*t3, TAG_U8);
                            assert!(matches!(a3[0], MetadataValue::Uint8(7)));
                            assert!(matches!(a3[1], MetadataValue::Uint8(9)));
                        }
                        other => panic!("unexpected {:?}", other),
                    }
                }
                other => panic!("unexpected {:?}", other),
            }
        }
        other => panic!("unexpected {:?}", other),
    }
}

#[test]
fn nested_arrays_past_bound_fail() {
    let b = nested_array(3);
    let mut cur = ByteCursor::new(&b);
    assert!(matches!(decode_value(&mut cur, TAG_ARRAY, 2), Err(FormatError::TooDeep)));
}

#[test]
fn parse_depth_bound_applies_to_metadata() {
    let mut b = header(3, 0, 1);
    put_str(&mut b, "deep");
    b.extend_from_slice(&TAG_ARRAY.to_le_bytes());
    b.extend_from_slice(&nested_array(2));
    assert!(parse_with_depth(&b, 2).is_ok());
    assert!(matches!(parse_with_depth(&b, 1), Err(FormatError::TooDeep)));
}

#[test]
fn single_string_entry() {
    let mut b = header(3, 0, 1);
    put_str(&mut b, "general.architecture");
    b.extend_from_slice(&TAG_STRING.to_le_bytes());
    put_str(&mut b, "test");
    let m = parse(&b).unwrap();
    assert_eq!(m.metadata.len(), 1);
    assert_eq!(m.metadata.entries[0].0, "general.architecture");
    match m.metadata.get(&"general.architecture".to_string()) {
        Some(MetadataValue::Str(s)) => assert_eq!(s, "test"),
        other => panic!("unexpected {:?}", other),
    }
    assert_eq!(m.tensors.len(), 0);
}

#[test]
fn unknown_tag_then_valid_entry() {
    let mut b = header(3, 0, 2);
    put_str(&mut b, "future.kind");
    b.extend_from_slice(&255u32.to_le_bytes());
    put_str(&mut b, "general.alignment");
    b.extend_from_slice(&TAG_U32.to_le_bytes());
    b.extend_from_slice(&32u32.to_le_bytes());
    let m = parse(&b).unwrap();
    assert_eq!(m.metadata.len(), 2);
    assert_eq!(m.metadata.entries[0].0, "future.kind");
    assert!(matches!(m.metadata.entries[0].1, MetadataValue::Unknown(255)));
    assert_eq!(m.metadata.entries[1].0, "general.alignment");
    assert!(matches!(m.metadata.entries[1].1, MetadataValue::Uint32(32)));
}

#[test]
fn duplicate_key_overwrites_in_place() {
    let mut b = header(3, 0, 3);
    for (k, v) in [("a", 1u8), ("b", 2u8), ("a", 3u8)] {
        put_str(&mut b, k);
        b.extend_from_slice(&TAG_U8.to_le_bytes());
        b.push(v);
    }
    let m = parse(&b).unwrap();
    assert_eq!(m.metadata.len(), 2);
    assert_eq!(m.metadata.entries[0].0, "a");
    assert!(matches!(m.metadata.entries[0].1, MetadataValue::Uint8(3)));
    assert!(matches!(m.metadata.entries[1].1, MetadataValue::Uint8(2)));
}

#[test]
fn metadata_truncation_aborts_parse() {
    let mut b = header(3, 0, 2);
    put_str(&mut b, "k");
    b.extend_from_slice(&TAG_U32.to_le_bytes());
    b.extend_from_slice(&[1, 2]);
    assert!(matches!(
        parse(&b),
        Err(FormatError::Truncated { expected: 4, available: 2 })
    ));
}

#[test]
fn table_insert_and_get() {
    let mut t = MetadataTable::new();
    t.insert("x".to_string(), MetadataValue::Bool(true));
    t.insert("y".to_string(), MetadataValue::Int8(-3));
    t.insert("x".to_string(), MetadataValue::Bool(false));
    assert_eq!(t.len(), 2);
    assert!(matches!(t.get(&"x".to_string()), Some(MetadataValue::Bool(false))));
    assert!(matches!(t.get(&"y".to_string()), Some(MetadataValue::Int8(-3))));
    assert!(t.get(&"z".to_string()).is_none());
}

fn float_model(values: &[f32], dims: &[u64]) -> Vec<u8> {
    let mut b = header(3, 1, 0);
    put_tensor(&mut b, "w.weight", dims, STORAGE_F32, 0);
    for v in values {
        b.extend_from_slice(&v.to_le_bytes());
    }
    b
}

#[test]
fn float32_preview_in_order() {
    let b = float_model(&[1.0, 2.0, 3.0, 4.0, 5.0, 6.0], &[2, 3]);
    let m = parse(&b).unwrap();
    let t = find_tensor(&m, "w.weight").unwrap();
    assert_eq!(t.dims, vec![2, 3]);
    let vs = preview_tensor(&b, &m, t, 6, false).unwrap();
    let got: Vec<f32> = vs.iter().map(value_f32).collect();
    assert_eq!(got, vec![1.0, 2.0, 3.0, 4.0, 5.0, 6.0]);
}

#[test]
fn preview_smaller_tensor_than_requested() {
    let b = float_model(&[1.5, -2.5, 0.25], &[3]);
    let m = parse(&b).unwrap();
    let vs = preview_tensor(&b, &m, &m.tensors[0], 1000, false).unwrap();
    assert!(vs.len() < 1000);
    assert_eq!(vs.len(), 3);
}

#[test]
fn preview_stops_at_end_of_buffer() {
    let mut b = float_model(&[1.0, 2.0, 3.0], &[10]);
    b.push(0x01);
    let m = parse(&b).unwrap();
    let vs = preview_tensor(&b, &m, &m.tensors[0], 1000, false).unwrap();
    assert_eq!(vs.len(), 3);
}

#[test]
fn preview_limited_by_max_elements() {
    let b = float_model(&[1.0, 2.0, 3.0, 4.0], &[4]);
    let m = parse(&b).unwrap();
    let vs = preview_tensor(&b, &m, &m.tensors[0], 2, false).unwrap();
    let got: Vec<f32> = vs.iter().map(value_f32).collect();
    assert_eq!(got, vec![1.0, 2.0]);
}

#[test]
fn raw_preview_is_hex_per_unit() {
    let b = float_model(&[1.0, -2.0], &[2]);
    let m = parse(&b).unwrap();
    let vs = preview_tensor(&b, &m, &m.tensors[0], 10, true).unwrap();
    assert_eq!(vs.len(), 2);
    match (&vs[0], &vs[1]) {
        (PreviewValue::Hex(a), PreviewValue::Hex(c)) => {
            assert_eq!(a, "0000803f");
            assert_eq!(c, "000000c0");
        }
        other => panic!("unexpected {:?}", other),
    }
}

fn nibble_model(scale: f32, codes: &[u8], dims: &[u64]) -> Vec<u8> {
    let mut b = header(3, 1, 0);
    put_tensor(&mut b, "q", dims, STORAGE_NIBBLE, 0);
    b.extend_from_slice(&scale.to_le_bytes());
    let mut packed = [0u8; 8];
    for (i, c) in codes.iter().enumerate() {
        if i % 2 == 0 {
            packed[i / 2] |= c & 0x0f;
        } else {
            packed[i / 2] |= (c & 0x0f) << 4;
        }
    }
    b.extend_from_slice(&packed);
    b
}

#[test]
fn nibble_code_eight_is_zero() {
    let b = nibble_model(2.0, &[8], &[1]);
    let m = parse(&b).unwrap();
    let vs = preview_tensor(&b, &m, &m.tensors[0], 1, false).unwrap();
    assert_eq!(vs.len(), 1);
    match vs[0] {
        PreviewValue::Scaled { scale, code } => {
            assert_eq!(scale, 2.0f32.to_bits());
            assert_eq!(code, 0);
        }
        ref other => panic!("unexpected {:?}", other),
    }
    assert_eq!(value_f32(&vs[0]), 0.0);
}

#[test]
fn nibble_block_sixteen_codes() {
    let codes: Vec<u8> = (0..16).collect();
    let b = nibble_model(1.5, &codes, &[16]);
    let m = parse(&b).unwrap();
    let vs = preview_tensor(&b, &m, &m.tensors[0], 8, false).unwrap();
    let got: Vec<f32> = vs.iter().map(value_f32).collect();
    assert_eq!(got, vec![-12.0, -10.5, -9.0, -7.5, -6.0, -4.5, -3.0, -1.5]);
    let vs2 = preview_tensor(&b, &m, &m.tensors[0], 1000, false).unwrap();
    let got2: Vec<f32> = vs2.iter().map(value_f32).collect();
    let want: Vec<f32> = (0..16).map(|c| 1.5 * (c as f32 - 8.0)).collect();
    assert_eq!(got2, want);
}

#[test]
fn nibble_second_block_uses_its_own_scale() {
    let mut b = nibble_model(1.0, &[0, 15], &[32]);
    b.extend_from_slice(&2.0f32.to_le_bytes());
    b.extend_from_slice(&[0x9a, 0, 0, 0, 0, 0, 0, 0]);
    let m = parse(&b).unwrap();
    let vs = preview_tensor(&b, &m, &m.tensors[0], 1000, false).unwrap();
    assert_eq!(vs.len(), 32);
    assert_eq!(value_f32(&vs[0]), -8.0);
    assert_eq!(value_f32(&vs[1]), 7.0);
    assert_eq!(value_f32(&vs[16]), 4.0);
    assert_eq!(value_f32(&vs[17]), 2.0);
}

#[test]
fn int8_and_unsupported_storage() {
    let mut b = header(3, 2, 0);
    put_tensor(&mut b, "i", &[2], STORAGE_I8, 0);
    put_tensor(&mut b, "odd", &[2], 77, 2);
    b.extend_from_slice(&[0xfe, 0x05, 0xab, 0xcd]);
    let m = parse(&b).unwrap();
    let vs = preview_tensor(&b, &m, &m.tensors[0], 10, false).unwrap();
    assert!(matches!(vs[0], PreviewValue::Int(-2)));
    assert!(matches!(vs[1], PreviewValue::Int(5)));
    let us = preview_tensor(&b, &m, &m.tensors[1], 10, false).unwrap();
    assert_eq!(us.len(), 2);
    assert!(matches!(us[0], PreviewValue::Unsupported { tag: 77, byte: 0xab }));
    assert!(matches!(us[1], PreviewValue::Unsupported { tag: 77, byte: 0xcd }));
}

#[test]
fn registry_entries() {
    let f = lookup(STORAGE_F32);
    assert_eq!((f.unit_bytes, f.unit_elems, f.decoder), (4, 1, Decoder::Float32));
    let q = lookup(STORAGE_NIBBLE);
    assert_eq!((q.unit_bytes, q.unit_elems, q.decoder), (12, 16, Decoder::Nibble));
    assert_eq!(lookup(1000).decoder, Decoder::Unsupported);
}

#[test]
fn offset_past_end_is_seek_error() {
    let mut b = header(3, 1, 0);
    put_tensor(&mut b, "far", &[1], STORAGE_F32, 100);
    let m = parse(&b).unwrap();
    assert!(matches!(
        preview_tensor(&b, &m, &m.tensors[0], 4, false),
        Err(FormatError::SeekOutOfRange)
    ));
}

#[test]
fn missing_tensor_name() {
    let b = float_model(&[1.0], &[1]);
    let m = parse(&b).unwrap();
    assert!(find_tensor(&m, "nope").is_none());
    assert!(matches!(
        preview_named(&b, &m, "nope", 4, false),
        Err(FormatError::TensorNotFound)
    ));
    let vs = preview_named(&b, &m, "w.weight", 4, false).unwrap();
    assert_eq!(vs.len(), 1);
}

#[test]
fn first_of_duplicate_names() {
    let mut b = header(3, 2, 0);
    put_tensor(&mut b, "t", &[1], STORAGE_F32, 0);
    put_tensor(&mut b, "t", &[2], STORAGE_F32, 4);
    let m = parse(&b).unwrap();
    assert_eq!(find_tensor(&m, "t").unwrap().dims, vec![1]);
}

#[test]
fn tensor_truncated_in_dims() {
    let mut b = header(3, 1, 0);
    put_str(&mut b, "t");
    b.extend_from_slice(&2u32.to_le_bytes());
    b.extend_from_slice(&4u64.to_le_bytes());
    assert!(matches!(
        parse(&b),
        Err(FormatError::Truncated { expected: 8, available: 0 })
    ));
}

#[test]
fn estimate_from_explicit_count() {
    let mut b = header(3, 0, 1);
    put_str(&mut b, "general.parameter_count");
    b.extend_from_slice(&10u32.to_le_bytes());
    b.extend_from_slice(&1234u64.to_le_bytes());
    let m = parse(&b).unwrap();
    assert_eq!(estimate_parameters(&m), 1234);
}

#[test]
fn estimate_from_block_count() {
    let mut b = header(3, 0, 2);
    put_str(&mut b, "general.architecture");
    b.extend_from_slice(&TAG_STRING.to_le_bytes());
    put_str(&mut b, "llama");
    put_str(&mut b, "llama.block_count");
    b.extend_from_slice(&TAG_U32.to_le_bytes());
    b.extend_from_slice(&3u32.to_le_bytes());
    let m = parse(&b).unwrap();
    assert_eq!(estimate_parameters(&m), 3 * PARAMS_PER_BLOCK);
}

#[test]
fn estimate_from_weight_tensors() {
    let mut b = header(3, 3, 0);
    put_tensor(&mut b, "a.weight", &[2, 3], STORAGE_F32, 0);
    put_tensor(&mut b, "a.bias", &[3], STORAGE_F32, 0);
    put_tensor(&mut b, "a.scale", &[100], STORAGE_F32, 0);
    let m = parse(&b).unwrap();
    assert_eq!(estimate_parameters(&m), 9);
}

#[test]
fn cursor_reads_and_seeks() {
    let b = [1u8, 2, 3, 4, 5, 6, 7, 8, 9, 10];
    let mut cur = ByteCursor::new(&b);
    assert_eq!(cur.read_u16_le().unwrap(), 0x0201);
    assert_eq!(cur.read_u32_le().unwrap(), 0x06050403);
    assert_eq!(cur.remaining(), 4);
    assert!(cur.seek(2).is_ok());
    assert_eq!(cur.read_u64_le().unwrap(), 0x0a09080706050403);
    assert!(matches!(cur.seek(11), Err(FormatError::SeekOutOfRange)));
    assert!(matches!(
        cur.read_u8(),
        Err(FormatError::Truncated { expected: 1, available: 0 })
    ));
    assert!(cur.seek(10).is_ok());
}

#[test]
fn half_and_wide_integer_storage() {
    let mut b = header(3, 3, 0);
    put_tensor(&mut b, "h", &[1], STORAGE_F16, 0);
    put_tensor(&mut b, "s", &[2], STORAGE_I16, 2);
    put_tensor(&mut b, "w", &[1], STORAGE_I32, 6);
    b.extend_from_slice(&0x3c00u16.to_le_bytes());
    b.extend_from_slice(&(-300i16).to_le_bytes());
    b.extend_from_slice(&(7i16).to_le_bytes());
    b.extend_from_slice(&(-70000i32).to_le_bytes());
    let m = parse(&b).unwrap();
    let h = preview_tensor(&b, &m, &m.tensors[0], 8, false).unwrap();
    assert!(matches!(h[0], PreviewValue::Float16(0x3c00)));
    let s = preview_tensor(&b, &m, &m.tensors[1], 8, false).unwrap();
    assert_eq!(s.len(), 2);
    assert!(matches!(s[0], PreviewValue::Int(-300)));
    assert!(matches!(s[1], PreviewValue::Int(7)));
    let w = preview_tensor(&b, &m, &m.tensors[2], 8, false).unwrap();
    assert!(matches!(w[0], PreviewValue::Int(-70000)));
}

#[test]
fn raw_nibble_block_is_one_unit() {
    let codes: Vec<u8> = (0..16).collect();
    let b = nibble_model(1.0, &codes, &[16]);
    let m = parse(&b).unwrap();
    let vs = preview_tensor(&b, &m, &m.tensors[0], 40, true).unwrap();
    assert_eq!(vs.len(), 1);
    match &vs[0] {
        PreviewValue::Hex(h) => assert_eq!(h, "0000803f1032547698badcfe"),
        other => panic!("unexpected {:?}", other),
    }
}

#[test]
fn estimate_from_decimal_string_count() {
    let mut b = header(3, 0, 1);
    put_str(&mut b, "general.parameter_count");
    b.extend_from_slice(&TAG_STRING.to_le_bytes());
    put_str(&mut b, "7000000000");
    let m = parse(&b).unwrap();
    assert_eq!(estimate_parameters(&m), 7_000_000_000);
}

#[test]
fn estimate_ignores_non_numeric_string_count() {
    let mut b = header(3, 1, 1);
    put_str(&mut b, "general.parameter_count");
    b.extend_from_slice(&TAG_STRING.to_le_bytes());
    put_str(&mut b, "7B");
    put_tensor(&mut b, "x.weight", &[4, 5], STORAGE_F32, 0);
    let m = parse(&b).unwrap();
    assert_eq!(estimate_parameters(&m), 20);
}

#[test]
fn decimal_text_counts() {
    assert_eq!(parse_decimal("0"), Some(0));
    assert_eq!(parse_decimal("18446744073709551615"), Some(u64::MAX));
    assert_eq!(parse_decimal("18446744073709551616"), None);
    assert_eq!(parse_decimal(""), None);
    assert_eq!(parse_decimal("12a"), None);
}
