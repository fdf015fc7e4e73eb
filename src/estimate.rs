//! Best-effort estimate of a model's parameter count.
use vstd::prelude::*;
use crate::model::{MetadataTable, ParsedModel, TableModel, TensorModel, ModelView, unique_keys};
use crate::quant::{capped_product, dims_product, min};
use crate::value::{MetadataValue, ValueModel, value_model};

verus! {

/// Parameters assumed for each block when only a block count is known.
pub const PARAMS_PER_BLOCK: u64 = 12_582_912;

/// The value stored under `k`, if any.
pub open spec fn lookup_key(t: TableModel, k: Seq<char>) -> Option<ValueModel> {
    if exists|i: int| 0 <= i < t.len() && #[trigger] t[i].0 == k {
        Some(t[choose|i: int| 0 <= i < t.len() && #[trigger] t[i].0 == k].1)
    } else {
        None
    }
}

pub open spec fn is_decimal_digit(c: char) -> bool {
    '0' <= c && c <= '9'
}

/// Value of a run of decimal digits, most significant first.
pub open spec fn decimal_value(s: Seq<char>) -> int
    decreases s.len(),
{
    if s.len() == 0 {
        0
    } else {
        decimal_value(s.drop_last()) * 10 + (s.last() as int - '0' as int)
    }
}

/// A non-empty string of decimal digits whose value fits in 64 bits.
pub open spec fn decimal_count(s: Seq<char>) -> Option<u64> {
    if s.len() > 0 && (forall|i: int| 0 <= i < s.len() ==> is_decimal_digit(#[trigger] s[i]))
        && decimal_value(s) <= u64::MAX {
        Some(decimal_value(s) as u64)
    } else {
        None
    }
}

/// A non-negative integer value, or a string of decimal digits, as a count.
pub open spec fn count_of(v: ValueModel) -> Option<u64> {
    match v {
        ValueModel::Str(s) => decimal_count(s),
        ValueModel::U8(x) => Some(x as u64),
        ValueModel::U16(x) => Some(x as u64),
        ValueModel::U32(x) => Some(x as u64),
        ValueModel::U64(x) => Some(x),
        ValueModel::I8(x) => if x >= 0 {
            Some(x as u64)
        } else {
            None
        },
        ValueModel::I16(x) => if x >= 0 {
            Some(x as u64)
        } else {
            None
        },
        ValueModel::I32(x) => if x >= 0 {
            Some(x as u64)
        } else {
            None
        },
        ValueModel::I64(x) => if x >= 0 {
            Some(x as u64)
        } else {
            None
        },
        _ => None,
    }
}

/// The count stored under `k`, if there is one.
pub open spec fn count_under(t: TableModel, k: Seq<char>) -> Option<u64> {
    match lookup_key(t, k) {
        Some(v) => count_of(v),
        None => None,
    }
}

/// The key `<architecture>.block_count`, when the architecture is a string.
pub open spec fn block_key(t: TableModel) -> Option<Seq<char>> {
    match lookup_key(t, "general.architecture"@) {
        Some(ValueModel::Str(a)) => Some(a + ".block_count"@),
        _ => None,
    }
}

pub open spec fn ends_with(s: Seq<char>, t: Seq<char>) -> bool {
    t.len() <= s.len() && s.subrange(s.len() - t.len(), s.len() as int) == t
}

/// Names of weight and bias tensors.
pub open spec fn is_weight_name(n: Seq<char>) -> bool {
    ends_with(n, ".weight"@) || ends_with(n, ".bias"@)
}

/// Elements of all weight and bias tensors.
pub open spec fn weight_total(ts: Seq<TensorModel>) -> nat
    decreases ts.len(),
{
    if ts.len() == 0 {
        0
    } else {
        weight_total(ts.drop_last()) + if is_weight_name(ts.last().name) {
            dims_product(ts.last().dims)
        } else {
            0
        }
    }
}

/// An explicit parameter count, else block count times `PARAMS_PER_BLOCK`,
/// else the elements of weight and bias tensors; sums saturate.
pub open spec fn estimate_spec(m: ModelView) -> u64 {
    let explicit = count_under(m.metadata, "general.parameter_count"@);
    let blocks = match block_key(m.metadata) {
        Some(k) => count_under(m.metadata, k),
        None => None,
    };
    if explicit is Some {
        explicit->0
    } else if blocks is Some {
        min(blocks->0 * PARAMS_PER_BLOCK, u64::MAX as int) as u64
    } else {
        min(weight_total(m.tensors) as int, u64::MAX as int) as u64
    }
}

/// Whether `s` ends with `t`.
pub fn str_ends_with(s: &str, t: &str) -> (r: bool)
    ensures
        r == ends_with(s@, t@),
{
    let n = s.unicode_len();
    let m = t.unicode_len();
    if m > n {
        return false;
    }
    let mut i: usize = 0;
    while i < m
        invariant
            n == s@.len(),
            m == t@.len(),
            m <= n,
            i <= m,
            forall|j: int| 0 <= j < i ==> s@[n - m + j] == #[trigger] t@[j],
        decreases m - i,
    {
        if s.get_char(n - m + i) != t.get_char(i) {
            assert(s@.subrange(n - m, n as int)[i as int] != t@[i as int]);
            return false;
        }
        i += 1;
    }
    assert(s@.subrange(n - m, n as int) =~= t@);
    true
}

proof fn lemma_decimal_grows(s: Seq<char>, i: int, j: int)
    requires
        0 <= i <= j <= s.len(),
        forall|k: int| 0 <= k < s.len() ==> is_decimal_digit(#[trigger] s[k]),
    ensures
        0 <= decimal_value(s.subrange(0, i)) <= decimal_value(s.subrange(0, j)),
    decreases j,
{
    if j > 0 {
        if i < j {
            lemma_decimal_grows(s, i, j - 1);
        } else {
            lemma_decimal_grows(s, j - 1, j - 1);
        }
        assert(s.subrange(0, j).drop_last() =~= s.subrange(0, j - 1));
        assert(is_decimal_digit(s[j - 1]));
    }
}

/// Reads a non-empty string of decimal digits as a 64-bit count.
pub fn parse_decimal(s: &str) -> (r: Option<u64>)
    ensures
        r == decimal_count(s@),
{
    let n = s.unicode_len();
    if n == 0 {
        return None;
    }
    let mut acc: u64 = 0;
    let mut i: usize = 0;
    proof {
        assert(s@.subrange(0, 0).len() == 0);
    }
    while i < n
        invariant
            n == s@.len(),
            i <= n,
            acc as int == decimal_value(s@.subrange(0, i as int)),
            forall|k: int| 0 <= k < i ==> is_decimal_digit(#[trigger] s@[k]),
        decreases n - i,
    {
        let c = s.get_char(i);
        if !('0' <= c && c <= '9') {
            assert(!is_decimal_digit(s@[i as int]));
            return None;
        }
        let d = (c as u32 - '0' as u32) as u64;
        proof {
            assert(s@.subrange(0, i + 1).drop_last() =~= s@.subrange(0, i as int));
            assert(decimal_value(s@.subrange(0, i + 1)) == acc * 10 + d);
        }
        let next = match acc.checked_mul(10) {
            Some(m) => m.checked_add(d),
            None => None,
        };
        match next {
            Some(v) => acc = v,
            None => {
                proof {
                    if forall|k: int| 0 <= k < n ==> is_decimal_digit(#[trigger] s@[k]) {
                        lemma_decimal_grows(s@, i + 1, n as int);
                        assert(s@.subrange(0, n as int) =~= s@);
                    }
                }
                return None;
            },
        }
        i += 1;
    }
    proof {
        assert(s@.subrange(0, n as int) =~= s@);
    }
    Some(acc)
}

fn count_value(v: &MetadataValue) -> (r: Option<u64>)
    ensures
        r == count_of(value_model(*v)),
{
    match v {
        MetadataValue::Str(s) => parse_decimal(s.as_str()),
        MetadataValue::Uint8(x) => Some(*x as u64),
        MetadataValue::Uint16(x) => Some(*x as u64),
        MetadataValue::Uint32(x) => Some(*x as u64),
        MetadataValue::Uint64(x) => Some(*x),
        MetadataValue::Int8(x) => if *x >= 0 {
            Some(*x as u64)
        } else {
            None
        },
        MetadataValue::Int16(x) => if *x >= 0 {
            Some(*x as u64)
        } else {
            None
        },
        MetadataValue::Int32(x) => if *x >= 0 {
            Some(*x as u64)
        } else {
            None
        },
        MetadataValue::Int64(x) => if *x >= 0 {
            Some(*x as u64)
        } else {
            None
        },
        _ => None,
    }
}

/// Looks `key` up, in terms of the table's model.
fn find_value<'t>(table: &'t MetadataTable, key: &String) -> (r: Option<&'t MetadataValue>)
    requires
        table.wf(),
    ensures
        match r {
            Some(v) => lookup_key(table.view(), key@) == Some(value_model(*v)),
            None => lookup_key(table.view(), key@) is None,
        },
{
    let r = table.get(key);
    proof {
        let t = table.view();
        match r {
            Some(v) => {
                let i = choose|i: int|
                    0 <= i < table.entries@.len() && table.entries@[i].0@ == key@ && *v
                        == table.entries@[i].1;
                assert(t[i].0 == key@);
                let c = choose|c: int| 0 <= c < t.len() && #[trigger] t[c].0 == key@;
                assert(c == i);
            },
            None => {
                assert forall|i: int| 0 <= i < t.len() implies #[trigger] t[i].0 != key@ by {
                    assert(table.entries@[i].0@ != key@);
                }
            },
        }
    }
    r
}

fn count_for(table: &MetadataTable, key: &String) -> (r: Option<u64>)
    requires
        table.wf(),
    ensures
        r == count_under(table.view(), key@),
{
    match find_value(table, key) {
        Some(v) => count_value(v),
        None => None,
    }
}

/// Estimated number of parameters; a heuristic, not an exact count.
pub fn estimate_parameters(model: &ParsedModel) -> (r: u64)
    requires
        model.wf(),
    ensures
        r == estimate_spec(model.view()),
{
    let t = &model.metadata;
    let explicit = count_for(t, &"general.parameter_count".to_owned());
    if let Some(n) = explicit {
        return n;
    }
    let arch_key = "general.architecture".to_owned();
    let blocks = match find_value(t, &arch_key) {
        Some(MetadataValue::Str(a)) => {
            let mut k = a.clone();
            k.append(".block_count");
            count_for(t, &k)
        },
        _ => None,
    };
    if let Some(b) = blocks {
        return match b.checked_mul(PARAMS_PER_BLOCK) {
            Some(p) => p,
            None => u64::MAX,
        };
    }
    let mut total: u64 = 0;
    let mut i: usize = 0;
    let ghost ts = model.view().tensors;
    while i < model.tensors.len()
        invariant
            i <= model.tensors@.len(),
            ts.len() == model.tensors@.len(),
            forall|j: int| 0 <= j < ts.len() ==> #[trigger] ts[j] == model.tensors@[j].view(),
            total as int == min(weight_total(ts.subrange(0, i as int)) as int, u64::MAX as int),
        decreases model.tensors@.len() - i,
    {
        let tensor = &model.tensors[i];
        let name = tensor.name.as_str();
        proof {
            assert(ts.subrange(0, i + 1).drop_last() =~= ts.subrange(0, i as int));
            assert(ts.subrange(0, i + 1).last() == ts[i as int]);
        }
        if str_ends_with(name, ".weight") || str_ends_with(name, ".bias") {
            let p = capped_product(&tensor.dims, u64::MAX);
            total = total.saturating_add(p);
        }
        i += 1;
    }
    proof {
        assert(ts.subrange(0, ts.len() as int) =~= ts);
    }
    total
}

} // verus!
