//! Metadata table, tensor descriptors and the whole-file parse.
use vstd::prelude::*;
use crate::cursor::{ByteCursor, FormatError, Step, u32_at, u64_at};
use crate::header::{FileHeader, decode_header, header_at};
use crate::value::{
    DEFAULT_MAX_DEPTH, MetadataValue, ValueModel, decode_value, read_string, string_at,
    value_at, value_model,
};

verus! {

/// Model of a metadata table: keys with their values, in first-insertion order.
pub type TableModel = Seq<(Seq<char>, ValueModel)>;

/// Inserts `(k, v)`: an entry with key `k` gets the new value in place,
/// otherwise the pair goes at the end.
pub open spec fn table_insert(t: TableModel, k: Seq<char>, v: ValueModel) -> TableModel {
    if exists|i: int| 0 <= i < t.len() && #[trigger] t[i].0 == k {
        Seq::new(t.len(), |i: int| if t[i].0 == k { (k, v) } else { t[i] })
    } else {
        t.push((k, v))
    }
}

pub open spec fn unique_keys(t: TableModel) -> bool {
    forall|i: int, j: int| 0 <= i < t.len() && 0 <= j < t.len() && i != j ==> #[trigger] t[i].0 != #[trigger] t[j].0
}

/// String keys mapped to values; keys are unique.
pub struct MetadataTable {
    pub entries: Vec<(String, MetadataValue)>,
}

impl MetadataTable {
    pub open spec fn view(&self) -> TableModel {
        Seq::new(
            self.entries@.len(),
            |i: int| (self.entries@[i].0@, value_model(self.entries@[i].1)),
        )
    }

    pub open spec fn wf(&self) -> bool {
        unique_keys(self.view())
    }

    pub fn new() -> (r: Self)
        ensures
            r.wf(),
            r.view() == Seq::<(Seq<char>, ValueModel)>::empty(),
    {
        let r = MetadataTable { entries: Vec::new() };
        assert(r.view() =~= Seq::<(Seq<char>, ValueModel)>::empty());
        r
    }

    pub fn len(&self) -> (r: usize)
        ensures
            r == self.view().len(),
    {
        self.entries.len()
    }

    /// Adds or overwrites the entry for `key`.
    pub fn insert(&mut self, key: String, value: MetadataValue)
        requires
            old(self).wf(),
        ensures
            final(self).wf(),
            final(self).view() == table_insert(old(self).view(), key@, value_model(value)),
    {
        let ghost t = self.view();
        let ghost k = key@;
        let ghost v = value_model(value);
        let mut i: usize = 0;
        while i < self.entries.len()
            invariant
                i <= self.entries@.len(),
                self.view() == t,
                k == key@,
                v == value_model(value),
                t == old(self).view(),
                unique_keys(t),
                forall|j: int| 0 <= j < i ==> #[trigger] t[j].0 != k,
            decreases self.entries@.len() - i,
        {
            if self.entries[i].0.eq(&key) {
                proof {
                    assert(t[i as int] == (self.entries@[i as int].0@, value_model(
                        self.entries@[i as int].1,
                    )));
                    assert(t[i as int].0 == k);
                }
                let ghost before = self.entries@;
                self.entries.set(i, (key, value));
                proof {
                    let target = Seq::new(
                        t.len(),
                        |j: int| if t[j].0 == k { (k, v) } else { t[j] },
                    );
                    assert forall|j: int| 0 <= j < t.len() implies self.view()[j] == target[j] by {
                        if j != i {
                            assert(self.entries@[j] == before[j]);
                            assert(t[j] == (before[j].0@, value_model(before[j].1)));
                            assert(t[j].0 != t[i as int].0);
                        }
                    }
                    assert(self.view() =~= target);
                }
                return;
            }
            i += 1;
        }
        self.entries.push((key, value));
        proof {
            assert(self.view() =~= t.push((k, v)));
        }
    }

    /// The value stored under `key`, if any.
    pub fn get(&self, key: &String) -> (r: Option<&MetadataValue>)
        requires
            self.wf(),
        ensures
            match r {
                Some(v) => exists|i: int|
                    0 <= i < self.entries@.len() && self.entries@[i].0@ == key@ && *v
                        == self.entries@[i].1,
                None => forall|i: int|
                    0 <= i < self.entries@.len() ==> self.entries@[i].0@ != key@,
            },
    {
        let mut i: usize = 0;
        while i < self.entries.len()
            invariant
                i <= self.entries@.len(),
                forall|j: int| 0 <= j < i ==> self.entries@[j].0@ != key@,
            decreases self.entries@.len() - i,
        {
            if self.entries[i].0.eq(key) {
                return Some(&self.entries[i].1);
            }
            i += 1;
        }
        None
    }
}


/// `n` metadata entries at `p`, each inserted into `acc` in turn.
pub open spec fn entries_at(b: Seq<u8>, p: int, n: nat, depth: nat, acc: TableModel) -> Step<
    TableModel,
>
    decreases n,
{
    if n == 0 {
        Ok((acc, p))
    } else {
        match string_at(b, p) {
            Err(e) => Err(e),
            Ok((k, q)) => match u32_at(b, q) {
                Err(e) => Err(e),
                Ok((t, r)) => match value_at(b, r, t, depth) {
                    Err(e) => Err(e),
                    Ok((v, s)) => entries_at(b, s, (n - 1) as nat, depth, table_insert(acc, k, v)),
                },
            },
        }
    }
}

/// Decodes exactly `count` key/value entries.
pub fn decode_metadata(cur: &mut ByteCursor, count: u64, depth: u32) -> (r: Result<
    MetadataTable,
    FormatError,
>)
    requires
        old(cur).wf(),
    ensures
        final(cur).wf(),
        final(cur).data@ == old(cur).data@,
        match r {
            Ok(t) => t.wf() && entries_at(
                old(cur).data@,
                old(cur).pos as int,
                count as nat,
                depth as nat,
                Seq::empty(),
            ) == Ok::<(TableModel, int), FormatError>((t.view(), final(cur).pos as int)),
            Err(e) => entries_at(
                old(cur).data@,
                old(cur).pos as int,
                count as nat,
                depth as nat,
                Seq::empty(),
            ) == Err::<(TableModel, int), FormatError>(e),
        },
{
    let ghost b = cur.data@;
    let mut table = MetadataTable::new();
    let mut i: u64 = 0;
    while i < count
        invariant
            cur.wf(),
            cur.data@ == b,
            b == old(cur).data@,
            table.wf(),
            i <= count,
            entries_at(b, old(cur).pos as int, count as nat, depth as nat, Seq::empty())
                == entries_at(b, cur.pos as int, (count - i) as nat, depth as nat, table.view()),
        decreases count - i,
    {
        let key = read_string(cur)?;
        let tag = cur.read_u32_le()?;
        let value = decode_value(cur, tag, depth)?;
        table.insert(key, value);
        i += 1;
    }
    Ok(table)
}

/// Model of a tensor descriptor.
pub struct TensorModel {
    pub name: Seq<char>,
    pub dims: Seq<u64>,
    pub storage_type: u32,
    pub offset: u64,
}

/// A named tensor: its shape, storage type and offset into the data region.
#[derive(Debug)]
pub struct TensorDescriptor {
    pub name: String,
    pub dims: Vec<u64>,
    pub storage_type: u32,
    pub offset: u64,
}

impl TensorDescriptor {
    pub open spec fn view(&self) -> TensorModel {
        TensorModel {
            name: self.name@,
            dims: self.dims@,
            storage_type: self.storage_type,
            offset: self.offset,
        }
    }
}

/// `n` dimension sizes at `p`, appended to `acc`.
pub open spec fn dims_at(b: Seq<u8>, p: int, n: nat, acc: Seq<u64>) -> Step<Seq<u64>>
    decreases n,
{
    if n == 0 {
        Ok((acc, p))
    } else {
        match u64_at(b, p) {
            Err(e) => Err(e),
            Ok((d, q)) => dims_at(b, q, (n - 1) as nat, acc.push(d)),
        }
    }
}

/// A tensor descriptor at `p`: name, dimension count, dimensions, storage
/// type and offset.
pub open spec fn tensor_at(b: Seq<u8>, p: int) -> Step<TensorModel> {
    match string_at(b, p) {
        Err(e) => Err(e),
        Ok((name, q)) => match u32_at(b, q) {
            Err(e) => Err(e),
            Ok((nd, r)) => match dims_at(b, r, nd as nat, Seq::empty()) {
                Err(e) => Err(e),
                Ok((dims, s)) => match u32_at(b, s) {
                    Err(e) => Err(e),
                    Ok((st, t)) => match u64_at(b, t) {
                        Err(e) => Err(e),
                        Ok((off, u)) => Ok(
                            (TensorModel { name, dims, storage_type: st, offset: off }, u),
                        ),
                    },
                },
            },
        },
    }
}

/// `n` tensor descriptors at `p`, appended to `acc`.
pub open spec fn tensors_at(b: Seq<u8>, p: int, n: nat, acc: Seq<TensorModel>) -> Step<
    Seq<TensorModel>,
>
    decreases n,
{
    if n == 0 {
        Ok((acc, p))
    } else {
        match tensor_at(b, p) {
            Err(e) => Err(e),
            Ok((t, q)) => tensors_at(b, q, (n - 1) as nat, acc.push(t)),
        }
    }
}

pub open spec fn tensors_view(ts: Seq<TensorDescriptor>) -> Seq<TensorModel> {
    Seq::new(ts.len(), |i: int| ts[i].view())
}

/// Decodes one tensor descriptor.
pub fn decode_tensor(cur: &mut ByteCursor) -> (r: Result<TensorDescriptor, FormatError>)
    requires
        old(cur).wf(),
    ensures
        final(cur).wf(),
        final(cur).data@ == old(cur).data@,
        match r {
            Ok(t) => tensor_at(old(cur).data@, old(cur).pos as int) == Ok::<
                (TensorModel, int),
                FormatError,
            >((t.view(), final(cur).pos as int)),
            Err(e) => tensor_at(old(cur).data@, old(cur).pos as int) == Err::<
                (TensorModel, int),
                FormatError,
            >(e),
        },
{
    let ghost b = cur.data@;
    let name = read_string(cur)?;
    let ghost after_name = cur.pos as int;
    let nd = cur.read_u32_le()?;
    let ghost start = cur.pos as int;
    let mut dims: Vec<u64> = Vec::new();
    let mut i: u32 = 0;
    while i < nd
        invariant
            cur.wf(),
            cur.data@ == b,
            b == old(cur).data@,
            string_at(b, old(cur).pos as int) == Ok::<(Seq<char>, int), FormatError>(
                (name@, after_name),
            ),
            u32_at(b, after_name) == Ok::<(u32, int), FormatError>((nd, start)),
            i <= nd,
            dims_at(b, start, nd as nat, Seq::empty()) == dims_at(
                b,
                cur.pos as int,
                (nd - i) as nat,
                dims@,
            ),
        decreases nd - i,
    {
        let d = cur.read_u64_le()?;
        dims.push(d);
        i += 1;
    }
    let storage_type = cur.read_u32_le()?;
    let offset = cur.read_u64_le()?;
    Ok(TensorDescriptor { name, dims, storage_type, offset })
}

/// Decodes exactly `count` tensor descriptors, in file order.
pub fn decode_tensors(cur: &mut ByteCursor, count: u64) -> (r: Result<
    Vec<TensorDescriptor>,
    FormatError,
>)
    requires
        old(cur).wf(),
    ensures
        final(cur).wf(),
        final(cur).data@ == old(cur).data@,
        match r {
            Ok(ts) => tensors_at(old(cur).data@, old(cur).pos as int, count as nat, Seq::empty())
                == Ok::<(Seq<TensorModel>, int), FormatError>(
                (tensors_view(ts@), final(cur).pos as int),
            ),
            Err(e) => tensors_at(old(cur).data@, old(cur).pos as int, count as nat, Seq::empty())
                == Err::<(Seq<TensorModel>, int), FormatError>(e),
        },
{
    let ghost b = cur.data@;
    let mut tensors: Vec<TensorDescriptor> = Vec::new();
    let mut i: u64 = 0;
    proof {
        assert(tensors_view(tensors@) =~= Seq::<TensorModel>::empty());
    }
    while i < count
        invariant
            cur.wf(),
            cur.data@ == b,
            b == old(cur).data@,
            i <= count,
            tensors_at(b, old(cur).pos as int, count as nat, Seq::empty()) == tensors_at(
                b,
                cur.pos as int,
                (count - i) as nat,
                tensors_view(tensors@),
            ),
        decreases count - i,
    {
        let t = decode_tensor(cur)?;
        proof {
            assert(tensors_view(tensors@.push(t)) =~= tensors_view(tensors@).push(t.view()));
        }
        tensors.push(t);
        i += 1;
    }
    Ok(tensors)
}

/// Model of a parsed file.
pub struct ModelView {
    pub header: FileHeader,
    pub metadata: TableModel,
    pub tensors: Seq<TensorModel>,
    pub data_start: int,
}

/// The complete result of parsing one file.
pub struct ParsedModel {
    pub header: FileHeader,
    pub metadata: MetadataTable,
    pub tensors: Vec<TensorDescriptor>,
    /// Where the tensor-data region begins: right after the last descriptor.
    pub data_start: usize,
}

impl ParsedModel {
    pub open spec fn view(&self) -> ModelView {
        ModelView {
            header: self.header,
            metadata: self.metadata.view(),
            tensors: tensors_view(self.tensors@),
            data_start: self.data_start as int,
        }
    }

    pub open spec fn wf(&self) -> bool {
        self.metadata.wf()
    }
}

/// Header, then metadata, then tensor descriptors; the first failure ends it.
pub open spec fn parse_spec(b: Seq<u8>, depth: nat) -> Result<ModelView, FormatError> {
    match header_at(b, 0) {
        Err(e) => Err(e),
        Ok((h, p)) => match entries_at(b, p, h.metadata_count as nat, depth, Seq::empty()) {
            Err(e) => Err(e),
            Ok((m, q)) => match tensors_at(b, q, h.tensor_count as nat, Seq::empty()) {
                Err(e) => Err(e),
                Ok((ts, r)) => Ok(ModelView { header: h, metadata: m, tensors: ts, data_start: r }),
            },
        },
    }
}

/// Parses a whole file, allowing arrays to nest `max_depth` levels.
pub fn parse_with_depth(data: &[u8], max_depth: u32) -> (r: Result<ParsedModel, FormatError>)
    ensures
        match r {
            Ok(m) => m.wf() && parse_spec(data@, max_depth as nat) == Ok::<ModelView, FormatError>(
                m.view(),
            ),
            Err(e) => parse_spec(data@, max_depth as nat) == Err::<ModelView, FormatError>(e),
        },
{
    let mut cur = ByteCursor::new(data);
    let header = decode_header(&mut cur)?;
    let metadata = decode_metadata(&mut cur, header.metadata_count, max_depth)?;
    let tensors = decode_tensors(&mut cur, header.tensor_count)?;
    Ok(ParsedModel { header, metadata, tensors, data_start: cur.pos })
}

/// Parses a whole file with the default nesting bound.
pub fn parse(data: &[u8]) -> (r: Result<ParsedModel, FormatError>)
    ensures
        match r {
            Ok(m) => m.wf() && parse_spec(data@, DEFAULT_MAX_DEPTH as nat) == Ok::<
                ModelView,
                FormatError,
            >(m.view()),
            Err(e) => parse_spec(data@, DEFAULT_MAX_DEPTH as nat) == Err::<ModelView, FormatError>(
                e,
            ),
        },
{
    parse_with_depth(data, DEFAULT_MAX_DEPTH)
}


/// Index of the first tensor named `name`, if any.
pub open spec fn first_named(ts: Seq<TensorModel>, name: Seq<char>) -> Option<int> {
    if exists|i: int| 0 <= i < ts.len() && #[trigger] ts[i].name == name {
        Some(
            choose|i: int|
                0 <= i < ts.len() && ts[i].name == name && forall|j: int|
                    0 <= j < i ==> #[trigger] ts[j].name != name,
        )
    } else {
        None
    }
}

/// The first tensor named `name`.
pub fn find_tensor<'m>(model: &'m ParsedModel, name: &str) -> (r: Option<&'m TensorDescriptor>)
    ensures
        match r {
            Some(t) => exists|i: int|
                0 <= i < model.tensors@.len() && first_named(model.view().tensors, name@) == Some(i)
                    && *t == model.tensors@[i],
            None => first_named(model.view().tensors, name@) is None,
        },
{
    let key = name.to_owned();
    let ghost ts = model.view().tensors;
    let mut i: usize = 0;
    while i < model.tensors.len()
        invariant
            i <= model.tensors@.len(),
            ts == tensors_view(model.tensors@),
            key@ == name@,
            forall|j: int| 0 <= j < i ==> #[trigger] ts[j].name != name@,
        decreases model.tensors@.len() - i,
    {
        if model.tensors[i].name.eq(&key) {
            proof {
                assert(ts[i as int].name == name@);
                let c = choose|c: int|
                    0 <= c < ts.len() && ts[c].name == name@ && forall|j: int|
                        0 <= j < c ==> #[trigger] ts[j].name != name@;
                if c < i {
                } else if c > i {
                    assert(ts[i as int].name != name@);
                }
            }
            return Some(&model.tensors[i]);
        }
        i += 1;
    }
    None
}

} // verus!
