//! The reflection decoder: a merged pool of message descriptors, and
//! decoding of arbitrary payload bytes into a structurally inspectable
//! message given only a fully-qualified type name.
//!
//! Descriptors are an explicit dispatch table: each message schema lists
//! its fields with their numbers and scalar kinds, and the decoder walks
//! the wire format against that table. Two bundled descriptor sets cover
//! the payload types and the interface types; merging them rejects a type
//! name defined twice, which is a startup-time configuration error.

use vstd::prelude::*;
use vstd::string::StringExecFns;
use crate::error::Error;
use crate::wire::{parse_fields, spec_fields_view, spec_parse_fields, spec_wt, SpecWireField,
    SpecWireValue, WireField, WireValue};

verus! {

/// The scalar kind a message field holds.
#[derive(Clone, Copy, Debug, PartialEq, Eq, Structural)]
pub enum FieldKind {
    Double,
    Float,
    Int32,
    Int64,
    Uint32,
    Uint64,
    Boolean,
    Text,
    Bytes,
    Nested,
}

/// The wire type that each field kind is encoded with.
pub open spec fn spec_kind_wt(k: FieldKind) -> u64 {
    match k {
        FieldKind::Double => 1,
        FieldKind::Float => 5,
        FieldKind::Int32 => 0,
        FieldKind::Int64 => 0,
        FieldKind::Uint32 => 0,
        FieldKind::Uint64 => 0,
        FieldKind::Boolean => 0,
        FieldKind::Text => 2,
        FieldKind::Bytes => 2,
        FieldKind::Nested => 2,
    }
}

/// The wire type that each field kind is encoded with.
pub fn kind_wt(k: FieldKind) -> (r: u64)
    ensures
        r == spec_kind_wt(k),
{
    match k {
        FieldKind::Double => 1,
        FieldKind::Float => 5,
        FieldKind::Int32 => 0,
        FieldKind::Int64 => 0,
        FieldKind::Uint32 => 0,
        FieldKind::Uint64 => 0,
        FieldKind::Boolean => 0,
        FieldKind::Text => 2,
        FieldKind::Bytes => 2,
        FieldKind::Nested => 2,
    }
}

/// One field of a message descriptor.
pub struct FieldSchema {
    pub name: String,
    pub number: u64,
    pub kind: FieldKind,
}

/// One field of a message descriptor, at the spec level.
pub struct SpecFieldSchema {
    pub name: Seq<char>,
    pub number: u64,
    pub kind: FieldKind,
}

impl View for FieldSchema {
    type V = SpecFieldSchema;

    open spec fn view(&self) -> SpecFieldSchema {
        SpecFieldSchema { name: self.name@, number: self.number, kind: self.kind }
    }
}

/// A message descriptor: the fully-qualified type name and the fields.
pub struct MessageSchema {
    pub full_name: String,
    pub fields: Vec<FieldSchema>,
}

/// A message descriptor, at the spec level.
pub struct SpecMessageSchema {
    pub full_name: Seq<char>,
    pub fields: Seq<SpecFieldSchema>,
}

impl View for MessageSchema {
    type V = SpecMessageSchema;

    open spec fn view(&self) -> SpecMessageSchema {
        SpecMessageSchema {
            full_name: self.full_name@,
            fields: self.fields@.map_values(|f: FieldSchema| f@),
        }
    }
}

impl MessageSchema {
    /// A copy of this descriptor.
    pub fn duplicate(&self) -> (r: MessageSchema)
        ensures
            r@ == self@,
    {
        let full_name = self.full_name.clone();
        let mut fields: Vec<FieldSchema> = Vec::new();
        let mut i: usize = 0;
        while i < self.fields.len()
            invariant
                i <= self.fields@.len(),
                fields@.map_values(|f: FieldSchema| f@) =~= self.fields@.map_values(
                    |f: FieldSchema| f@,
                ).take(i as int),
            decreases self.fields@.len() - i,
        {
            let f = FieldSchema {
                name: self.fields[i].name.clone(),
                number: self.fields[i].number,
                kind: self.fields[i].kind,
            };
            let ghost old_fields = fields@;
            let ghost fv = f@;
            fields.push(f);
            proof {
                let all = self.fields@.map_values(|g: FieldSchema| g@);
                assert(fv == all[i as int]);
                assert(fields@.map_values(|g: FieldSchema| g@) =~= old_fields.map_values(
                    |g: FieldSchema| g@,
                ).push(fv));
                assert(all.take(i + 1) =~= all.take(i as int).push(all[i as int]));
                assert(fields@.map_values(|g: FieldSchema| g@) =~= all.take(i + 1));
            }
            i = i + 1;
        }
        proof {
            let all = self.fields@.map_values(|f: FieldSchema| f@);
            assert(all.take(all.len() as int) =~= all);
        }
        MessageSchema { full_name, fields }
    }
}

/// Which merged descriptor set a type came from.
#[derive(Clone, Copy, Debug, PartialEq, Eq, Structural)]
pub enum DescriptorSource {
    Payloads,
    Interfaces,
}

/// The merged pool of message descriptors, each with the source set that
/// defined it. Type names are unique within the pool.
pub struct DescriptorPool {
    entries: Vec<(MessageSchema, DescriptorSource)>,
}

/// The views of a pool entry sequence.
pub open spec fn spec_pool_views(es: Seq<(MessageSchema, DescriptorSource)>) -> Seq<
    (SpecMessageSchema, DescriptorSource),
> {
    es.map_values(|e: (MessageSchema, DescriptorSource)| (e.0@, e.1))
}

impl View for DescriptorPool {
    type V = Seq<(SpecMessageSchema, DescriptorSource)>;

    closed spec fn view(&self) -> Seq<(SpecMessageSchema, DescriptorSource)> {
        spec_pool_views(self.entries@)
    }
}

/// The first entry that defines `name`, if any; with distinct names it is
/// the only one.
pub open spec fn spec_pool_find(
    es: Seq<(SpecMessageSchema, DescriptorSource)>,
    name: Seq<char>,
) -> Option<(SpecMessageSchema, DescriptorSource)>
    decreases es.len(),
{
    if es.len() == 0 {
        None
    } else if es[0].0.full_name == name {
        Some(es[0])
    } else {
        spec_pool_find(es.drop_first(), name)
    }
}

/// Every pool entry defines a distinct type name.
pub open spec fn spec_pool_names_distinct(es: Seq<(SpecMessageSchema, DescriptorSource)>) -> bool {
    forall|i: int, j: int|
        0 <= i < j < es.len() ==> (#[trigger] es[i]).0.full_name != (#[trigger] es[j]).0.full_name
}

/// A scan that stopped at `i` agrees with `spec_pool_find`.
proof fn lemma_pool_find_at(es: Seq<(SpecMessageSchema, DescriptorSource)>, name: Seq<char>, i: int)
    requires
        0 <= i < es.len(),
        es[i].0.full_name == name,
        forall|k: int| 0 <= k < i ==> (#[trigger] es[k]).0.full_name != name,
    ensures
        spec_pool_find(es, name) == Some(es[i]),
    decreases es.len(),
{
    if i > 0 {
        assert(es[0].0.full_name != name);
        assert(forall|k: int|
            0 <= k < i - 1 ==> (#[trigger] es.drop_first()[k]) == es[k + 1]);
        lemma_pool_find_at(es.drop_first(), name, i - 1);
    }
}

/// A scan that found nothing agrees with `spec_pool_find`.
proof fn lemma_pool_find_none(
    es: Seq<(SpecMessageSchema, DescriptorSource)>,
    name: Seq<char>,
)
    requires
        forall|k: int| 0 <= k < es.len() ==> (#[trigger] es[k]).0.full_name != name,
    ensures
        spec_pool_find(es, name) is None,
    decreases es.len(),
{
    if es.len() > 0 {
        assert(forall|k: int|
            0 <= k < es.drop_first().len() ==> (#[trigger] es.drop_first()[k]) == es[k + 1]);
        lemma_pool_find_none(es.drop_first(), name);
    }
}

/// An absent name has no entry.
proof fn lemma_pool_find_none_converse(
    es: Seq<(SpecMessageSchema, DescriptorSource)>,
    name: Seq<char>,
)
    requires
        spec_pool_find(es, name) is None,
    ensures
        forall|k: int| 0 <= k < es.len() ==> (#[trigger] es[k]).0.full_name != name,
    decreases es.len(),
{
    if es.len() > 0 {
        lemma_pool_find_none_converse(es.drop_first(), name);
        assert(forall|k: int|
            1 <= k < es.len() ==> (#[trigger] es[k]) == es.drop_first()[k - 1]);
    }
}

impl DescriptorPool {
    /// Every pool has distinct type names.
    pub closed spec fn wf(&self) -> bool {
        spec_pool_names_distinct(spec_pool_views(self.entries@))
    }

    /// The position of the entry defining `name`, if any.
    fn find(&self, name: &String) -> (r: Option<usize>)
        ensures
            match r {
                Some(i) => {
                    &&& i < self.entries@.len()
                    &&& self@[i as int].0.full_name == name@
                    &&& spec_pool_find(self@, name@) == Some(self@[i as int])
                },
                None => spec_pool_find(self@, name@) is None,
            },
    {
        let mut i: usize = 0;
        while i < self.entries.len()
            invariant
                i <= self.entries@.len(),
                forall|k: int| 0 <= k < i ==> (#[trigger] self@[k]).0.full_name != name@,
            decreases self.entries@.len() - i,
        {
            proof {
                assert(self@[i as int] == (self.entries@[i as int].0@,
                self.entries@[i as int].1));
            }
            if self.entries[i].0.full_name.eq(name) {
                proof {
                    lemma_pool_find_at(self@, name@, i as int);
                }
                return Some(i);
            }
            i = i + 1;
        }
        proof {
            lemma_pool_find_none(self@, name@);
        }
        None
    }
}

/// The combined entry views of two descriptor sets, payloads first.
pub open spec fn spec_merged_entries(
    payloads: Seq<SpecMessageSchema>,
    interfaces: Seq<SpecMessageSchema>,
) -> Seq<(SpecMessageSchema, DescriptorSource)> {
    payloads.map_values(|m: SpecMessageSchema| (m, DescriptorSource::Payloads))
        + interfaces.map_values(|m: SpecMessageSchema| (m, DescriptorSource::Interfaces))
}

/// The views of a descriptor set.
pub open spec fn spec_schema_views(ms: Seq<MessageSchema>) -> Seq<SpecMessageSchema> {
    ms.map_values(|m: MessageSchema| m@)
}

fn duplicate_type_message(name: &String) -> (r: String)
    ensures
        r@ == "duplicate message type: "@ + name@,
{
    let mut m = String::new();
    m.append("duplicate message type: ");
    m.append(name.as_str());
    m
}

/// Append one descriptor set to the pool, each entry tagged with its
/// source; a type name already present rejects the whole load.
fn push_set(pool: &mut DescriptorPool, set: &Vec<MessageSchema>, source: DescriptorSource) -> (r:
    Result<(), Error>)
    requires
        old(pool).wf(),
    ensures
        match r {
            Ok(_) => {
                &&& final(pool)@ == old(pool)@ + spec_schema_views(set@).map_values(
                    |m: SpecMessageSchema| (m, source),
                )
                &&& final(pool).wf()
            },
            Err(e) => {
                &&& !spec_pool_names_distinct(
                    old(pool)@ + spec_schema_views(set@).map_values(
                        |m: SpecMessageSchema| (m, source),
                    ),
                )
                &&& e is ConfigSourceError
            },
        },
{
    let ghost svs = spec_schema_views(set@).map_values(|m: SpecMessageSchema| (m, source));
    let ghost whole = old(pool)@ + svs;
    let mut i: usize = 0;
    let n = set.len();
    proof {
        assert(pool@ =~= whole.take(pool@.len() as int));
    }
    while i < n
        invariant
            i <= n,
            n == set@.len() == svs.len(),
            svs == spec_schema_views(set@).map_values(|m: SpecMessageSchema| (m, source)),
            whole == old(pool)@ + svs,
            old(pool).wf(),
            pool@ == whole.take(old(pool)@.len() + i),
            pool.wf(),
        decreases n - i,
    {
        let schema = set[i].duplicate();
        proof {
            assert(svs[i as int] == (set@[i as int]@, source));
            assert(svs[i as int] == (schema@, source));
        }
        match pool.find(&schema.full_name) {
            Some(j) => {
                proof {
                    let jj = j as int;
                    assert(pool@[jj].0.full_name == schema@.full_name);
                    assert(whole[jj] == pool@[jj]);
                    assert(whole[old(pool)@.len() + i] == svs[i as int]);
                    assert(jj < old(pool)@.len() + i);
                    assert(!spec_pool_names_distinct(whole));
                }
                return Err(Error::ConfigSourceError(duplicate_type_message(&schema.full_name)));
            },
            None => {
                proof {
                    lemma_pool_find_none_converse(pool@, schema@.full_name);
                }
                let ghost old_pool = pool@;
                pool.entries.push((schema, source));
                proof {
                    assert(pool@ =~= old_pool.push((schema@, source)));
                    assert(pool@ =~= whole.take(old(pool)@.len() + i + 1));
                    assert(spec_pool_names_distinct(pool@)) by {
                        assert(forall|k: int|
                            0 <= k < old_pool.len() ==> (#[trigger] pool@[k]) == old_pool[k]);
                        assert(forall|k: int|
                            0 <= k < old_pool.len() ==> (#[trigger] old_pool[k]).0.full_name
                                != schema@.full_name);
                    };
                }
            },
        }
        i = i + 1;
    }
    proof {
        assert(whole.take(old(pool)@.len() + n) =~= whole);
    }
    Ok(())
}

/// Merge two descriptor sets into one pool, payload types first. A type
/// name defined twice, in one set or across the two, is a configuration
/// error and rejects the merge whole.
pub fn merge_descriptor_sets(
    payloads: Vec<MessageSchema>,
    interfaces: Vec<MessageSchema>,
) -> (r: Result<DescriptorPool, Error>)
    ensures
        match r {
            Ok(pool) => {
                &&& pool@ == spec_merged_entries(
                    spec_schema_views(payloads@),
                    spec_schema_views(interfaces@),
                )
                &&& pool.wf()
            },
            Err(e) => {
                &&& !spec_pool_names_distinct(
                    spec_merged_entries(
                        spec_schema_views(payloads@),
                        spec_schema_views(interfaces@),
                    ),
                )
                &&& e is ConfigSourceError
            },
        },
{
    let ghost pv = spec_schema_views(payloads@).map_values(
        |m: SpecMessageSchema| (m, DescriptorSource::Payloads),
    );
    let ghost iv = spec_schema_views(interfaces@).map_values(
        |m: SpecMessageSchema| (m, DescriptorSource::Interfaces),
    );
    let ghost combined = spec_merged_entries(
        spec_schema_views(payloads@),
        spec_schema_views(interfaces@),
    );
    let mut pool = DescriptorPool { entries: Vec::new() };
    proof {
        assert(pool@ =~= Seq::<(SpecMessageSchema, DescriptorSource)>::empty());
        assert(spec_pool_names_distinct(pool@));
        assert(combined =~= pv + iv);
    }
    match push_set(&mut pool, &payloads, DescriptorSource::Payloads) {
        Ok(_) => {},
        Err(e) => {
            proof {
                let bad = Seq::<(SpecMessageSchema, DescriptorSource)>::empty() + pv;
                assert(bad =~= pv);
                let (x, y) = choose|x: int, y: int|
                    0 <= x < y < pv.len() && (#[trigger] pv[x]).0.full_name == (
                    #[trigger] pv[y]).0.full_name;
                assert(combined[x] == pv[x] && combined[y] == pv[y]);
                assert(!spec_pool_names_distinct(combined));
            }
            return Err(e);
        },
    }
    let ghost mid = pool@;
    match push_set(&mut pool, &interfaces, DescriptorSource::Interfaces) {
        Ok(_) => {},
        Err(e) => {
            proof {
                assert(mid + iv =~= combined);
            }
            return Err(e);
        },
    }
    proof {
        assert(pool@ =~= combined);
    }
    Ok(pool)
}

/// The message carried by an unknown-type error, naming the type.
pub open spec fn spec_unknown_type_msg(name: Seq<char>) -> Seq<char> {
    "Unknown message type: "@ + name
}

/// The message naming an unresolved type.
fn unknown_type_message(name: &str) -> (r: String)
    ensures
        r@ == spec_unknown_type_msg(name@),
{
    let mut m = String::new();
    m.append("Unknown message type: ");
    m.append(name);
    m
}

/// Get the message descriptor for a fully-qualified type name.
pub fn get_message_descriptor_from_type_name(pool: &DescriptorPool, tname: &str) -> (r: Result<
    MessageSchema,
    Error,
>)
    ensures
        match r {
            Ok(m) => spec_pool_find(pool@, tname@) matches Some(e) && e.0 == m@,
            Err(e) => {
                &&& spec_pool_find(pool@, tname@) is None
                &&& e matches Error::ReflectionError(m) && m@ == spec_unknown_type_msg(tname@)
            },
        },
{
    let key = tname.to_owned();
    match pool.find(&key) {
        Some(i) => Ok(pool.entries[i].0.duplicate()),
        None => Err(Error::ReflectionError(unknown_type_message(tname))),
    }
}

/// Report which merged descriptor set defined a type: `"payloads"` or
/// `"interfaces"`.
pub fn get_file_descriptor_set_from_type_name(pool: &DescriptorPool, tname: &str) -> (r: Result<
    String,
    Error,
>)
    ensures
        match r {
            Ok(s) => spec_pool_find(pool@, tname@) matches Some(e) && s@ == (match e.1 {
                DescriptorSource::Payloads => "payloads"@,
                DescriptorSource::Interfaces => "interfaces"@,
            }),
            Err(e) => {
                &&& spec_pool_find(pool@, tname@) is None
                &&& e matches Error::ReflectionError(m) && m@ == spec_unknown_type_msg(tname@)
            },
        },
{
    let key = tname.to_owned();
    match pool.find(&key) {
        Some(i) => match pool.entries[i].1 {
            DescriptorSource::Payloads => Ok(String::from_str("payloads")),
            DescriptorSource::Interfaces => Ok(String::from_str("interfaces")),
        },
        None => Err(Error::ReflectionError(unknown_type_message(tname))),
    }
}

/// One decoded field of a dynamic message: the schema field's name, the
/// field number, and the wire-level value.
pub struct DynamicField {
    pub name: String,
    pub number: u64,
    pub value: WireValue,
}

/// One decoded field, at the spec level.
pub struct SpecDynamicField {
    pub name: Seq<char>,
    pub number: u64,
    pub value: SpecWireValue,
}

impl View for DynamicField {
    type V = SpecDynamicField;

    open spec fn view(&self) -> SpecDynamicField {
        SpecDynamicField { name: self.name@, number: self.number, value: self.value@ }
    }
}

/// A dynamic message: the type name it was decoded as, and its fields in
/// wire order. A field that occurs more than once keeps every occurrence;
/// lookups by name return the last one, as protobuf semantics demand.
pub struct DynamicMessage {
    pub full_name: String,
    pub fields: Vec<DynamicField>,
}

impl View for DynamicMessage {
    type V = (Seq<char>, Seq<SpecDynamicField>);

    open spec fn view(&self) -> (Seq<char>, Seq<SpecDynamicField>) {
        (self.full_name@, self.fields@.map_values(|f: DynamicField| f@))
    }
}

/// The value of the last occurrence of a named field, if any.
pub open spec fn spec_find_last(fs: Seq<SpecDynamicField>, name: Seq<char>) -> Option<SpecWireValue>
    decreases fs.len(),
{
    if fs.len() == 0 {
        None
    } else if fs.last().name == name {
        Some(fs.last().value)
    } else {
        spec_find_last(fs.drop_last(), name)
    }
}

impl DynamicMessage {
    /// The value of the last occurrence of the named field, if any; the
    /// last occurrence wins, as protobuf merge semantics demand.
    pub fn get_field_by_name(&self, name: &str) -> (r: Option<&WireValue>)
        ensures
            match r {
                Some(v) => spec_find_last(self@.1, name@) == Some(v@),
                None => spec_find_last(self@.1, name@) is None,
            },
    {
        let ghost all = self@.1;
        let key = name.to_owned();
        let mut i: usize = self.fields.len();
        proof {
            assert(all.take(i as int) =~= all);
        }
        while i > 0
            invariant
                i <= self.fields@.len(),
                all == self@.1,
                key@ == name@,
                spec_find_last(all, name@) == spec_find_last(all.take(i as int), name@),
            decreases i,
        {
            i = i - 1;
            proof {
                assert(all.take(i + 1).last() == all[i as int]);
                assert(all.take(i + 1).drop_last() =~= all.take(i as int));
                assert(all[i as int] == self.fields@[i as int]@);
                assert(all[i as int].name == self.fields@[i as int].name@);
            }
            if self.fields[i].name.eq(&key) {
                proof {
                    assert(key@ == name@);
                    assert(self.fields@[i as int].name@ == key@);
                    assert(all.take(i + 1).last().name == name@);
                    assert(spec_find_last(all.take(i + 1), name@) == Some(all[i as int].value));
                    assert(spec_find_last(all, name@) == Some(all[i as int].value));
                    assert(all[i as int].value == self.fields@[i as int].value@);
                }
                return Some(&self.fields[i].value);
            }
            proof {
                assert(all.take(i + 1).last().name != name@);
                assert(spec_find_last(all.take(i + 1), name@) == spec_find_last(
                    all.take(i as int),
                    name@,
                ));
            }
        }
        proof {
            assert(all.take(0) =~= Seq::<SpecDynamicField>::empty());
        }
        None
    }
}

/// The schema field with the given number, if any: first match.
pub open spec fn spec_schema_find(fs: Seq<SpecFieldSchema>, number: u64) -> Option<SpecFieldSchema>
    decreases fs.len(),
{
    if fs.len() == 0 {
        None
    } else if fs[0].number == number {
        Some(fs[0])
    } else {
        spec_schema_find(fs.drop_first(), number)
    }
}

proof fn lemma_schema_find_at(fs: Seq<SpecFieldSchema>, number: u64, i: int)
    requires
        0 <= i < fs.len(),
        fs[i].number == number,
        forall|k: int| 0 <= k < i ==> (#[trigger] fs[k]).number != number,
    ensures
        spec_schema_find(fs, number) == Some(fs[i]),
    decreases fs.len(),
{
    if i > 0 {
        assert(forall|k: int|
            0 <= k < fs.drop_first().len() ==> (#[trigger] fs.drop_first()[k]) == fs[k + 1]);
        lemma_schema_find_at(fs.drop_first(), number, i - 1);
    }
}

proof fn lemma_schema_find_none(fs: Seq<SpecFieldSchema>, number: u64)
    requires
        forall|k: int| 0 <= k < fs.len() ==> (#[trigger] fs[k]).number != number,
    ensures
        spec_schema_find(fs, number) is None,
    decreases fs.len(),
{
    if fs.len() > 0 {
        assert(forall|k: int|
            0 <= k < fs.drop_first().len() ==> (#[trigger] fs.drop_first()[k]) == fs[k + 1]);
        lemma_schema_find_none(fs.drop_first(), number);
    }
}

/// Interpret parsed wire fields against a schema: a field whose number the
/// schema knows must carry the wire type of its kind and is kept under the
/// schema field's name; an unknown field number is skipped; a known field
/// of the wrong wire type rejects the message.
pub open spec fn spec_dyn_fold(
    sf: Seq<SpecFieldSchema>,
    wfs: Seq<SpecWireField>,
) -> Option<Seq<SpecDynamicField>>
    decreases wfs.len(),
{
    if wfs.len() == 0 {
        Some(Seq::empty())
    } else {
        let w = wfs[0];
        match spec_schema_find(sf, w.number) {
            None => spec_dyn_fold(sf, wfs.drop_first()),
            Some(fd) => {
                if spec_wt(w.value) == spec_kind_wt(fd.kind) {
                    match spec_dyn_fold(sf, wfs.drop_first()) {
                        None => None,
                        Some(rest) => Some(
                            seq![
                                SpecDynamicField {
                                    name: fd.name,
                                    number: w.number,
                                    value: w.value,
                                },
                            ] + rest,
                        ),
                    }
                } else {
                    None
                }
            },
        }
    }
}

/// The parse of payload bytes against a schema's fields.
pub open spec fn spec_decode_message(
    sf: Seq<SpecFieldSchema>,
    bytes: Seq<u8>,
) -> Option<Seq<SpecDynamicField>> {
    match spec_parse_fields(bytes) {
        None => None,
        Some(wfs) => spec_dyn_fold(sf, wfs),
    }
}

fn wire_type_message() -> (r: String)
    ensures
        r@ == "payload does not match the descriptor"@,
{
    let mut m = String::new();
    m.append("payload does not match the descriptor");
    m
}

/// Find the schema field with the given number, if any.
fn schema_find(fields: &Vec<FieldSchema>, number: u64) -> (r: Option<usize>)
    ensures
        ({
            let views = fields@.map_values(|f: FieldSchema| f@);
            match r {
                Some(i) => i < fields@.len() && spec_schema_find(views, number) == Some(
                    views[i as int],
                ),
                None => spec_schema_find(views, number) is None,
            }
        }),
{
    let ghost views = fields@.map_values(|f: FieldSchema| f@);
    let mut i: usize = 0;
    while i < fields.len()
        invariant
            i <= fields@.len(),
            views == fields@.map_values(|f: FieldSchema| f@),
            forall|k: int| 0 <= k < i ==> (#[trigger] views[k]).number != number,
        decreases fields@.len() - i,
    {
        proof {
            assert(views[i as int] == fields@[i as int]@);
        }
        if fields[i].number == number {
            proof {
                lemma_schema_find_at(views, number, i as int);
            }
            return Some(i);
        }
        i = i + 1;
    }
    proof {
        lemma_schema_find_none(views, number);
    }
    None
}

/// Decode payload bytes against one message descriptor.
pub fn decode_with_descriptor(schema: &MessageSchema, payload: &[u8]) -> (r: Result<
    DynamicMessage,
    Error,
>)
    ensures
        match r {
            Ok(dm) => {
                &&& spec_decode_message(schema@.fields, payload@) == Some(dm@.1)
                &&& dm@.0 == schema@.full_name
            },
            Err(e) => {
                &&& spec_decode_message(schema@.fields, payload@) is None
                &&& e is ReflectionError
            },
        },
{
    let wire_fields = match parse_fields(payload) {
        Ok(fs) => fs,
        Err(_) => {
            return Err(Error::ReflectionError(wire_type_message()));
        },
    };
    let ghost wvs = spec_fields_view(wire_fields@);
    let ghost sf = schema@.fields;
    let mut out: Vec<DynamicField> = Vec::new();
    let mut i: usize = 0;
    proof {
        assert(wvs.skip(0) =~= wvs);
        assert(out@.map_values(|f: DynamicField| f@) =~= Seq::<SpecDynamicField>::empty());
    }
    while i < wire_fields.len()
        invariant
            i <= wire_fields@.len(),
            wvs == spec_fields_view(wire_fields@),
            sf == schema@.fields,
            spec_parse_fields(payload@) == Some(wvs),
            spec_dyn_fold(sf, wvs) == (match spec_dyn_fold(sf, wvs.skip(i as int)) {
                None => None::<Seq<SpecDynamicField>>,
                Some(rest) => Some(out@.map_values(|f: DynamicField| f@) + rest),
            }),
        decreases wire_fields@.len() - i,
    {
        let ghost suf = wvs.skip(i as int);
        proof {
            assert(suf[0] == wire_fields@[i as int]@);
            assert(suf.drop_first() =~= wvs.skip(i + 1));
        }
        let w = &wire_fields[i];
        proof {
            assert(sf == schema.fields@.map_values(|g: FieldSchema| g@));
        }
        match schema_find(&schema.fields, w.number) {
            None => {
                proof {
                    assert(spec_schema_find(sf, suf[0].number) is None);
                    assert(spec_dyn_fold(sf, suf) == spec_dyn_fold(sf, suf.drop_first()));
                }
            },
            Some(fi) => {
                proof {
                    assert(spec_schema_find(sf, suf[0].number) == Some(
                        schema.fields@[fi as int]@,
                    ));
                }
                let wt = match &w.value {
                    WireValue::Varint(_) => 0u64,
                    WireValue::Fixed64(_) => 1u64,
                    WireValue::Len(_) => 2u64,
                    WireValue::Fixed32(_) => 5u64,
                };
                proof {
                    assert(wt == spec_wt(suf[0].value));
                }
                if wt != kind_wt(schema.fields[fi].kind) {
                    proof {
                        assert(spec_dyn_fold(sf, suf) is None);
                        assert(spec_dyn_fold(sf, wvs) is None);
                        assert(spec_decode_message(schema@.fields, payload@) is None);
                    }
                    return Err(Error::ReflectionError(wire_type_message()));
                }
                let value = match &w.value {
                    WireValue::Varint(v) => WireValue::Varint(*v),
                    WireValue::Fixed64(v) => WireValue::Fixed64(*v),
                    WireValue::Len(b) => WireValue::Len(vstd::slice::slice_to_vec(b.as_slice())),
                    WireValue::Fixed32(v) => WireValue::Fixed32(*v),
                };
                let field = DynamicField {
                    name: schema.fields[fi].name.clone(),
                    number: w.number,
                    value,
                };
                let ghost old_out = out@;
                out.push(field);
                proof {
                    assert(field@.value == w@.value);
                    assert(out@.map_values(|f: DynamicField| f@) =~= old_out.map_values(
                        |f: DynamicField| f@,
                    ).push(field@));
                    assert(forall|rest: Seq<SpecDynamicField>|
                        (old_out.map_values(|f: DynamicField| f@) + seq![field@]) + rest
                            =~= old_out.map_values(|f: DynamicField| f@) + (seq![field@]
                            + rest));
                    assert(old_out.map_values(|f: DynamicField| f@).push(field@)
                        =~= old_out.map_values(|f: DynamicField| f@) + seq![field@]);
                }
            },
        }
        i = i + 1;
    }
    proof {
        assert(wvs.skip(i as int) =~= Seq::<SpecWireField>::empty());
        assert(spec_dyn_fold(sf, wvs.skip(i as int)) == Some(Seq::<SpecDynamicField>::empty()));
        assert(out@.map_values(|f: DynamicField| f@) + Seq::<SpecDynamicField>::empty()
            =~= out@.map_values(|f: DynamicField| f@));
    }
    let full_name = schema.full_name.clone();
    Ok(DynamicMessage { full_name, fields: out })
}

/// Decode a payload into a dynamic message using only its type name:
/// resolve the descriptor in the pool, then decode the bytes against it.
pub fn decode_payload_from_type_name(
    pool: &DescriptorPool,
    payload: &[u8],
    name: &str,
) -> (r: Result<DynamicMessage, Error>)
    ensures
        match r {
            Ok(dm) => {
                &&& spec_pool_find(pool@, name@) matches Some(e) && spec_decode_message(
                    e.0.fields,
                    payload@,
                ) == Some(dm@.1) && dm@.0 == e.0.full_name
            },
            Err(e) => match spec_pool_find(pool@, name@) {
                None => e matches Error::ReflectionError(m) && m@ == spec_unknown_type_msg(
                    name@,
                ),
                Some(entry) => spec_decode_message(entry.0.fields, payload@) is None
                    && e is ReflectionError,
            },
        },
{
    let schema = match get_message_descriptor_from_type_name(pool, name) {
        Ok(s) => s,
        Err(e) => {
            return Err(e);
        },
    };
    decode_with_descriptor(&schema, payload)
}


/// A timestamped scalar message: field 1 the timestamp, field 2 the value.
pub open spec fn spec_ts_value_schema(name: Seq<char>, kind: FieldKind) -> SpecMessageSchema {
    SpecMessageSchema {
        full_name: name,
        fields: seq![
            SpecFieldSchema { name: "timestamp"@, number: 1, kind: FieldKind::Nested },
            SpecFieldSchema { name: "value"@, number: 2, kind: kind },
        ],
    }
}

/// The bundled descriptors of the payload types.
pub open spec fn spec_payload_schemas() -> Seq<SpecMessageSchema> {
    seq![
        spec_ts_value_schema("keelson.TimestampedFloat"@, FieldKind::Double),
        spec_ts_value_schema("keelson.TimestampedDouble"@, FieldKind::Double),
        spec_ts_value_schema("keelson.TimestampedInt"@, FieldKind::Int64),
        spec_ts_value_schema("keelson.TimestampedBytes"@, FieldKind::Bytes),
        spec_ts_value_schema("keelson.TimestampedString"@, FieldKind::Text),
        SpecMessageSchema {
            full_name: "foxglove.Color"@,
            fields: seq![
                SpecFieldSchema { name: "r"@, number: 1, kind: FieldKind::Double },
                SpecFieldSchema { name: "g"@, number: 2, kind: FieldKind::Double },
                SpecFieldSchema { name: "b"@, number: 3, kind: FieldKind::Double },
                SpecFieldSchema { name: "a"@, number: 4, kind: FieldKind::Double },
            ],
        },
    ]
}

/// The bundled descriptors of the interface types.
pub open spec fn spec_interface_schemas() -> Seq<SpecMessageSchema> {
    seq![
        SpecMessageSchema {
            full_name: "ConfigurableSuccessResponse"@,
            fields: seq![
                SpecFieldSchema { name: "message"@, number: 1, kind: FieldKind::Text },
            ],
        },
        SpecMessageSchema {
            full_name: "ConfigurableErrorResponse"@,
            fields: seq![
                SpecFieldSchema { name: "message"@, number: 1, kind: FieldKind::Text },
            ],
        },
    ]
}

/// Build a timestamped scalar message descriptor.
fn ts_value_schema(name: &str, kind: FieldKind) -> (r: MessageSchema)
    ensures
        r@ == spec_ts_value_schema(name@, kind),
{
    let mut fields: Vec<FieldSchema> = Vec::new();
    fields.push(
        FieldSchema { name: String::from_str("timestamp"), number: 1, kind: FieldKind::Nested },
    );
    fields.push(FieldSchema { name: String::from_str("value"), number: 2, kind: kind });
    let r = MessageSchema { full_name: String::from_str(name), fields };
    proof {
        assert(r@.fields =~= spec_ts_value_schema(name@, kind).fields);
    }
    r
}

/// Build a message descriptor whose fields are all doubles, numbered from
/// one, in order.
fn doubles_schema(name: &str, field_names: Vec<String>) -> (r: MessageSchema)
    requires
        field_names@.len() < 0x1_0000_0000_0000_0000,
    ensures
        r@.full_name == name@,
        r@.fields.len() == field_names@.len(),
        forall|i: int|
            0 <= i < field_names@.len() ==> #[trigger] r@.fields[i] == (SpecFieldSchema {
                name: field_names@[i]@,
                number: (i + 1) as u64,
                kind: FieldKind::Double,
            }),
{
    let mut fields: Vec<FieldSchema> = Vec::new();
    let mut i: usize = 0;
    while i < field_names.len()
        invariant
            i <= field_names@.len(),
            field_names@.len() < 0x1_0000_0000_0000_0000,
            fields@.len() == i,
            forall|k: int|
                0 <= k < i ==> #[trigger] fields@[k]@ == (SpecFieldSchema {
                    name: field_names@[k]@,
                    number: (k + 1) as u64,
                    kind: FieldKind::Double,
                }),
        decreases field_names@.len() - i,
    {
        let fname = field_names[i].clone();
        fields.push(FieldSchema { name: fname, number: (i as u64) + 1, kind: FieldKind::Double });
        i = i + 1;
    }
    MessageSchema { full_name: String::from_str(name), fields }
}

/// The bundled descriptor set covering the payload types.
pub fn payloads_descriptor_set() -> (r: Vec<MessageSchema>)
    ensures
        spec_schema_views(r@) == spec_payload_schemas(),
{
    let mut out: Vec<MessageSchema> = Vec::new();
    out.push(ts_value_schema("keelson.TimestampedFloat", FieldKind::Double));
    out.push(ts_value_schema("keelson.TimestampedDouble", FieldKind::Double));
    out.push(ts_value_schema("keelson.TimestampedInt", FieldKind::Int64));
    out.push(ts_value_schema("keelson.TimestampedBytes", FieldKind::Bytes));
    out.push(ts_value_schema("keelson.TimestampedString", FieldKind::Text));
    let mut color_fields: Vec<String> = Vec::new();
    color_fields.push(String::from_str("r"));
    color_fields.push(String::from_str("g"));
    color_fields.push(String::from_str("b"));
    color_fields.push(String::from_str("a"));
    let color = doubles_schema("foxglove.Color", color_fields);
    proof {
        assert(color@.fields =~= spec_payload_schemas()[5].fields);
        assert(color@ == spec_payload_schemas()[5]);
    }
    out.push(color);
    proof {
        assert(spec_schema_views(out@) =~= spec_payload_schemas());
    }
    out
}

/// Build a message descriptor with one text field named `message`.
fn message_response_schema(name: &str) -> (r: MessageSchema)
    ensures
        r@ == (SpecMessageSchema {
            full_name: name@,
            fields: seq![
                SpecFieldSchema { name: "message"@, number: 1, kind: FieldKind::Text },
            ],
        }),
{
    let mut fields: Vec<FieldSchema> = Vec::new();
    fields.push(FieldSchema { name: String::from_str("message"), number: 1, kind: FieldKind::Text });
    let r = MessageSchema { full_name: String::from_str(name), fields };
    proof {
        assert(r@.fields =~= seq![
            SpecFieldSchema { name: "message"@, number: 1, kind: FieldKind::Text },
        ]);
    }
    r
}

/// The bundled descriptor set covering the interface types.
pub fn interfaces_descriptor_set() -> (r: Vec<MessageSchema>)
    ensures
        spec_schema_views(r@) == spec_interface_schemas(),
{
    let mut out: Vec<MessageSchema> = Vec::new();
    out.push(message_response_schema("ConfigurableSuccessResponse"));
    out.push(message_response_schema("ConfigurableErrorResponse"));
    proof {
        assert(spec_schema_views(out@) =~= spec_interface_schemas());
    }
    out
}

/// The pool merged from the two bundled descriptor sets.
pub fn bundled_descriptor_pool() -> (r: Result<DescriptorPool, Error>)
    ensures
        match r {
            Ok(pool) => {
                &&& pool@ == spec_merged_entries(spec_payload_schemas(), spec_interface_schemas())
                &&& pool.wf()
            },
            Err(e) => {
                &&& !spec_pool_names_distinct(
                    spec_merged_entries(spec_payload_schemas(), spec_interface_schemas()),
                )
                &&& e is ConfigSourceError
            },
        },
{
    let payloads = payloads_descriptor_set();
    let interfaces = interfaces_descriptor_set();
    merge_descriptor_sets(payloads, interfaces)
}

} // verus!
