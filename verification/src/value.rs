//! The two value trees that the codec bridges: the caller's dynamic
//! `TaggedValue` grammar and the engine's typed `RuntimeValue` tree.

use vstd::prelude::*;

verus! {

broadcast use vstd::std_specs::vec::group_vec_axioms;

/// Dynamic, caller-native value: numbers, strings, ordered sequences,
/// string-keyed maps, and named tags carrying positional sub-terms.
/// `Float` holds the IEEE 754 bit pattern of the caller's float, so the
/// codec carries floats through exactly, without arithmetic on them.
#[derive(Debug, PartialEq)]
pub enum TaggedValue {
    Null,
    Bool(bool),
    Int(i64),
    Float(u64),
    Str(String),
    List(Vec<TaggedValue>),
    Mapping(Vec<(String, TaggedValue)>),
    Tag(String, Vec<TaggedValue>),
}

/// Mathematical model of a `TaggedValue`: strings become `Seq<char>`,
/// vectors become `Seq`.
pub enum TaggedModel {
    Null,
    Bool(bool),
    Int(i64),
    Float(u64),
    Str(Seq<char>),
    List(Seq<TaggedModel>),
    Mapping(Seq<(Seq<char>, TaggedModel)>),
    Tag(Seq<char>, Seq<TaggedModel>),
}

pub open spec fn tagged_model(v: TaggedValue) -> TaggedModel
    decreases v,
{
    match v {
        TaggedValue::Null => TaggedModel::Null,
        TaggedValue::Bool(b) => TaggedModel::Bool(b),
        TaggedValue::Int(i) => TaggedModel::Int(i),
        TaggedValue::Float(bits) => TaggedModel::Float(bits),
        TaggedValue::Str(s) => TaggedModel::Str(s@),
        TaggedValue::List(items) => TaggedModel::List(tagged_seq_model(items@)),
        TaggedValue::Mapping(entries) => TaggedModel::Mapping(tagged_entries_model(entries@)),
        TaggedValue::Tag(name, args) => TaggedModel::Tag(name@, tagged_seq_model(args@)),
    }
}

/// Pointwise model of a sequence of dynamic values.
pub open spec fn tagged_seq_model(items: Seq<TaggedValue>) -> Seq<TaggedModel>
    decreases items,
{
    Seq::new(
        items.len(),
        |i: int|
            if 0 <= i < items.len() {
                tagged_model(items[i])
            } else {
                TaggedModel::Null
            },
    )
}

/// Pointwise model of a sequence of keyed dynamic values.
pub open spec fn tagged_entries_model(entries: Seq<(String, TaggedValue)>) -> Seq<
    (Seq<char>, TaggedModel),
>
    decreases entries,
{
    Seq::new(
        entries.len(),
        |i: int|
            if 0 <= i < entries.len() {
                (entries[i].0@, tagged_model(entries[i].1))
            } else {
                (Seq::empty(), TaggedModel::Null)
            },
    )
}

/// A one-word description of a dynamic value's shape, used in errors.
pub open spec fn shape_name(t: TaggedModel) -> Seq<char> {
    match t {
        TaggedModel::Null => "null"@,
        TaggedModel::Bool(_) => "bool"@,
        TaggedModel::Int(_) => "int"@,
        TaggedModel::Float(_) => "float"@,
        TaggedModel::Str(_) => "string"@,
        TaggedModel::List(_) => "list"@,
        TaggedModel::Mapping(_) => "map"@,
        TaggedModel::Tag(_, _) => "tag"@,
    }
}

/// A one-word description of a dynamic value's shape, for error payloads.
pub fn shape_of(term: &TaggedValue) -> (r: String)
    ensures
        r@ == shape_name(term@),
{
    match term {
        TaggedValue::Null => "null".to_owned(),
        TaggedValue::Bool(_) => "bool".to_owned(),
        TaggedValue::Int(_) => "int".to_owned(),
        TaggedValue::Float(_) => "float".to_owned(),
        TaggedValue::Str(_) => "string".to_owned(),
        TaggedValue::List(_) => "list".to_owned(),
        TaggedValue::Mapping(_) => "map".to_owned(),
        TaggedValue::Tag(_, _) => "tag".to_owned(),
    }
}

impl View for TaggedValue {
    type V = TaggedModel;

    open spec fn view(&self) -> TaggedModel {
        tagged_model(*self)
    }
}

/// The execution engine's typed value tree. `Class` and `Enum` carry their
/// type names as data only — never a structural link into a registry.
/// `Class` fields keep declaration order; `Float` holds IEEE 754 bits, as in
/// `TaggedValue`. `Media` is an engine-owned payload, opaque to the codec.
#[derive(Debug, PartialEq)]
pub enum RuntimeValue {
    Null,
    Bool(bool),
    Int(i64),
    Float(u64),
    Str(String),
    List(Vec<RuntimeValue>),
    Mapping(Vec<(String, RuntimeValue)>),
    Class(String, Vec<(String, RuntimeValue)>),
    Enum(String, String),
    Media,
}

/// Mathematical model of a `RuntimeValue`.
pub enum RuntimeModel {
    Null,
    Bool(bool),
    Int(i64),
    Float(u64),
    Str(Seq<char>),
    List(Seq<RuntimeModel>),
    Mapping(Seq<(Seq<char>, RuntimeModel)>),
    Class(Seq<char>, Seq<(Seq<char>, RuntimeModel)>),
    Enum(Seq<char>, Seq<char>),
    Media,
}

pub open spec fn runtime_model(v: RuntimeValue) -> RuntimeModel
    decreases v,
{
    match v {
        RuntimeValue::Null => RuntimeModel::Null,
        RuntimeValue::Bool(b) => RuntimeModel::Bool(b),
        RuntimeValue::Int(i) => RuntimeModel::Int(i),
        RuntimeValue::Float(bits) => RuntimeModel::Float(bits),
        RuntimeValue::Str(s) => RuntimeModel::Str(s@),
        RuntimeValue::List(items) => RuntimeModel::List(runtime_seq_model(items@)),
        RuntimeValue::Mapping(entries) => RuntimeModel::Mapping(runtime_entries_model(entries@)),
        RuntimeValue::Class(name, fields) => RuntimeModel::Class(
            name@,
            runtime_entries_model(fields@),
        ),
        RuntimeValue::Enum(name, variant) => RuntimeModel::Enum(name@, variant@),
        RuntimeValue::Media => RuntimeModel::Media,
    }
}

/// Pointwise model of a sequence of runtime values.
pub open spec fn runtime_seq_model(items: Seq<RuntimeValue>) -> Seq<RuntimeModel>
    decreases items,
{
    Seq::new(
        items.len(),
        |i: int|
            if 0 <= i < items.len() {
                runtime_model(items[i])
            } else {
                RuntimeModel::Null
            },
    )
}

/// Pointwise model of a sequence of keyed runtime values.
pub open spec fn runtime_entries_model(entries: Seq<(String, RuntimeValue)>) -> Seq<
    (Seq<char>, RuntimeModel),
>
    decreases entries,
{
    Seq::new(
        entries.len(),
        |i: int|
            if 0 <= i < entries.len() {
                (entries[i].0@, runtime_model(entries[i].1))
            } else {
                (Seq::empty(), RuntimeModel::Null)
            },
    )
}

impl View for RuntimeValue {
    type V = RuntimeModel;

    open spec fn view(&self) -> RuntimeModel {
        runtime_model(*self)
    }
}

} // verus!
