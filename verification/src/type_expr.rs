//! Closed, recursive descriptions of declared types. `ClassRef` and
//! `EnumRef` are name-only weak references: this crate never dereferences
//! them into definitions, which is what lets self-referential and
//! forward-referenced declarations work without any cyclic structure.

use vstd::prelude::*;

use crate::value::{tagged_model, tagged_seq_model, TaggedModel, TaggedValue};

verus! {

broadcast use
    vstd::std_specs::vec::group_vec_axioms,
    vstd::string::group_string_axioms;

/// The four primitive type kinds a declaration may name.
#[derive(Clone, Copy, PartialEq, Eq, Structural, Debug)]
pub enum PrimitiveKind {
    Str,
    Int,
    Float,
    Bool,
}

/// An exact scalar value used as a literal type.
#[derive(Debug, PartialEq)]
pub enum LiteralValue {
    Str(String),
    Int(i64),
    Bool(bool),
}

/// Mathematical model of a `LiteralValue`.
pub enum LiteralModel {
    Str(Seq<char>),
    Int(i64),
    Bool(bool),
}

impl View for LiteralValue {
    type V = LiteralModel;

    open spec fn view(&self) -> LiteralModel {
        match self {
            LiteralValue::Str(s) => LiteralModel::Str(s@),
            LiteralValue::Int(i) => LiteralModel::Int(*i),
            LiteralValue::Bool(b) => LiteralModel::Bool(*b),
        }
    }
}

/// A declared or primitive type, as data only. Resolving a `ClassRef` or
/// `EnumRef` against a registry is a downstream consumer's job, never done
/// here.
#[derive(Debug, PartialEq)]
pub enum TypeExpression {
    Primitive(PrimitiveKind),
    Literal(LiteralValue),
    List(Box<TypeExpression>),
    Mapping(Box<TypeExpression>, Box<TypeExpression>),
    ClassRef(String),
    EnumRef(String),
    Union(Vec<TypeExpression>),
    Optional(Box<TypeExpression>),
    Tuple(Vec<TypeExpression>),
}

/// Mathematical model of a `TypeExpression`.
pub enum TypeExprModel {
    Primitive(PrimitiveKind),
    Literal(LiteralModel),
    List(Box<TypeExprModel>),
    Mapping(Box<TypeExprModel>, Box<TypeExprModel>),
    ClassRef(Seq<char>),
    EnumRef(Seq<char>),
    Union(Seq<TypeExprModel>),
    Optional(Box<TypeExprModel>),
    Tuple(Seq<TypeExprModel>),
}

pub open spec fn type_expr_model(t: TypeExpression) -> TypeExprModel
    decreases t,
{
    match t {
        TypeExpression::Primitive(k) => TypeExprModel::Primitive(k),
        TypeExpression::Literal(v) => TypeExprModel::Literal(v@),
        TypeExpression::List(inner) => TypeExprModel::List(Box::new(type_expr_model(*inner))),
        TypeExpression::Mapping(key, value) => TypeExprModel::Mapping(
            Box::new(type_expr_model(*key)),
            Box::new(type_expr_model(*value)),
        ),
        TypeExpression::ClassRef(name) => TypeExprModel::ClassRef(name@),
        TypeExpression::EnumRef(name) => TypeExprModel::EnumRef(name@),
        TypeExpression::Union(items) => TypeExprModel::Union(type_expr_seq_model(items@)),
        TypeExpression::Optional(inner) => TypeExprModel::Optional(
            Box::new(type_expr_model(*inner)),
        ),
        TypeExpression::Tuple(items) => TypeExprModel::Tuple(type_expr_seq_model(items@)),
    }
}

/// Pointwise model of a sequence of type expressions.
pub open spec fn type_expr_seq_model(items: Seq<TypeExpression>) -> Seq<TypeExprModel>
    decreases items,
{
    Seq::new(
        items.len(),
        |i: int|
            if 0 <= i < items.len() {
                type_expr_model(items[i])
            } else {
                TypeExprModel::Primitive(PrimitiveKind::Str)
            },
    )
}

impl View for TypeExpression {
    type V = TypeExprModel;

    open spec fn view(&self) -> TypeExprModel {
        type_expr_model(*self)
    }
}

/// The caller-facing name of a primitive kind.
pub open spec fn primitive_name(k: PrimitiveKind) -> Seq<char> {
    match k {
        PrimitiveKind::Str => "string"@,
        PrimitiveKind::Int => "integer"@,
        PrimitiveKind::Float => "float"@,
        PrimitiveKind::Bool => "boolean"@,
    }
}

/// What `to_elixir_type` returns, stated over the models: each type shape
/// becomes a tagged term of the dynamic grammar.
pub open spec fn elixir_type_model(t: TypeExprModel) -> TaggedModel
    decreases t,
{
    match t {
        TypeExprModel::Primitive(k) => TaggedModel::Tag(
            "primitive"@,
            seq![TaggedModel::Tag(primitive_name(k), Seq::empty())],
        ),
        TypeExprModel::Literal(v) => TaggedModel::Tag(
            "literal"@,
            seq![
                match v {
                    LiteralModel::Str(s) => TaggedModel::Tag(s, Seq::empty()),
                    LiteralModel::Int(i) => TaggedModel::Int(i),
                    LiteralModel::Bool(b) => TaggedModel::Bool(b),
                },
            ],
        ),
        TypeExprModel::List(inner) => TaggedModel::Tag(
            "list"@,
            seq![elixir_type_model(*inner)],
        ),
        TypeExprModel::Mapping(key, value) => TaggedModel::Tag(
            "map"@,
            seq![elixir_type_model(*key), elixir_type_model(*value)],
        ),
        TypeExprModel::ClassRef(name) => TaggedModel::Tag(
            "class"@,
            seq![TaggedModel::Str(name)],
        ),
        TypeExprModel::EnumRef(name) => TaggedModel::Tag("enum"@, seq![TaggedModel::Str(name)]),
        TypeExprModel::Union(items) => TaggedModel::Tag(
            "union"@,
            seq![TaggedModel::List(elixir_type_seq_model(items))],
        ),
        TypeExprModel::Optional(inner) => TaggedModel::Tag(
            "optional"@,
            seq![elixir_type_model(*inner)],
        ),
        TypeExprModel::Tuple(items) => TaggedModel::Tag(
            "tuple"@,
            seq![TaggedModel::List(elixir_type_seq_model(items))],
        ),
    }
}

/// Pointwise caller-facing encoding of a sequence of type models.
pub open spec fn elixir_type_seq_model(items: Seq<TypeExprModel>) -> Seq<TaggedModel>
    decreases items,
{
    Seq::new(
        items.len(),
        |i: int|
            if 0 <= i < items.len() {
                elixir_type_model(items[i])
            } else {
                TaggedModel::Null
            },
    )
}

/// Encode a type expression in the caller's dynamic grammar, the form in
/// which declared and engine-side types are reported back to the caller.
pub fn to_elixir_type(t: &TypeExpression) -> (r: TaggedValue)
    ensures
        r@ == elixir_type_model(t@),
    decreases *t,
{
    match t {
        TypeExpression::Primitive(k) => {
            let kind_name = match k {
                PrimitiveKind::Str => "string",
                PrimitiveKind::Int => "integer",
                PrimitiveKind::Float => "float",
                PrimitiveKind::Bool => "boolean",
            };
            let atom = TaggedValue::Tag(kind_name.to_owned(), Vec::new());
            let r = TaggedValue::Tag("primitive".to_owned(), vec![atom]);
            proof {
                lemma_tagged_seq_model_empty();
                lemma_tag_args_one(r);
            }
            r
        },
        TypeExpression::Literal(v) => {
            let payload = match v {
                LiteralValue::Str(s) => TaggedValue::Tag(s.clone(), Vec::new()),
                LiteralValue::Int(i) => TaggedValue::Int(*i),
                LiteralValue::Bool(b) => TaggedValue::Bool(*b),
            };
            let r = TaggedValue::Tag("literal".to_owned(), vec![payload]);
            proof {
                lemma_tagged_seq_model_empty();
                lemma_tag_args_one(r);
            }
            r
        },
        TypeExpression::List(inner) => {
            let inner_term = to_elixir_type(inner);
            let r = TaggedValue::Tag("list".to_owned(), vec![inner_term]);
            proof {
                lemma_tag_args_one(r);
            }
            r
        },
        TypeExpression::Mapping(key, value) => {
            let key_term = to_elixir_type(key);
            let value_term = to_elixir_type(value);
            let r = TaggedValue::Tag("map".to_owned(), vec![key_term, value_term]);
            proof {
                lemma_tag_args_two(r);
            }
            r
        },
        TypeExpression::ClassRef(name) => {
            let r = TaggedValue::Tag("class".to_owned(), vec![TaggedValue::Str(name.clone())]);
            proof {
                lemma_tag_args_one(r);
            }
            r
        },
        TypeExpression::EnumRef(name) => {
            let r = TaggedValue::Tag("enum".to_owned(), vec![TaggedValue::Str(name.clone())]);
            proof {
                lemma_tag_args_one(r);
            }
            r
        },
        TypeExpression::Union(items) => {
            let encoded = to_elixir_type_list(items);
            let r = TaggedValue::Tag("union".to_owned(), vec![TaggedValue::List(encoded)]);
            proof {
                lemma_tag_args_one(r);
            }
            r
        },
        TypeExpression::Optional(inner) => {
            let inner_term = to_elixir_type(inner);
            let r = TaggedValue::Tag("optional".to_owned(), vec![inner_term]);
            proof {
                lemma_tag_args_one(r);
            }
            r
        },
        TypeExpression::Tuple(items) => {
            let encoded = to_elixir_type_list(items);
            let r = TaggedValue::Tag("tuple".to_owned(), vec![TaggedValue::List(encoded)]);
            proof {
                lemma_tag_args_one(r);
            }
            r
        },
    }
}

fn to_elixir_type_list(items: &Vec<TypeExpression>) -> (r: Vec<TaggedValue>)
    ensures
        tagged_seq_model(r@) == elixir_type_seq_model(type_expr_seq_model(items@)),
    decreases *items,
{
    let mut out: Vec<TaggedValue> = Vec::new();
    let mut i: usize = 0;
    while i < items.len()
        invariant
            i <= items@.len(),
            out@.len() == i,
            forall|j: int|
                0 <= j < i ==> tagged_model(#[trigger] out@[j]) == elixir_type_model(
                    type_expr_model(items@[j]),
                ),
        decreases items@.len() - i,
    {
        let t = to_elixir_type(&items[i]);
        out.push(t);
        i += 1;
    }
    proof {
        assert(tagged_seq_model(out@) =~= elixir_type_seq_model(type_expr_seq_model(items@)));
    }
    out
}

proof fn lemma_tagged_seq_model_empty()
    ensures
        tagged_seq_model(Seq::<TaggedValue>::empty()) == Seq::<TaggedModel>::empty(),
{
    assert(tagged_seq_model(Seq::<TaggedValue>::empty()) =~= Seq::<TaggedModel>::empty());
}

proof fn lemma_tag_args_one(t: TaggedValue)
    requires
        t is Tag,
        t->Tag_1@.len() == 1,
    ensures
        tagged_seq_model(t->Tag_1@) == seq![tagged_model(t->Tag_1@[0])],
{
    assert(tagged_seq_model(t->Tag_1@) =~= seq![tagged_model(t->Tag_1@[0])]);
}

proof fn lemma_tag_args_two(t: TaggedValue)
    requires
        t is Tag,
        t->Tag_1@.len() == 2,
    ensures
        tagged_seq_model(t->Tag_1@) == seq![
            tagged_model(t->Tag_1@[0]),
            tagged_model(t->Tag_1@[1]),
        ],
{
    assert(tagged_seq_model(t->Tag_1@) =~= seq![
        tagged_model(t->Tag_1@[0]),
        tagged_model(t->Tag_1@[1]),
    ]);
}

} // verus!
