//! The declaration parser: reads a TaggedValue-encoded declaration set and
//! populates a `SchemaRegistry`, producing `TypeExpression` values for field
//! types.
//!
//! A declaration set is a list of items. Each item is a named tag whose
//! discriminator selects the class or the enum path: `{class, body}` or
//! `{enum, body}`, with the body a map. A class body holds `name` and an
//! ordered `fields` list; each field holds `name`, a `type` payload, and an
//! optional `description`. An enum body holds `name` and an ordered `values`
//! list; each value is a bare name or a map holding `value` and an optional
//! `description`.
//!
//! Declarations apply to the registry in caller order, and a failure partway
//! through leaves prior applications in place: there is no rollback. Type
//! references are name-only, so a referenced class may be declared earlier,
//! later, or never in this set.
//!
//! For anonymous nested types this grammar takes the explicit-name dialect: a
//! `{class, body}` or `{enum, body}` payload with a body map names the type,
//! and the presence of its `fields` (or `values`) list distinguishes "define
//! now" from "reference existing". No name is ever fabricated.

use vstd::prelude::*;

use crate::error::{BridgeError, ErrorModel};
use crate::registry::{
    find_name, spec_set_description, spec_set_type, spec_set_value_description, spec_upsert_class,
    spec_upsert_enum, spec_upsert_property, spec_upsert_value, RegistryModel, SchemaRegistry,
};
use crate::type_expr::{LiteralModel, LiteralValue, PrimitiveKind, TypeExprModel, TypeExpression};
use crate::value::{
    shape_name, shape_of, tagged_entries_model, tagged_model, tagged_seq_model, TaggedModel,
    TaggedValue,
};

verus! {

broadcast use
    vstd::std_specs::vec::group_vec_axioms,
    vstd::string::group_string_axioms;

/// The keys of a sequence of map entries, in order.
pub open spec fn entry_keys(s: Seq<(Seq<char>, TaggedModel)>) -> Seq<Seq<char>> {
    Seq::new(s.len(), |i: int| s[i].0)
}

/// What `term_to_string` returns: a string value or a bare named tag reads
/// as a name; anything else is rejected.
pub open spec fn spec_term_to_string(t: TaggedModel) -> Result<Seq<char>, ErrorModel> {
    match t {
        TaggedModel::Str(s) => Ok(s),
        TaggedModel::Tag(name, args) => if args.len() == 0 {
            Ok(name)
        } else {
            Err(ErrorModel::InvalidShape("string"@, "tag"@))
        },
        _ => Err(ErrorModel::InvalidShape("string"@, shape_name(t))),
    }
}

/// What `parse_type_builder_spec` does, stated over the models: the
/// declaration set must be a list; its items apply in order, and the first
/// failure stops the walk with prior applications kept.
pub open spec fn spec_parse_spec(t: TaggedModel, reg: RegistryModel) -> (
    RegistryModel,
    Result<(), ErrorModel>,
)
    decreases t, 0int,
{
    match t {
        TaggedModel::List(items) => spec_parse_items(items, reg),
        _ => (reg, Err(ErrorModel::InvalidShape("list"@, shape_name(t)))),
    }
}

/// Apply a sequence of declaration items in order; no rollback on failure.
pub open spec fn spec_parse_items(items: Seq<TaggedModel>, reg: RegistryModel) -> (
    RegistryModel,
    Result<(), ErrorModel>,
)
    decreases items, 0int,
{
    if items.len() == 0 {
        (reg, Ok(()))
    } else {
        let (reg1, r) = spec_parse_item(items[0], reg);
        match r {
            Ok(_) => spec_parse_items(items.drop_first(), reg1),
            Err(e) => (reg1, Err(e)),
        }
    }
}

/// What `parse_type_builder_item` does: dispatch one declaration on its
/// discriminator tag.
pub open spec fn spec_parse_item(t: TaggedModel, reg: RegistryModel) -> (
    RegistryModel,
    Result<(), ErrorModel>,
)
    decreases t, 0int,
{
    match t {
        TaggedModel::Tag(d, args) => if d == "class"@ || d == "enum"@ {
            if args.len() == 1 {
                if d == "class"@ {
                    spec_parse_class_item(args[0], reg)
                } else {
                    spec_parse_enum_item(args[0], reg)
                }
            } else {
                (reg, Err(ErrorModel::InvalidShape("declaration"@, "tag"@)))
            }
        } else {
            (reg, Err(ErrorModel::UnresolvedDeclaration(d)))
        },
        _ => (reg, Err(ErrorModel::InvalidShape("declaration"@, shape_name(t)))),
    }
}

/// What `parse_class_item` does: read `name` and `fields`, create or reopen
/// the class, then apply its fields in order. The class entry is created
/// before the field list's shape is checked, and stays on failure.
pub open spec fn spec_parse_class_item(body: TaggedModel, reg: RegistryModel) -> (
    RegistryModel,
    Result<(), ErrorModel>,
)
    decreases body, 0int,
{
    match body {
        TaggedModel::Mapping(entries) => match find_name(entry_keys(entries), "name"@) {
            None => (reg, Err(ErrorModel::MissingField("name"@))),
            Some(ni) => if 0 <= ni < entries.len() {
                match spec_term_to_string(entries[ni].1) {
                    Err(e) => (reg, Err(e)),
                    Ok(name) => match find_name(entry_keys(entries), "fields"@) {
                        None => (reg, Err(ErrorModel::MissingField("fields"@))),
                        Some(fi) => if 0 <= fi < entries.len() {
                            let (reg1, c) = spec_upsert_class(reg, name);
                            match entries[fi].1 {
                                TaggedModel::List(fs) => spec_parse_field_items(fs, reg1, c),
                                _ => (
                                    reg1,
                                    Err(
                                        ErrorModel::InvalidShape(
                                            "list"@,
                                            shape_name(entries[fi].1),
                                        ),
                                    ),
                                ),
                            }
                        } else {
                            (reg, Err(ErrorModel::MissingField("fields"@)))
                        },
                    },
                }
            } else {
                (reg, Err(ErrorModel::MissingField("name"@)))
            },
        },
        _ => (reg, Err(ErrorModel::InvalidShape("map"@, shape_name(body)))),
    }
}

/// Apply a class's field items in order; no rollback on failure.
pub open spec fn spec_parse_field_items(fs: Seq<TaggedModel>, reg: RegistryModel, c: int) -> (
    RegistryModel,
    Result<(), ErrorModel>,
)
    decreases fs, 0int,
{
    if fs.len() == 0 {
        (reg, Ok(()))
    } else {
        let (reg1, r) = spec_parse_field_item(fs[0], reg, c);
        match r {
            Ok(_) => spec_parse_field_items(fs.drop_first(), reg1, c),
            Err(e) => (reg1, Err(e)),
        }
    }
}

/// What `parse_field_item` does: read the field's `name`, `type` payload and
/// optional `description`, parse the type, then upsert the field and set
/// what was read. A failure leaves the field unapplied but keeps whatever
/// the type payload itself declared.
pub open spec fn spec_parse_field_item(f: TaggedModel, reg: RegistryModel, c: int) -> (
    RegistryModel,
    Result<(), ErrorModel>,
)
    decreases f, 0int,
{
    match f {
        TaggedModel::Mapping(entries) => match find_name(entry_keys(entries), "name"@) {
            None => (reg, Err(ErrorModel::MissingField("name"@))),
            Some(ni) => if 0 <= ni < entries.len() {
                match spec_term_to_string(entries[ni].1) {
                    Err(e) => (reg, Err(e)),
                    Ok(name) => match find_name(entry_keys(entries), "type"@) {
                        None => (reg, Err(ErrorModel::MissingField("type"@))),
                        Some(ti) => if 0 <= ti < entries.len() {
                            match spec_field_description(entries) {
                                Err(e) => (reg, Err(e)),
                                Ok(desc) => {
                                    let (reg1, rt) = spec_parse_field_type(entries[ti].1, reg);
                                    match rt {
                                        Err(e) => (reg1, Err(e)),
                                        Ok(ty) => {
                                            let (reg2, fidx) = spec_upsert_property(reg1, c, name);
                                            let reg3 = spec_set_type(reg2, c, fidx, ty);
                                            match desc {
                                                Some(d) => (
                                                    spec_set_description(reg3, c, fidx, d),
                                                    Ok(()),
                                                ),
                                                None => (reg3, Ok(())),
                                            }
                                        },
                                    }
                                },
                            }
                        } else {
                            (reg, Err(ErrorModel::MissingField("type"@)))
                        },
                    },
                }
            } else {
                (reg, Err(ErrorModel::MissingField("name"@)))
            },
        },
        _ => (reg, Err(ErrorModel::InvalidShape("map"@, shape_name(f)))),
    }
}

/// The optional `description` entry of a field or value map, read as a
/// string when present.
pub open spec fn spec_field_description(s: Seq<(Seq<char>, TaggedModel)>) -> Result<
    Option<Seq<char>>,
    ErrorModel,
> {
    match find_name(entry_keys(s), "description"@) {
        None => Ok(None),
        Some(di) => if 0 <= di < s.len() {
            match spec_term_to_string(s[di].1) {
                Ok(d) => Ok(Some(d)),
                Err(e) => Err(e),
            }
        } else {
            Ok(None)
        },
    }
}

/// What `parse_enum_item` does: read `name` and `values`, create or reopen
/// the enum, then apply its values in order. The enum entry is created
/// before the value list's shape is checked, and stays on failure.
pub open spec fn spec_parse_enum_item(body: TaggedModel, reg: RegistryModel) -> (
    RegistryModel,
    Result<(), ErrorModel>,
)
    decreases body, 0int,
{
    match body {
        TaggedModel::Mapping(entries) => match find_name(entry_keys(entries), "name"@) {
            None => (reg, Err(ErrorModel::MissingField("name"@))),
            Some(ni) => if 0 <= ni < entries.len() {
                match spec_term_to_string(entries[ni].1) {
                    Err(e) => (reg, Err(e)),
                    Ok(name) => match find_name(entry_keys(entries), "values"@) {
                        None => (reg, Err(ErrorModel::MissingField("values"@))),
                        Some(vi) => if 0 <= vi < entries.len() {
                            let (reg1, e) = spec_upsert_enum(reg, name);
                            match entries[vi].1 {
                                TaggedModel::List(vs) => spec_parse_enum_value_items(vs, reg1, e),
                                _ => (
                                    reg1,
                                    Err(
                                        ErrorModel::InvalidShape(
                                            "list"@,
                                            shape_name(entries[vi].1),
                                        ),
                                    ),
                                ),
                            }
                        } else {
                            (reg, Err(ErrorModel::MissingField("values"@)))
                        },
                    },
                }
            } else {
                (reg, Err(ErrorModel::MissingField("name"@)))
            },
        },
        _ => (reg, Err(ErrorModel::InvalidShape("map"@, shape_name(body)))),
    }
}

/// Apply an enum's value items in order; no rollback on failure.
pub open spec fn spec_parse_enum_value_items(vs: Seq<TaggedModel>, reg: RegistryModel, e: int) -> (
    RegistryModel,
    Result<(), ErrorModel>,
)
    decreases vs, 0int,
{
    if vs.len() == 0 {
        (reg, Ok(()))
    } else {
        let (reg1, r) = spec_parse_enum_value_item(vs[0], reg, e);
        match r {
            Ok(_) => spec_parse_enum_value_items(vs.drop_first(), reg1, e),
            Err(err) => (reg1, Err(err)),
        }
    }
}

/// What `parse_enum_value_item` does: a bare name adds a value; a map reads
/// `value` and an optional `description`.
pub open spec fn spec_parse_enum_value_item(v: TaggedModel, reg: RegistryModel, e: int) -> (
    RegistryModel,
    Result<(), ErrorModel>,
)
    decreases v, 0int,
{
    match spec_term_to_string(v) {
        Ok(name) => (spec_upsert_value(reg, e, name).0, Ok(())),
        Err(_) => match v {
            TaggedModel::Mapping(entries) => match find_name(entry_keys(entries), "value"@) {
                None => (reg, Err(ErrorModel::MissingField("value"@))),
                Some(vi) => if 0 <= vi < entries.len() {
                    match spec_term_to_string(entries[vi].1) {
                        Err(err) => (reg, Err(err)),
                        Ok(name) => match spec_field_description(entries) {
                            Err(err) => (reg, Err(err)),
                            Ok(desc) => {
                                let (reg1, vidx) = spec_upsert_value(reg, e, name);
                                match desc {
                                    Some(d) => (
                                        spec_set_value_description(reg1, e, vidx, d),
                                        Ok(()),
                                    ),
                                    None => (reg1, Ok(())),
                                }
                            },
                        },
                    }
                } else {
                    (reg, Err(ErrorModel::MissingField("value"@)))
                },
            },
            _ => (reg, Err(ErrorModel::InvalidShape("enum value"@, shape_name(v)))),
        },
    }
}

/// What `parse_field_type` does: the recursive type-expression grammar.
///
/// A bare atomic tag names a primitive or, for any other name, a bare class
/// reference. A literal scalar becomes a literal type. `{list, T}` wraps a
/// parsed inner type; `{map, K, V}` a key and value type; `{union, [T...]}`
/// an ordered list of alternatives. `{class, payload}` and `{enum, payload}`
/// name a reference, or carry an inline definition whose body is applied to
/// the registry first. A plain sequence is sugar for "list of the first
/// element's type". Anything else is rejected.
pub open spec fn spec_parse_field_type(t: TaggedModel, reg: RegistryModel) -> (
    RegistryModel,
    Result<TypeExprModel, ErrorModel>,
)
    decreases t, 2int,
{
    match t {
        TaggedModel::Str(s) => (reg, Ok(TypeExprModel::Literal(LiteralModel::Str(s)))),
        TaggedModel::Int(i) => (reg, Ok(TypeExprModel::Literal(LiteralModel::Int(i)))),
        TaggedModel::Bool(b) => (reg, Ok(TypeExprModel::Literal(LiteralModel::Bool(b)))),
        TaggedModel::List(ts) => if ts.len() == 0 {
            (reg, Err(ErrorModel::InvalidShape("type"@, "empty list"@)))
        } else {
            let (reg1, r) = spec_parse_field_type(ts[0], reg);
            match r {
                Ok(inner) => (reg1, Ok(TypeExprModel::List(Box::new(inner)))),
                Err(e) => (reg1, Err(e)),
            }
        },
        TaggedModel::Tag(name, args) => if args.len() == 0 {
            if name == "string"@ {
                (reg, Ok(TypeExprModel::Primitive(PrimitiveKind::Str)))
            } else if name == "int"@ {
                (reg, Ok(TypeExprModel::Primitive(PrimitiveKind::Int)))
            } else if name == "float"@ {
                (reg, Ok(TypeExprModel::Primitive(PrimitiveKind::Float)))
            } else if name == "bool"@ {
                (reg, Ok(TypeExprModel::Primitive(PrimitiveKind::Bool)))
            } else {
                (reg, Ok(TypeExprModel::ClassRef(name)))
            }
        } else if name == "list"@ {
            if args.len() == 1 {
                let (reg1, r) = spec_parse_field_type(args[0], reg);
                match r {
                    Ok(inner) => (reg1, Ok(TypeExprModel::List(Box::new(inner)))),
                    Err(e) => (reg1, Err(e)),
                }
            } else {
                (reg, Err(ErrorModel::InvalidShape("list"@, "tag"@)))
            }
        } else if name == "map"@ {
            if args.len() == 2 {
                let (reg1, rk) = spec_parse_field_type(args[0], reg);
                match rk {
                    Err(e) => (reg1, Err(e)),
                    Ok(key) => {
                        let (reg2, rv) = spec_parse_field_type(args[1], reg1);
                        match rv {
                            Err(e) => (reg2, Err(e)),
                            Ok(value) => (
                                reg2,
                                Ok(TypeExprModel::Mapping(Box::new(key), Box::new(value))),
                            ),
                        }
                    },
                }
            } else {
                (reg, Err(ErrorModel::InvalidShape("map"@, "tag"@)))
            }
        } else if name == "union"@ {
            if args.len() == 1 {
                match args[0] {
                    TaggedModel::List(ts) => {
                        let (reg1, r) = spec_parse_union_items(ts, reg);
                        match r {
                            Ok(alts) => (reg1, Ok(TypeExprModel::Union(alts))),
                            Err(e) => (reg1, Err(e)),
                        }
                    },
                    _ => (reg, Err(ErrorModel::InvalidShape("list"@, shape_name(args[0])))),
                }
            } else {
                (reg, Err(ErrorModel::InvalidShape("union"@, "tag"@)))
            }
        } else if name == "class"@ {
            if args.len() == 1 {
                spec_parse_class_ref(args[0], reg)
            } else {
                (reg, Err(ErrorModel::InvalidShape("class"@, "tag"@)))
            }
        } else if name == "enum"@ {
            if args.len() == 1 {
                spec_parse_enum_ref(args[0], reg)
            } else {
                (reg, Err(ErrorModel::InvalidShape("enum"@, "tag"@)))
            }
        } else {
            (reg, Err(ErrorModel::UnresolvedDeclaration(name)))
        },
        _ => (reg, Err(ErrorModel::InvalidShape("type"@, shape_name(t)))),
    }
}

/// The payload of a `{class, payload}` type: a name makes a reference; a
/// body map with a `fields` list defines the class first, then refers to it.
pub open spec fn spec_parse_class_ref(p: TaggedModel, reg: RegistryModel) -> (
    RegistryModel,
    Result<TypeExprModel, ErrorModel>,
)
    decreases p, 1int,
{
    match spec_term_to_string(p) {
        Ok(name) => (reg, Ok(TypeExprModel::ClassRef(name))),
        Err(_) => match p {
            TaggedModel::Mapping(entries) => match find_name(entry_keys(entries), "name"@) {
                None => (reg, Err(ErrorModel::MissingField("name"@))),
                Some(ni) => if 0 <= ni < entries.len() {
                    match spec_term_to_string(entries[ni].1) {
                        Err(e) => (reg, Err(e)),
                        Ok(name) => match find_name(entry_keys(entries), "fields"@) {
                            None => (reg, Ok(TypeExprModel::ClassRef(name))),
                            Some(_) => {
                                let (reg1, r) = spec_parse_class_item(p, reg);
                                match r {
                                    Ok(_) => (reg1, Ok(TypeExprModel::ClassRef(name))),
                                    Err(e) => (reg1, Err(e)),
                                }
                            },
                        },
                    }
                } else {
                    (reg, Err(ErrorModel::MissingField("name"@)))
                },
            },
            _ => (reg, Err(ErrorModel::InvalidShape("class"@, shape_name(p)))),
        },
    }
}

/// The payload of an `{enum, payload}` type, symmetric with `{class, ...}`:
/// the presence of `values` distinguishes "define now" from "reference".
pub open spec fn spec_parse_enum_ref(p: TaggedModel, reg: RegistryModel) -> (
    RegistryModel,
    Result<TypeExprModel, ErrorModel>,
)
    decreases p, 1int,
{
    match spec_term_to_string(p) {
        Ok(name) => (reg, Ok(TypeExprModel::EnumRef(name))),
        Err(_) => match p {
            TaggedModel::Mapping(entries) => match find_name(entry_keys(entries), "name"@) {
                None => (reg, Err(ErrorModel::MissingField("name"@))),
                Some(ni) => if 0 <= ni < entries.len() {
                    match spec_term_to_string(entries[ni].1) {
                        Err(e) => (reg, Err(e)),
                        Ok(name) => match find_name(entry_keys(entries), "values"@) {
                            None => (reg, Ok(TypeExprModel::EnumRef(name))),
                            Some(_) => {
                                let (reg1, r) = spec_parse_enum_item(p, reg);
                                match r {
                                    Ok(_) => (reg1, Ok(TypeExprModel::EnumRef(name))),
                                    Err(e) => (reg1, Err(e)),
                                }
                            },
                        },
                    }
                } else {
                    (reg, Err(ErrorModel::MissingField("name"@)))
                },
            },
            _ => (reg, Err(ErrorModel::InvalidShape("enum"@, shape_name(p)))),
        },
    }
}

/// Parse a union's alternatives in order, stopping at the first failure.
pub open spec fn spec_parse_union_items(ts: Seq<TaggedModel>, reg: RegistryModel) -> (
    RegistryModel,
    Result<Seq<TypeExprModel>, ErrorModel>,
)
    decreases ts, 0int,
{
    if ts.len() == 0 {
        (reg, Ok(Seq::empty()))
    } else {
        let (reg1, r) = spec_parse_field_type(ts[0], reg);
        match r {
            Err(e) => (reg1, Err(e)),
            Ok(ty) => {
                let (reg2, rest) = spec_parse_union_items(ts.drop_first(), reg1);
                match rest {
                    Ok(tys) => (reg2, Ok(seq![ty] + tys)),
                    Err(e) => (reg2, Err(e)),
                }
            },
        }
    }
}

/// Forward- and self-reference law: whether a declaration set parses — and
/// which error it raises when it does not — depends only on the set itself,
/// never on what the registry already holds. A `{class, name}` or
/// `{enum, name}` reference is accepted without consulting the registry, so
/// a referenced type may be declared earlier, later, or not at all within
/// the same set.
pub proof fn lemma_parse_independent_of_registry(
    t: TaggedModel,
    r1: RegistryModel,
    r2: RegistryModel,
)
    ensures
        spec_parse_spec(t, r1).1 == spec_parse_spec(t, r2).1,
    decreases t, 0int,
{
    match t {
        TaggedModel::List(items) => {
            lemma_items_independent(items, r1, r2);
        },
        _ => {},
    }
}

proof fn lemma_items_independent(items: Seq<TaggedModel>, r1: RegistryModel, r2: RegistryModel)
    ensures
        spec_parse_items(items, r1).1 == spec_parse_items(items, r2).1,
    decreases items, 0int,
{
    if items.len() > 0 {
        lemma_item_independent(items[0], r1, r2);
        let (r1a, a) = spec_parse_item(items[0], r1);
        let (r2a, b) = spec_parse_item(items[0], r2);
        if a is Ok {
            lemma_items_independent(items.drop_first(), r1a, r2a);
        }
    }
}

proof fn lemma_item_independent(t: TaggedModel, r1: RegistryModel, r2: RegistryModel)
    ensures
        spec_parse_item(t, r1).1 == spec_parse_item(t, r2).1,
    decreases t, 0int,
{
    match t {
        TaggedModel::Tag(d, args) => {
            if (d == "class"@ || d == "enum"@) && args.len() == 1 {
                if d == "class"@ {
                    lemma_class_item_independent(args[0], r1, r2);
                } else {
                    lemma_enum_item_independent(args[0], r1, r2);
                }
            }
        },
        _ => {},
    }
}

proof fn lemma_class_item_independent(body: TaggedModel, r1: RegistryModel, r2: RegistryModel)
    ensures
        spec_parse_class_item(body, r1).1 == spec_parse_class_item(body, r2).1,
    decreases body, 0int,
{
    match body {
        TaggedModel::Mapping(entries) => {
            match find_name(entry_keys(entries), "name"@) {
                None => {},
                Some(ni) => {
                    if 0 <= ni < entries.len() && spec_term_to_string(entries[ni].1) is Ok {
                        let name = spec_term_to_string(entries[ni].1)->Ok_0;
                        match find_name(entry_keys(entries), "fields"@) {
                            None => {},
                            Some(fi) => {
                                if 0 <= fi < entries.len() {
                                    match entries[fi].1 {
                                        TaggedModel::List(fs) => {
                                            lemma_field_items_independent(
                                                fs,
                                                spec_upsert_class(r1, name).0,
                                                spec_upsert_class(r2, name).0,
                                                spec_upsert_class(r1, name).1,
                                                spec_upsert_class(r2, name).1,
                                            );
                                        },
                                        _ => {},
                                    }
                                }
                            },
                        }
                    }
                },
            }
        },
        _ => {},
    }
}

proof fn lemma_field_items_independent(
    fs: Seq<TaggedModel>,
    r1: RegistryModel,
    r2: RegistryModel,
    c1: int,
    c2: int,
)
    ensures
        spec_parse_field_items(fs, r1, c1).1 == spec_parse_field_items(fs, r2, c2).1,
    decreases fs, 0int,
{
    if fs.len() > 0 {
        lemma_field_item_independent(fs[0], r1, r2, c1, c2);
        let (r1a, a) = spec_parse_field_item(fs[0], r1, c1);
        let (r2a, b) = spec_parse_field_item(fs[0], r2, c2);
        if a is Ok {
            lemma_field_items_independent(fs.drop_first(), r1a, r2a, c1, c2);
        }
    }
}

proof fn lemma_field_item_independent(
    f: TaggedModel,
    r1: RegistryModel,
    r2: RegistryModel,
    c1: int,
    c2: int,
)
    ensures
        spec_parse_field_item(f, r1, c1).1 == spec_parse_field_item(f, r2, c2).1,
    decreases f, 0int,
{
    match f {
        TaggedModel::Mapping(entries) => {
            match find_name(entry_keys(entries), "name"@) {
                None => {},
                Some(ni) => {
                    if 0 <= ni < entries.len() && spec_term_to_string(entries[ni].1) is Ok {
                        match find_name(entry_keys(entries), "type"@) {
                            None => {},
                            Some(ti) => {
                                if 0 <= ti < entries.len() && spec_field_description(
                                    entries,
                                ) is Ok {
                                    lemma_field_type_independent_of_registry(
                                        entries[ti].1,
                                        r1,
                                        r2,
                                    );
                                }
                            },
                        }
                    }
                },
            }
        },
        _ => {},
    }
}

proof fn lemma_enum_item_independent(body: TaggedModel, r1: RegistryModel, r2: RegistryModel)
    ensures
        spec_parse_enum_item(body, r1).1 == spec_parse_enum_item(body, r2).1,
    decreases body, 0int,
{
    match body {
        TaggedModel::Mapping(entries) => {
            match find_name(entry_keys(entries), "name"@) {
                None => {},
                Some(ni) => {
                    if 0 <= ni < entries.len() && spec_term_to_string(entries[ni].1) is Ok {
                        let name = spec_term_to_string(entries[ni].1)->Ok_0;
                        match find_name(entry_keys(entries), "values"@) {
                            None => {},
                            Some(vi) => {
                                if 0 <= vi < entries.len() {
                                    match entries[vi].1 {
                                        TaggedModel::List(vs) => {
                                            lemma_enum_value_items_independent(
                                                vs,
                                                spec_upsert_enum(r1, name).0,
                                                spec_upsert_enum(r2, name).0,
                                                spec_upsert_enum(r1, name).1,
                                                spec_upsert_enum(r2, name).1,
                                            );
                                        },
                                        _ => {},
                                    }
                                }
                            },
                        }
                    }
                },
            }
        },
        _ => {},
    }
}

proof fn lemma_enum_value_items_independent(
    vs: Seq<TaggedModel>,
    r1: RegistryModel,
    r2: RegistryModel,
    e1: int,
    e2: int,
)
    ensures
        spec_parse_enum_value_items(vs, r1, e1).1 == spec_parse_enum_value_items(vs, r2, e2).1,
    decreases vs, 0int,
{
    if vs.len() > 0 {
        let (r1a, a) = spec_parse_enum_value_item(vs[0], r1, e1);
        let (r2a, b) = spec_parse_enum_value_item(vs[0], r2, e2);
        assert(a == b);
        if a is Ok {
            lemma_enum_value_items_independent(vs.drop_first(), r1a, r2a, e1, e2);
        }
    }
}

/// The same independence holds of every type-expression payload: the type a
/// payload denotes, or the error it raises, is decided by the payload alone.
pub proof fn lemma_field_type_independent_of_registry(
    t: TaggedModel,
    r1: RegistryModel,
    r2: RegistryModel,
)
    ensures
        spec_parse_field_type(t, r1).1 == spec_parse_field_type(t, r2).1,
    decreases t, 2int,
{
    match t {
        TaggedModel::List(ts) => {
            if ts.len() > 0 {
                lemma_field_type_independent_of_registry(ts[0], r1, r2);
            }
        },
        TaggedModel::Tag(name, args) => {
            if args.len() == 0 {
            } else if name == "list"@ {
                if args.len() == 1 {
                    lemma_field_type_independent_of_registry(args[0], r1, r2);
                }
            } else if name == "map"@ {
                if args.len() == 2 {
                    lemma_field_type_independent_of_registry(args[0], r1, r2);
                    let (r1a, ka) = spec_parse_field_type(args[0], r1);
                    let (r2a, kb) = spec_parse_field_type(args[0], r2);
                    if ka is Ok {
                        lemma_field_type_independent_of_registry(args[1], r1a, r2a);
                    }
                }
            } else if name == "union"@ {
                if args.len() == 1 {
                    match args[0] {
                        TaggedModel::List(ts) => {
                            lemma_union_items_independent(ts, r1, r2);
                        },
                        _ => {},
                    }
                }
            } else if name == "class"@ {
                if args.len() == 1 {
                    lemma_class_ref_independent(args[0], r1, r2);
                }
            } else if name == "enum"@ {
                if args.len() == 1 {
                    lemma_enum_ref_independent(args[0], r1, r2);
                }
            }
        },
        _ => {},
    }
}

proof fn lemma_class_ref_independent(p: TaggedModel, r1: RegistryModel, r2: RegistryModel)
    ensures
        spec_parse_class_ref(p, r1).1 == spec_parse_class_ref(p, r2).1,
    decreases p, 1int,
{
    if spec_term_to_string(p) is Err {
        match p {
            TaggedModel::Mapping(entries) => {
                match find_name(entry_keys(entries), "name"@) {
                    None => {},
                    Some(ni) => {
                        if 0 <= ni < entries.len() && spec_term_to_string(entries[ni].1) is Ok {
                            if find_name(entry_keys(entries), "fields"@) is Some {
                                lemma_class_item_independent(p, r1, r2);
                            }
                        }
                    },
                }
            },
            _ => {},
        }
    }
}

proof fn lemma_enum_ref_independent(p: TaggedModel, r1: RegistryModel, r2: RegistryModel)
    ensures
        spec_parse_enum_ref(p, r1).1 == spec_parse_enum_ref(p, r2).1,
    decreases p, 1int,
{
    if spec_term_to_string(p) is Err {
        match p {
            TaggedModel::Mapping(entries) => {
                match find_name(entry_keys(entries), "name"@) {
                    None => {},
                    Some(ni) => {
                        if 0 <= ni < entries.len() && spec_term_to_string(entries[ni].1) is Ok {
                            if find_name(entry_keys(entries), "values"@) is Some {
                                lemma_enum_item_independent(p, r1, r2);
                            }
                        }
                    },
                }
            },
            _ => {},
        }
    }
}

proof fn lemma_union_items_independent(ts: Seq<TaggedModel>, r1: RegistryModel, r2: RegistryModel)
    ensures
        spec_parse_union_items(ts, r1).1 == spec_parse_union_items(ts, r2).1,
    decreases ts, 0int,
{
    if ts.len() > 0 {
        lemma_field_type_independent_of_registry(ts[0], r1, r2);
        let (r1a, a) = spec_parse_field_type(ts[0], r1);
        let (r2a, b) = spec_parse_field_type(ts[0], r2);
        if a is Ok {
            lemma_union_items_independent(ts.drop_first(), r1a, r2a);
        }
    }
}

/// Model of an exec unit result.
pub open spec fn unit_result_model(r: Result<(), BridgeError>) -> Result<(), ErrorModel> {
    match r {
        Ok(_) => Ok(()),
        Err(e) => Err(e@),
    }
}

/// Model of an exec string result.
pub open spec fn string_result_model(r: Result<String, BridgeError>) -> Result<
    Seq<char>,
    ErrorModel,
> {
    match r {
        Ok(s) => Ok(s@),
        Err(e) => Err(e@),
    }
}

/// Model of an exec type-expression result.
pub open spec fn type_result_model(r: Result<TypeExpression, BridgeError>) -> Result<
    TypeExprModel,
    ErrorModel,
> {
    match r {
        Ok(t) => Ok(t@),
        Err(e) => Err(e@),
    }
}

/// Read a name: a string value stays itself; a bare named tag reads as its
/// name; anything else is rejected.
pub fn term_to_string(term: &TaggedValue) -> (r: Result<String, BridgeError>)
    ensures
        string_result_model(r) == spec_term_to_string(term@),
{
    match term {
        TaggedValue::Str(s) => Ok(s.clone()),
        TaggedValue::Tag(name, args) => if args.len() == 0 {
            Ok(name.clone())
        } else {
            Err(BridgeError::InvalidShape("string".to_owned(), "tag".to_owned()))
        },
        _ => Err(BridgeError::InvalidShape("string".to_owned(), shape_of(term))),
    }
}

/// Index of the first entry of `entries` whose key is `key`, if any.
fn find_entry(entries: &Vec<(String, TaggedValue)>, key: &String) -> (r: Option<usize>)
    ensures
        match r {
            Some(i) => {
                &&& i < entries@.len()
                &&& find_name(entry_keys(tagged_entries_model(entries@)), key@) == Some(i as int)
                &&& entries@[i as int].0@ == key@
            },
            None => find_name(entry_keys(tagged_entries_model(entries@)), key@) is None,
        },
{
    let ghost keys = entry_keys(tagged_entries_model(entries@));
    proof {
        assert(keys.len() == entries@.len());
    }
    let mut j: usize = 0;
    while j < entries.len()
        invariant
            j <= entries@.len(),
            keys == entry_keys(tagged_entries_model(entries@)),
            keys.len() == entries@.len(),
            forall|k: int| 0 <= k < j ==> keys[k] != key@,
        decreases entries@.len() - j,
    {
        if entries[j].0 == *key {
            proof {
                assert(keys[j as int] == key@);
                crate::registry::lemma_find_name_at(keys, key@, j as int);
            }
            return Some(j);
        }
        proof {
            assert(keys[j as int] == entries@[j as int].0@);
        }
        j += 1;
    }
    proof {
        crate::registry::lemma_find_name_none(keys, key@);
    }
    None
}

/// Apply one enum value item to the enum behind `h`.
fn parse_enum_value_item(v: &TaggedValue, reg: &mut SchemaRegistry, h: crate::registry::EnumHandle)
    -> (r: Result<(), BridgeError>)
    requires
        0 <= h@ < old(reg)@.enums.len(),
    ensures
        final(reg)@ == spec_parse_enum_value_item(v@, old(reg)@, h@).0,
        unit_result_model(r) == spec_parse_enum_value_item(v@, old(reg)@, h@).1,
        final(reg)@.classes.len() >= old(reg)@.classes.len(),
        final(reg)@.enums.len() >= old(reg)@.enums.len(),
    decreases *v, 0int,
{
    match term_to_string(v) {
        Ok(name) => {
            reg.upsert_value(h, &name);
            Ok(())
        },
        Err(_) => match v {
            TaggedValue::Mapping(entries) => {
                let value_key = "value".to_owned();
                match find_entry(entries, &value_key) {
                    None => Err(BridgeError::MissingField("value".to_owned())),
                    Some(vi) => match term_to_string(&entries[vi].1) {
                        Err(e) => Err(e),
                        Ok(name) => {
                            let desc_key = "description".to_owned();
                            let desc = match find_entry(entries, &desc_key) {
                                None => None,
                                Some(di) => match term_to_string(&entries[di].1) {
                                    Ok(d) => Some(d),
                                    Err(e) => {
                                        return Err(e);
                                    },
                                },
                            };
                            let vh = reg.upsert_value(h, &name);
                            match desc {
                                Some(d) => {
                                    reg.set_value_description(vh, d);
                                },
                                None => {},
                            }
                            Ok(())
                        },
                    },
                }
            },
            _ => Err(BridgeError::InvalidShape("enum value".to_owned(), shape_of(v))),
        },
    }
}

/// Apply an enum's value items in order.
fn parse_enum_value_items(
    vs: &Vec<TaggedValue>,
    reg: &mut SchemaRegistry,
    h: crate::registry::EnumHandle,
) -> (r: Result<(), BridgeError>)
    requires
        0 <= h@ < old(reg)@.enums.len(),
    ensures
        final(reg)@ == spec_parse_enum_value_items(tagged_seq_model(vs@), old(reg)@, h@).0,
        unit_result_model(r) == spec_parse_enum_value_items(tagged_seq_model(vs@), old(reg)@, h@).1,
        final(reg)@.classes.len() >= old(reg)@.classes.len(),
        final(reg)@.enums.len() >= old(reg)@.enums.len(),
    decreases *vs, 0int,
{
    let ghost models = tagged_seq_model(vs@);
    let ghost reg0 = reg@;
    let mut i: usize = 0;
    proof {
        assert(models.skip(0) =~= models);
    }
    while i < vs.len()
        invariant
            i <= vs@.len(),
            models == tagged_seq_model(vs@),
            reg0 == old(reg)@,
            0 <= h@ < reg@.enums.len(),
            spec_parse_enum_value_items(models, reg0, h@) == spec_parse_enum_value_items(
                models.skip(i as int),
                reg@,
                h@,
            ),
            reg@.classes.len() >= reg0.classes.len(),
            reg@.enums.len() >= reg0.enums.len(),
        decreases vs@.len() - i,
    {
        proof {
            crate::codec::lemma_skip_step(models, i as int);
        }
        match parse_enum_value_item(&vs[i], reg, h) {
            Ok(_) => {},
            Err(e) => {
                return Err(e);
            },
        }
        i += 1;
    }
    proof {
        assert(models.skip(vs@.len() as int) =~= Seq::<TaggedModel>::empty());
    }
    Ok(())
}

/// Apply one enum declaration body: read `name` and `values`, create or
/// reopen the enum, then apply its values in order.
fn parse_enum_item(body: &TaggedValue, reg: &mut SchemaRegistry) -> (r: Result<(), BridgeError>)
    ensures
        final(reg)@ == spec_parse_enum_item(body@, old(reg)@).0,
        unit_result_model(r) == spec_parse_enum_item(body@, old(reg)@).1,
        final(reg)@.classes.len() >= old(reg)@.classes.len(),
        final(reg)@.enums.len() >= old(reg)@.enums.len(),
    decreases *body, 0int,
{
    match body {
        TaggedValue::Mapping(entries) => {
            let name_key = "name".to_owned();
            match find_entry(entries, &name_key) {
                None => Err(BridgeError::MissingField("name".to_owned())),
                Some(ni) => match term_to_string(&entries[ni].1) {
                    Err(e) => Err(e),
                    Ok(name) => {
                        let values_key = "values".to_owned();
                        match find_entry(entries, &values_key) {
                            None => Err(BridgeError::MissingField("values".to_owned())),
                            Some(vi) => {
                                let h = reg.upsert_enum(&name);
                                match &entries[vi].1 {
                                    TaggedValue::List(vs) => parse_enum_value_items(vs, reg, h),
                                    other => Err(
                                        BridgeError::InvalidShape("list".to_owned(), shape_of(other)),
                                    ),
                                }
                            },
                        }
                    },
                },
            }
        },
        _ => Err(BridgeError::InvalidShape("map".to_owned(), shape_of(body))),
    }
}

/// Apply one field item to the class behind `h`: read `name`, `type` and
/// the optional `description`, parse the type, then upsert and fill the
/// field.
fn parse_field_item(f: &TaggedValue, reg: &mut SchemaRegistry, h: crate::registry::ClassHandle)
    -> (r: Result<(), BridgeError>)
    requires
        0 <= h@ < old(reg)@.classes.len(),
    ensures
        final(reg)@ == spec_parse_field_item(f@, old(reg)@, h@).0,
        unit_result_model(r) == spec_parse_field_item(f@, old(reg)@, h@).1,
        final(reg)@.classes.len() >= old(reg)@.classes.len(),
        final(reg)@.enums.len() >= old(reg)@.enums.len(),
    decreases *f, 0int,
{
    match f {
        TaggedValue::Mapping(entries) => {
            let name_key = "name".to_owned();
            match find_entry(entries, &name_key) {
                None => Err(BridgeError::MissingField("name".to_owned())),
                Some(ni) => match term_to_string(&entries[ni].1) {
                    Err(e) => Err(e),
                    Ok(name) => {
                        let type_key = "type".to_owned();
                        match find_entry(entries, &type_key) {
                            None => Err(BridgeError::MissingField("type".to_owned())),
                            Some(ti) => {
                                let desc_key = "description".to_owned();
                                let desc = match find_entry(entries, &desc_key) {
                                    None => None,
                                    Some(di) => match term_to_string(&entries[di].1) {
                                        Ok(d) => Some(d),
                                        Err(e) => {
                                            return Err(e);
                                        },
                                    },
                                };
                                match parse_field_type(&entries[ti].1, reg) {
                                    Err(e) => Err(e),
                                    Ok(ty) => {
                                        let fh = reg.upsert_property(h, &name);
                                        reg.set_type(fh, ty);
                                        match desc {
                                            Some(d) => {
                                                reg.set_description(fh, d);
                                            },
                                            None => {},
                                        }
                                        Ok(())
                                    },
                                }
                            },
                        }
                    },
                },
            }
        },
        _ => Err(BridgeError::InvalidShape("map".to_owned(), shape_of(f))),
    }
}

/// Apply a class's field items in order.
fn parse_field_items(
    fs: &Vec<TaggedValue>,
    reg: &mut SchemaRegistry,
    h: crate::registry::ClassHandle,
) -> (r: Result<(), BridgeError>)
    requires
        0 <= h@ < old(reg)@.classes.len(),
    ensures
        final(reg)@ == spec_parse_field_items(tagged_seq_model(fs@), old(reg)@, h@).0,
        unit_result_model(r) == spec_parse_field_items(tagged_seq_model(fs@), old(reg)@, h@).1,
        final(reg)@.classes.len() >= old(reg)@.classes.len(),
        final(reg)@.enums.len() >= old(reg)@.enums.len(),
    decreases *fs, 0int,
{
    let ghost models = tagged_seq_model(fs@);
    let ghost reg0 = reg@;
    let mut i: usize = 0;
    proof {
        assert(models.skip(0) =~= models);
    }
    while i < fs.len()
        invariant
            i <= fs@.len(),
            models == tagged_seq_model(fs@),
            reg0 == old(reg)@,
            0 <= h@ < reg@.classes.len(),
            spec_parse_field_items(models, reg0, h@) == spec_parse_field_items(
                models.skip(i as int),
                reg@,
                h@,
            ),
            reg@.classes.len() >= reg0.classes.len(),
            reg@.enums.len() >= reg0.enums.len(),
        decreases fs@.len() - i,
    {
        proof {
            crate::codec::lemma_skip_step(models, i as int);
        }
        match parse_field_item(&fs[i], reg, h) {
            Ok(_) => {},
            Err(e) => {
                return Err(e);
            },
        }
        i += 1;
    }
    proof {
        assert(models.skip(fs@.len() as int) =~= Seq::<TaggedModel>::empty());
    }
    Ok(())
}

/// Apply one class declaration body: read `name` and `fields`, create or
/// reopen the class, then apply its fields in order.
fn parse_class_item(body: &TaggedValue, reg: &mut SchemaRegistry) -> (r: Result<(), BridgeError>)
    ensures
        final(reg)@ == spec_parse_class_item(body@, old(reg)@).0,
        unit_result_model(r) == spec_parse_class_item(body@, old(reg)@).1,
        final(reg)@.classes.len() >= old(reg)@.classes.len(),
        final(reg)@.enums.len() >= old(reg)@.enums.len(),
    decreases *body, 0int,
{
    match body {
        TaggedValue::Mapping(entries) => {
            let name_key = "name".to_owned();
            match find_entry(entries, &name_key) {
                None => Err(BridgeError::MissingField("name".to_owned())),
                Some(ni) => match term_to_string(&entries[ni].1) {
                    Err(e) => Err(e),
                    Ok(name) => {
                        let fields_key = "fields".to_owned();
                        match find_entry(entries, &fields_key) {
                            None => Err(BridgeError::MissingField("fields".to_owned())),
                            Some(fi) => {
                                let h = reg.upsert_class(&name);
                                match &entries[fi].1 {
                                    TaggedValue::List(fs) => parse_field_items(fs, reg, h),
                                    other => Err(
                                        BridgeError::InvalidShape("list".to_owned(), shape_of(other)),
                                    ),
                                }
                            },
                        }
                    },
                },
            }
        },
        _ => Err(BridgeError::InvalidShape("map".to_owned(), shape_of(body))),
    }
}

/// Prefix the alternatives of a successful union parse; pass errors and the
/// threaded registry through.
pub open spec fn union_prefixed(
    prefix: Seq<TypeExprModel>,
    r: (RegistryModel, Result<Seq<TypeExprModel>, ErrorModel>),
) -> (RegistryModel, Result<Seq<TypeExprModel>, ErrorModel>) {
    match r.1 {
        Ok(tys) => (r.0, Ok(prefix + tys)),
        Err(e) => (r.0, Err(e)),
    }
}

/// Parse a union's alternatives in order.
fn parse_union_items(ts: &Vec<TaggedValue>, reg: &mut SchemaRegistry) -> (r: Result<
    Vec<TypeExpression>,
    BridgeError,
>)
    ensures
        final(reg)@ == spec_parse_union_items(tagged_seq_model(ts@), old(reg)@).0,
        match r {
            Ok(out) => spec_parse_union_items(tagged_seq_model(ts@), old(reg)@).1 == Ok::<
                _,
                ErrorModel,
            >(crate::type_expr::type_expr_seq_model(out@)),
            Err(e) => spec_parse_union_items(tagged_seq_model(ts@), old(reg)@).1 == Err::<
                Seq<TypeExprModel>,
                _,
            >(e@),
        },
        final(reg)@.classes.len() >= old(reg)@.classes.len(),
        final(reg)@.enums.len() >= old(reg)@.enums.len(),
    decreases *ts, 0int,
{
    let ghost models = tagged_seq_model(ts@);
    let ghost reg0 = reg@;
    let mut out: Vec<TypeExpression> = Vec::new();
    let mut i: usize = 0;
    proof {
        assert(models.skip(0) =~= models);
        assert(crate::type_expr::type_expr_seq_model(out@) =~= Seq::<TypeExprModel>::empty());
    }
    while i < ts.len()
        invariant
            i <= ts@.len(),
            models == tagged_seq_model(ts@),
            reg0 == old(reg)@,
            spec_parse_union_items(models, reg0) == union_prefixed(
                crate::type_expr::type_expr_seq_model(out@),
                spec_parse_union_items(models.skip(i as int), reg@),
            ),
            reg@.classes.len() >= reg0.classes.len(),
            reg@.enums.len() >= reg0.enums.len(),
        decreases ts@.len() - i,
    {
        proof {
            crate::codec::lemma_skip_step(models, i as int);
        }
        let ghost prev = out@;
        match parse_field_type(&ts[i], reg) {
            Err(e) => {
                return Err(e);
            },
            Ok(ty) => {
                out.push(ty);
                proof {
                    let m = ty@;
                    assert(crate::type_expr::type_expr_seq_model(prev.push(ty))
                        =~= crate::type_expr::type_expr_seq_model(prev).push(m));
                    assert forall|rest: Seq<TypeExprModel>|
                        true implies (crate::type_expr::type_expr_seq_model(prev) + (seq![m]
                        + rest)) == (crate::type_expr::type_expr_seq_model(prev).push(m)
                        + rest) by {
                        assert(crate::type_expr::type_expr_seq_model(prev) + (seq![m] + rest)
                            =~= crate::type_expr::type_expr_seq_model(prev).push(m) + rest);
                    };
                }
            },
        }
        i += 1;
    }
    proof {
        assert(models.skip(ts@.len() as int) =~= Seq::<TaggedModel>::empty());
        assert(crate::type_expr::type_expr_seq_model(out@) + Seq::<TypeExprModel>::empty()
            =~= crate::type_expr::type_expr_seq_model(out@));
    }
    Ok(out)
}

/// The payload of a `{class, payload}` type: a name makes a reference; a
/// body map with `fields` defines the class first, then refers to it.
fn parse_class_ref(p: &TaggedValue, reg: &mut SchemaRegistry) -> (r: Result<
    TypeExpression,
    BridgeError,
>)
    ensures
        final(reg)@ == spec_parse_class_ref(p@, old(reg)@).0,
        type_result_model(r) == spec_parse_class_ref(p@, old(reg)@).1,
        final(reg)@.classes.len() >= old(reg)@.classes.len(),
        final(reg)@.enums.len() >= old(reg)@.enums.len(),
    decreases *p, 1int,
{
    match term_to_string(p) {
        Ok(name) => Ok(TypeExpression::ClassRef(name)),
        Err(_) => match p {
            TaggedValue::Mapping(entries) => {
                let name_key = "name".to_owned();
                match find_entry(entries, &name_key) {
                    None => Err(BridgeError::MissingField("name".to_owned())),
                    Some(ni) => match term_to_string(&entries[ni].1) {
                        Err(e) => Err(e),
                        Ok(name) => {
                            let fields_key = "fields".to_owned();
                            match find_entry(entries, &fields_key) {
                                None => Ok(TypeExpression::ClassRef(name)),
                                Some(_) => match parse_class_item(p, reg) {
                                    Ok(_) => Ok(TypeExpression::ClassRef(name)),
                                    Err(e) => Err(e),
                                },
                            }
                        },
                    },
                }
            },
            _ => Err(BridgeError::InvalidShape("class".to_owned(), shape_of(p))),
        },
    }
}

/// The payload of an `{enum, payload}` type, symmetric with `{class, ...}`.
fn parse_enum_ref(p: &TaggedValue, reg: &mut SchemaRegistry) -> (r: Result<
    TypeExpression,
    BridgeError,
>)
    ensures
        final(reg)@ == spec_parse_enum_ref(p@, old(reg)@).0,
        type_result_model(r) == spec_parse_enum_ref(p@, old(reg)@).1,
        final(reg)@.classes.len() >= old(reg)@.classes.len(),
        final(reg)@.enums.len() >= old(reg)@.enums.len(),
    decreases *p, 1int,
{
    match term_to_string(p) {
        Ok(name) => Ok(TypeExpression::EnumRef(name)),
        Err(_) => match p {
            TaggedValue::Mapping(entries) => {
                let name_key = "name".to_owned();
                match find_entry(entries, &name_key) {
                    None => Err(BridgeError::MissingField("name".to_owned())),
                    Some(ni) => match term_to_string(&entries[ni].1) {
                        Err(e) => Err(e),
                        Ok(name) => {
                            let values_key = "values".to_owned();
                            match find_entry(entries, &values_key) {
                                None => Ok(TypeExpression::EnumRef(name)),
                                Some(_) => match parse_enum_item(p, reg) {
                                    Ok(_) => Ok(TypeExpression::EnumRef(name)),
                                    Err(e) => Err(e),
                                },
                            }
                        },
                    },
                }
            },
            _ => Err(BridgeError::InvalidShape("enum".to_owned(), shape_of(p))),
        },
    }
}

/// Parse one type-expression payload, applying any inline definitions it
/// carries to the registry.
fn parse_field_type(t: &TaggedValue, reg: &mut SchemaRegistry) -> (r: Result<
    TypeExpression,
    BridgeError,
>)
    ensures
        final(reg)@ == spec_parse_field_type(t@, old(reg)@).0,
        type_result_model(r) == spec_parse_field_type(t@, old(reg)@).1,
        final(reg)@.classes.len() >= old(reg)@.classes.len(),
        final(reg)@.enums.len() >= old(reg)@.enums.len(),
    decreases *t, 2int,
{
    match t {
        TaggedValue::Str(s) => Ok(TypeExpression::Literal(LiteralValue::Str(s.clone()))),
        TaggedValue::Int(i) => Ok(TypeExpression::Literal(LiteralValue::Int(*i))),
        TaggedValue::Bool(b) => Ok(TypeExpression::Literal(LiteralValue::Bool(*b))),
        TaggedValue::List(ts) => {
            if ts.len() == 0 {
                Err(BridgeError::InvalidShape("type".to_owned(), "empty list".to_owned()))
            } else {
                match parse_field_type(&ts[0], reg) {
                    Ok(inner) => Ok(TypeExpression::List(Box::new(inner))),
                    Err(e) => Err(e),
                }
            }
        },
        TaggedValue::Tag(name, args) => {
            if args.len() == 0 {
                if *name == "string".to_owned() {
                    Ok(TypeExpression::Primitive(PrimitiveKind::Str))
                } else if *name == "int".to_owned() {
                    Ok(TypeExpression::Primitive(PrimitiveKind::Int))
                } else if *name == "float".to_owned() {
                    Ok(TypeExpression::Primitive(PrimitiveKind::Float))
                } else if *name == "bool".to_owned() {
                    Ok(TypeExpression::Primitive(PrimitiveKind::Bool))
                } else {
                    Ok(TypeExpression::ClassRef(name.clone()))
                }
            } else if *name == "list".to_owned() {
                if args.len() == 1 {
                    match parse_field_type(&args[0], reg) {
                        Ok(inner) => Ok(TypeExpression::List(Box::new(inner))),
                        Err(e) => Err(e),
                    }
                } else {
                    Err(BridgeError::InvalidShape("list".to_owned(), "tag".to_owned()))
                }
            } else if *name == "map".to_owned() {
                if args.len() == 2 {
                    match parse_field_type(&args[0], reg) {
                        Err(e) => Err(e),
                        Ok(key) => match parse_field_type(&args[1], reg) {
                            Err(e) => Err(e),
                            Ok(value) => Ok(
                                TypeExpression::Mapping(Box::new(key), Box::new(value)),
                            ),
                        },
                    }
                } else {
                    Err(BridgeError::InvalidShape("map".to_owned(), "tag".to_owned()))
                }
            } else if *name == "union".to_owned() {
                if args.len() == 1 {
                    match &args[0] {
                        TaggedValue::List(ts) => match parse_union_items(ts, reg) {
                            Ok(alts) => Ok(TypeExpression::Union(alts)),
                            Err(e) => Err(e),
                        },
                        other => Err(
                            BridgeError::InvalidShape("list".to_owned(), shape_of(other)),
                        ),
                    }
                } else {
                    Err(BridgeError::InvalidShape("union".to_owned(), "tag".to_owned()))
                }
            } else if *name == "class".to_owned() {
                if args.len() == 1 {
                    parse_class_ref(&args[0], reg)
                } else {
                    Err(BridgeError::InvalidShape("class".to_owned(), "tag".to_owned()))
                }
            } else if *name == "enum".to_owned() {
                if args.len() == 1 {
                    parse_enum_ref(&args[0], reg)
                } else {
                    Err(BridgeError::InvalidShape("enum".to_owned(), "tag".to_owned()))
                }
            } else {
                Err(BridgeError::UnresolvedDeclaration(name.clone()))
            }
        },
        _ => Err(BridgeError::InvalidShape("type".to_owned(), shape_of(t))),
    }
}

/// Dispatch one declaration item on its discriminator tag.
fn parse_type_builder_item(term: &TaggedValue, reg: &mut SchemaRegistry) -> (r: Result<
    (),
    BridgeError,
>)
    ensures
        final(reg)@ == spec_parse_item(term@, old(reg)@).0,
        unit_result_model(r) == spec_parse_item(term@, old(reg)@).1,
        final(reg)@.classes.len() >= old(reg)@.classes.len(),
        final(reg)@.enums.len() >= old(reg)@.enums.len(),
    decreases *term, 0int,
{
    match term {
        TaggedValue::Tag(d, args) => {
            let is_class = *d == "class".to_owned();
            let is_enum = *d == "enum".to_owned();
            if is_class || is_enum {
                if args.len() == 1 {
                    if is_class {
                        parse_class_item(&args[0], reg)
                    } else {
                        parse_enum_item(&args[0], reg)
                    }
                } else {
                    Err(BridgeError::InvalidShape("declaration".to_owned(), "tag".to_owned()))
                }
            } else {
                Err(BridgeError::UnresolvedDeclaration(d.clone()))
            }
        },
        _ => Err(BridgeError::InvalidShape("declaration".to_owned(), shape_of(term))),
    }
}

/// Apply a sequence of declaration items in order.
fn parse_items(items: &Vec<TaggedValue>, reg: &mut SchemaRegistry) -> (r: Result<(), BridgeError>)
    ensures
        final(reg)@ == spec_parse_items(tagged_seq_model(items@), old(reg)@).0,
        unit_result_model(r) == spec_parse_items(tagged_seq_model(items@), old(reg)@).1,
        final(reg)@.classes.len() >= old(reg)@.classes.len(),
        final(reg)@.enums.len() >= old(reg)@.enums.len(),
    decreases *items, 0int,
{
    let ghost models = tagged_seq_model(items@);
    let ghost reg0 = reg@;
    let mut i: usize = 0;
    proof {
        assert(models.skip(0) =~= models);
    }
    while i < items.len()
        invariant
            i <= items@.len(),
            models == tagged_seq_model(items@),
            reg0 == old(reg)@,
            spec_parse_items(models, reg0) == spec_parse_items(models.skip(i as int), reg@),
            reg@.classes.len() >= reg0.classes.len(),
            reg@.enums.len() >= reg0.enums.len(),
        decreases items@.len() - i,
    {
        proof {
            crate::codec::lemma_skip_step(models, i as int);
        }
        match parse_type_builder_item(&items[i], reg) {
            Ok(_) => {},
            Err(e) => {
                return Err(e);
            },
        }
        i += 1;
    }
    proof {
        assert(models.skip(items@.len() as int) =~= Seq::<TaggedModel>::empty());
    }
    Ok(())
}

/// Consume one ordered declaration set and apply it to `reg`.
///
/// The set must be a list of declaration items; they apply in caller order,
/// and the first failure stops the walk with every prior application kept —
/// there is no rollback.
pub fn parse_type_builder_spec(term: &TaggedValue, reg: &mut SchemaRegistry) -> (r: Result<
    (),
    BridgeError,
>)
    ensures
        final(reg)@ == spec_parse_spec(term@, old(reg)@).0,
        unit_result_model(r) == spec_parse_spec(term@, old(reg)@).1,
        final(reg)@.classes.len() >= old(reg)@.classes.len(),
        final(reg)@.enums.len() >= old(reg)@.enums.len(),
{
    match term {
        TaggedValue::List(items) => parse_items(items, reg),
        _ => Err(BridgeError::InvalidShape("list".to_owned(), shape_of(term))),
    }
}

} // verus!
