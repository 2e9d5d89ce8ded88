//! The bidirectional value codec between the dynamic `TaggedValue` grammar
//! and the engine's `RuntimeValue` tree.
//!
//! `decode` is total over the grammar except for one rejecting arm: a named
//! tag, which has no runtime meaning. `encode` is total except for `Media`.
//! A `Class` is encoded as a map carrying one reserved marker entry with the
//! class name; an `Enum` as a two-entry map under two reserved keys. The
//! marker namespace is disjoint from legal field names, so a decoder can tell
//! a plain map from a class or enum instance by the markers alone.

use vstd::prelude::*;

use crate::error::{BridgeError, ErrorModel};
use crate::value::{
    runtime_entries_model, runtime_model, runtime_seq_model, tagged_entries_model, tagged_model,
    tagged_seq_model, RuntimeModel, RuntimeValue, TaggedModel, TaggedValue,
};

verus! {

broadcast use
    vstd::std_specs::vec::group_vec_axioms,
    vstd::string::group_string_axioms;

/// Reserved map key holding the class name of an encoded `Class` value.
pub open spec fn class_marker() -> Seq<char> {
    "__baml_class__"@
}

/// Reserved map key holding the enum type name of an encoded `Enum` value.
pub open spec fn enum_marker() -> Seq<char> {
    "__baml_enum__"@
}

/// Reserved map key holding the variant name of an encoded `Enum` value.
pub open spec fn variant_key() -> Seq<char> {
    "value"@
}

/// First entry in `entries` whose key is `key`, if any.
pub open spec fn lookup(s: Seq<(Seq<char>, TaggedModel)>, key: Seq<char>) -> Option<TaggedModel>
    decreases s,
{
    if s.len() == 0 {
        None
    } else if s[0].0 == key {
        Some(s[0].1)
    } else {
        lookup(s.drop_first(), key)
    }
}

/// The class name of a map-shaped value carrying the class marker.
pub open spec fn class_name_of(entries: Seq<(Seq<char>, TaggedModel)>) -> Option<Seq<char>> {
    match lookup(entries, class_marker()) {
        Some(TaggedModel::Str(name)) => Some(name),
        _ => None,
    }
}

/// The enum type and variant names of a two-entry map carrying both enum keys.
pub open spec fn enum_shape_of(entries: Seq<(Seq<char>, TaggedModel)>) -> Option<
    (Seq<char>, Seq<char>),
> {
    if entries.len() == 2 {
        match (lookup(entries, enum_marker()), lookup(entries, variant_key())) {
            (Some(TaggedModel::Str(name)), Some(TaggedModel::Str(variant))) => Some(
                (name, variant),
            ),
            _ => None,
        }
    } else {
        None
    }
}

/// What `decode` returns, stated over the models.
pub open spec fn dec(t: TaggedModel) -> Result<RuntimeModel, ErrorModel>
    decreases t,
{
    match t {
        TaggedModel::Null => Ok(RuntimeModel::Null),
        TaggedModel::Bool(b) => Ok(RuntimeModel::Bool(b)),
        TaggedModel::Int(i) => Ok(RuntimeModel::Int(i)),
        TaggedModel::Float(bits) => Ok(RuntimeModel::Float(bits)),
        TaggedModel::Str(s) => Ok(RuntimeModel::Str(s)),
        TaggedModel::List(items) => match dec_seq(items) {
            Ok(vs) => Ok(RuntimeModel::List(vs)),
            Err(e) => Err(e),
        },
        TaggedModel::Mapping(entries) => if class_name_of(entries) is Some {
            match dec_class_fields(entries) {
                Ok(fields) => Ok(RuntimeModel::Class(class_name_of(entries)->Some_0, fields)),
                Err(e) => Err(e),
            }
        } else if enum_shape_of(entries) is Some {
            Ok(
                RuntimeModel::Enum(
                    enum_shape_of(entries)->Some_0.0,
                    enum_shape_of(entries)->Some_0.1,
                ),
            )
        } else {
            match dec_entries(entries) {
                Ok(es) => Ok(RuntimeModel::Mapping(es)),
                Err(e) => Err(e),
            }
        },
        TaggedModel::Tag(name, _args) => Err(ErrorModel::UnsupportedValue(name)),
    }
}

/// Decode a sequence of values in order, stopping at the first failure.
pub open spec fn dec_seq(s: Seq<TaggedModel>) -> Result<Seq<RuntimeModel>, ErrorModel>
    decreases s,
{
    if s.len() == 0 {
        Ok(Seq::empty())
    } else {
        match dec(s[0]) {
            Ok(v) => match dec_seq(s.drop_first()) {
                Ok(vs) => Ok(seq![v] + vs),
                Err(e) => Err(e),
            },
            Err(e) => Err(e),
        }
    }
}

/// Decode map entries in order, stopping at the first failure.
pub open spec fn dec_entries(s: Seq<(Seq<char>, TaggedModel)>) -> Result<
    Seq<(Seq<char>, RuntimeModel)>,
    ErrorModel,
>
    decreases s,
{
    if s.len() == 0 {
        Ok(Seq::empty())
    } else {
        match dec(s[0].1) {
            Ok(v) => match dec_entries(s.drop_first()) {
                Ok(vs) => Ok(seq![(s[0].0, v)] + vs),
                Err(e) => Err(e),
            },
            Err(e) => Err(e),
        }
    }
}

/// Decode the field entries of a class-marked map: marker entries are
/// dropped, the rest decode in order, stopping at the first failure.
pub open spec fn dec_class_fields(s: Seq<(Seq<char>, TaggedModel)>) -> Result<
    Seq<(Seq<char>, RuntimeModel)>,
    ErrorModel,
>
    decreases s,
{
    if s.len() == 0 {
        Ok(Seq::empty())
    } else if s[0].0 == class_marker() {
        dec_class_fields(s.drop_first())
    } else {
        match dec(s[0].1) {
            Ok(v) => match dec_class_fields(s.drop_first()) {
                Ok(vs) => Ok(seq![(s[0].0, v)] + vs),
                Err(e) => Err(e),
            },
            Err(e) => Err(e),
        }
    }
}

/// What `encode` returns, stated over the models.
pub open spec fn enc(v: RuntimeModel) -> Result<TaggedModel, ErrorModel>
    decreases v,
{
    match v {
        RuntimeModel::Null => Ok(TaggedModel::Null),
        RuntimeModel::Bool(b) => Ok(TaggedModel::Bool(b)),
        RuntimeModel::Int(i) => Ok(TaggedModel::Int(i)),
        RuntimeModel::Float(bits) => Ok(TaggedModel::Float(bits)),
        RuntimeModel::Str(s) => Ok(TaggedModel::Str(s)),
        RuntimeModel::List(items) => match enc_seq(items) {
            Ok(ts) => Ok(TaggedModel::List(ts)),
            Err(e) => Err(e),
        },
        RuntimeModel::Mapping(entries) => match enc_entries(entries) {
            Ok(es) => Ok(TaggedModel::Mapping(es)),
            Err(e) => Err(e),
        },
        RuntimeModel::Class(name, fields) => match enc_entries(fields) {
            Ok(es) => Ok(
                TaggedModel::Mapping(seq![(class_marker(), TaggedModel::Str(name))] + es),
            ),
            Err(e) => Err(e),
        },
        RuntimeModel::Enum(name, variant) => Ok(
            TaggedModel::Mapping(
                seq![
                    (enum_marker(), TaggedModel::Str(name)),
                    (variant_key(), TaggedModel::Str(variant)),
                ],
            ),
        ),
        RuntimeModel::Media => Err(ErrorModel::UnsupportedValue("media"@)),
    }
}

/// Encode a sequence of values in order, stopping at the first failure.
pub open spec fn enc_seq(s: Seq<RuntimeModel>) -> Result<Seq<TaggedModel>, ErrorModel>
    decreases s,
{
    if s.len() == 0 {
        Ok(Seq::empty())
    } else {
        match enc(s[0]) {
            Ok(t) => match enc_seq(s.drop_first()) {
                Ok(ts) => Ok(seq![t] + ts),
                Err(e) => Err(e),
            },
            Err(e) => Err(e),
        }
    }
}

/// Encode map or class-field entries in order, stopping at the first failure.
pub open spec fn enc_entries(s: Seq<(Seq<char>, RuntimeModel)>) -> Result<
    Seq<(Seq<char>, TaggedModel)>,
    ErrorModel,
>
    decreases s,
{
    if s.len() == 0 {
        Ok(Seq::empty())
    } else {
        match enc(s[0].1) {
            Ok(t) => match enc_entries(s.drop_first()) {
                Ok(ts) => Ok(seq![(s[0].0, t)] + ts),
                Err(e) => Err(e),
            },
            Err(e) => Err(e),
        }
    }
}

/// Prefix the payload of a successful sequence result; pass errors through.
pub open spec fn prefixed<T, E>(prefix: Seq<T>, r: Result<Seq<T>, E>) -> Result<Seq<T>, E> {
    match r {
        Ok(rest) => Ok(prefix + rest),
        Err(e) => Err(e),
    }
}

/// Model of an exec decode result.
pub open spec fn decoded_model(r: Result<RuntimeValue, BridgeError>) -> Result<
    RuntimeModel,
    ErrorModel,
> {
    match r {
        Ok(v) => Ok(v@),
        Err(e) => Err(e@),
    }
}

/// Model of an exec encode result.
pub open spec fn encoded_model(r: Result<TaggedValue, BridgeError>) -> Result<
    TaggedModel,
    ErrorModel,
> {
    match r {
        Ok(t) => Ok(t@),
        Err(e) => Err(e@),
    }
}

pub(crate) proof fn lemma_skip_step<T>(s: Seq<T>, i: int)
    requires
        0 <= i < s.len(),
    ensures
        s.skip(i).len() == s.len() - i,
        s.skip(i)[0] == s[i],
        s.skip(i).drop_first() == s.skip(i + 1),
{
    assert(s.skip(i).drop_first() =~= s.skip(i + 1));
}

proof fn lemma_lookup_first(s: Seq<(Seq<char>, TaggedModel)>, key: Seq<char>, i: int)
    requires
        0 <= i < s.len(),
        forall|j: int| 0 <= j < i ==> (#[trigger] s[j]).0 != key,
        s[i].0 == key,
    ensures
        lookup(s, key) == Some(s[i].1),
    decreases i,
{
    if i > 0 {
        assert forall|j: int| 0 <= j < i - 1 implies (#[trigger] s.drop_first()[j]).0 != key by {
            assert(s.drop_first()[j] == s[j + 1]);
        };
        assert(s.drop_first()[i - 1] == s[i]);
        lemma_lookup_first(s.drop_first(), key, i - 1);
    }
}

/// Index of the first entry whose key is `key`, if any.
fn lookup_entry(entries: &Vec<(String, TaggedValue)>, key: &String) -> (r: Option<usize>)
    ensures
        match r {
            Some(i) => {
                &&& i < entries@.len()
                &&& entries@[i as int].0@ == key@
                &&& lookup(tagged_entries_model(entries@), key@) == Some(
                    tagged_model(entries@[i as int].1),
                )
            },
            None => lookup(tagged_entries_model(entries@), key@) is None,
        },
{
    let ghost models = tagged_entries_model(entries@);
    let mut j: usize = 0;
    while j < entries.len()
        invariant
            j <= entries@.len(),
            models == tagged_entries_model(entries@),
            forall|k: int| 0 <= k < j ==> (#[trigger] models[k]).0 != key@,
        decreases entries@.len() - j,
    {
        let e = &entries[j];
        if e.0 == *key {
            proof {
                lemma_lookup_first(models, key@, j as int);
            }
            return Some(j);
        }
        j += 1;
    }
    proof {
        lemma_lookup_none(models, key@);
    }
    None
}

/// Decode a caller-supplied dynamic value into the engine's typed value
/// tree. Total over the grammar except for named tags, which fail with
/// `UnsupportedValue`; the exact result is pinned by the `dec` model.
pub fn decode(t: &TaggedValue) -> (r: Result<RuntimeValue, BridgeError>)
    ensures
        decoded_model(r) == dec(t@),
    decreases *t, 0int,
{
    match t {
        TaggedValue::Null => Ok(RuntimeValue::Null),
        TaggedValue::Bool(b) => Ok(RuntimeValue::Bool(*b)),
        TaggedValue::Int(i) => Ok(RuntimeValue::Int(*i)),
        TaggedValue::Float(bits) => Ok(RuntimeValue::Float(*bits)),
        TaggedValue::Str(s) => Ok(RuntimeValue::Str(s.clone())),
        TaggedValue::List(items) => match decode_list(items) {
            Ok(vs) => Ok(RuntimeValue::List(vs)),
            Err(e) => Err(e),
        },
        TaggedValue::Mapping(entries) => decode_mapping(entries),
        TaggedValue::Tag(name, _args) => Err(BridgeError::UnsupportedValue(name.clone())),
    }
}

fn decode_list(items: &Vec<TaggedValue>) -> (r: Result<Vec<RuntimeValue>, BridgeError>)
    ensures
        match r {
            Ok(out) => dec_seq(tagged_seq_model(items@)) == Ok::<_, ErrorModel>(
                runtime_seq_model(out@),
            ),
            Err(e) => dec_seq(tagged_seq_model(items@)) == Err::<Seq<RuntimeModel>, _>(e@),
        },
    decreases *items, 0int,
{
    let ghost models = tagged_seq_model(items@);
    let mut out: Vec<RuntimeValue> = Vec::new();
    let mut i: usize = 0;
    proof {
        assert(models.skip(0) =~= models);
        assert(runtime_seq_model(out@) =~= Seq::<RuntimeModel>::empty());
    }
    while i < items.len()
        invariant
            i <= items@.len(),
            models == tagged_seq_model(items@),
            dec_seq(models) == prefixed(runtime_seq_model(out@), dec_seq(models.skip(i as int))),
        decreases items@.len() - i,
    {
        proof {
            lemma_skip_step(models, i as int);
        }
        let ghost prev = out@;
        match decode(&items[i]) {
            Ok(v) => {
                out.push(v);
                proof {
                    assert(runtime_seq_model(prev.push(v)) =~= runtime_seq_model(prev).push(v@));
                    assert(dec_seq(models.skip(i as int)) == prefixed(
                        seq![v@],
                        dec_seq(models.skip(i + 1)),
                    ));
                    assert forall|rest: Seq<RuntimeModel>|
                        true implies (runtime_seq_model(prev) + (seq![v@] + rest)) == (
                    runtime_seq_model(prev).push(v@) + rest) by {
                        assert(runtime_seq_model(prev) + (seq![v@] + rest) =~= runtime_seq_model(
                            prev,
                        ).push(v@) + rest);
                    };
                }
            },
            Err(e) => {
                return Err(e);
            },
        }
        i += 1;
    }
    proof {
        assert(models.skip(items@.len() as int) =~= Seq::<TaggedModel>::empty());
    }
    Ok(out)
}

fn decode_mapping(entries: &Vec<(String, TaggedValue)>) -> (r: Result<RuntimeValue, BridgeError>)
    ensures
        decoded_model(r) == dec(TaggedModel::Mapping(tagged_entries_model(entries@))),
    decreases *entries, 1int,
{
    let ghost models = tagged_entries_model(entries@);
    let marker = "__baml_class__".to_owned();
    match lookup_entry(entries, &marker) {
        Some(i) => {
            if let TaggedValue::Str(name) = &entries[i].1 {
                assert(class_name_of(models) == Some(name@));
                return match decode_class_fields(entries) {
                    Ok(fields) => Ok(RuntimeValue::Class(name.clone(), fields)),
                    Err(e) => Err(e),
                };
            }
        },
        None => {},
    }
    assert(class_name_of(models) is None);
    if entries.len() == 2 {
        let em = "__baml_enum__".to_owned();
        let vk = "value".to_owned();
        if let Some(i1) = lookup_entry(entries, &em) {
            if let Some(i2) = lookup_entry(entries, &vk) {
                if let TaggedValue::Str(name) = &entries[i1].1 {
                    if let TaggedValue::Str(variant) = &entries[i2].1 {
                        assert(enum_shape_of(models) == Some((name@, variant@)));
                        return Ok(RuntimeValue::Enum(name.clone(), variant.clone()));
                    }
                }
            }
        }
    }
    assert(enum_shape_of(models) is None);
    match decode_entries(entries) {
        Ok(out) => Ok(RuntimeValue::Mapping(out)),
        Err(e) => Err(e),
    }
}

fn decode_entries(entries: &Vec<(String, TaggedValue)>) -> (r: Result<
    Vec<(String, RuntimeValue)>,
    BridgeError,
>)
    ensures
        match r {
            Ok(out) => dec_entries(tagged_entries_model(entries@)) == Ok::<_, ErrorModel>(
                runtime_entries_model(out@),
            ),
            Err(e) => dec_entries(tagged_entries_model(entries@)) == Err::<
                Seq<(Seq<char>, RuntimeModel)>,
                _,
            >(e@),
        },
    decreases *entries, 0int,
{
    let ghost models = tagged_entries_model(entries@);
    let mut out: Vec<(String, RuntimeValue)> = Vec::new();
    let mut i: usize = 0;
    proof {
        assert(models.skip(0) =~= models);
        assert(runtime_entries_model(out@) =~= Seq::<(Seq<char>, RuntimeModel)>::empty());
    }
    while i < entries.len()
        invariant
            i <= entries@.len(),
            models == tagged_entries_model(entries@),
            dec_entries(models) == prefixed(
                runtime_entries_model(out@),
                dec_entries(models.skip(i as int)),
            ),
        decreases entries@.len() - i,
    {
        proof {
            lemma_skip_step(models, i as int);
        }
        let ghost prev = out@;
        let e = &entries[i];
        match decode(&e.1) {
            Ok(v) => {
                let key = e.0.clone();
                out.push((key, v));
                proof {
                    let m = (e.0@, v@);
                    assert(runtime_entries_model(prev.push((e.0, v))) =~= runtime_entries_model(
                        prev,
                    ).push(m));
                    assert(dec_entries(models.skip(i as int)) == prefixed(
                        seq![m],
                        dec_entries(models.skip(i + 1)),
                    ));
                    assert forall|rest: Seq<(Seq<char>, RuntimeModel)>|
                        true implies (runtime_entries_model(prev) + (seq![m] + rest)) == (
                    runtime_entries_model(prev).push(m) + rest) by {
                        assert(runtime_entries_model(prev) + (seq![m] + rest)
                            =~= runtime_entries_model(prev).push(m) + rest);
                    };
                }
            },
            Err(err) => {
                return Err(err);
            },
        }
        i += 1;
    }
    proof {
        assert(models.skip(entries@.len() as int) =~= Seq::<(Seq<char>, TaggedModel)>::empty());
    }
    Ok(out)
}

fn decode_class_fields(entries: &Vec<(String, TaggedValue)>) -> (r: Result<
    Vec<(String, RuntimeValue)>,
    BridgeError,
>)
    ensures
        match r {
            Ok(out) => dec_class_fields(tagged_entries_model(entries@)) == Ok::<_, ErrorModel>(
                runtime_entries_model(out@),
            ),
            Err(e) => dec_class_fields(tagged_entries_model(entries@)) == Err::<
                Seq<(Seq<char>, RuntimeModel)>,
                _,
            >(e@),
        },
    decreases *entries, 0int,
{
    let ghost models = tagged_entries_model(entries@);
    let marker = "__baml_class__".to_owned();
    let mut out: Vec<(String, RuntimeValue)> = Vec::new();
    let mut i: usize = 0;
    proof {
        assert(models.skip(0) =~= models);
        assert(runtime_entries_model(out@) =~= Seq::<(Seq<char>, RuntimeModel)>::empty());
    }
    while i < entries.len()
        invariant
            i <= entries@.len(),
            models == tagged_entries_model(entries@),
            marker@ == class_marker(),
            dec_class_fields(models) == prefixed(
                runtime_entries_model(out@),
                dec_class_fields(models.skip(i as int)),
            ),
        decreases entries@.len() - i,
    {
        proof {
            lemma_skip_step(models, i as int);
        }
        let ghost prev = out@;
        let e = &entries[i];
        if e.0 == marker {
            i += 1;
            continue ;
        }
        match decode(&e.1) {
            Ok(v) => {
                let key = e.0.clone();
                out.push((key, v));
                proof {
                    let m = (e.0@, v@);
                    assert(runtime_entries_model(prev.push((e.0, v))) =~= runtime_entries_model(
                        prev,
                    ).push(m));
                    assert(dec_class_fields(models.skip(i as int)) == prefixed(
                        seq![m],
                        dec_class_fields(models.skip(i + 1)),
                    ));
                    assert forall|rest: Seq<(Seq<char>, RuntimeModel)>|
                        true implies (runtime_entries_model(prev) + (seq![m] + rest)) == (
                    runtime_entries_model(prev).push(m) + rest) by {
                        assert(runtime_entries_model(prev) + (seq![m] + rest)
                            =~= runtime_entries_model(prev).push(m) + rest);
                    };
                }
            },
            Err(err) => {
                return Err(err);
            },
        }
        i += 1;
    }
    proof {
        assert(models.skip(entries@.len() as int) =~= Seq::<(Seq<char>, TaggedModel)>::empty());
    }
    Ok(out)
}

/// Encode an engine value for delivery back to the caller. Total except for
/// `Media`, which fails with `UnsupportedValue`; the exact result is pinned
/// by the `enc` model.
pub fn encode(v: &RuntimeValue) -> (r: Result<TaggedValue, BridgeError>)
    ensures
        encoded_model(r) == enc(v@),
    decreases *v,
{
    match v {
        RuntimeValue::Null => Ok(TaggedValue::Null),
        RuntimeValue::Bool(b) => Ok(TaggedValue::Bool(*b)),
        RuntimeValue::Int(i) => Ok(TaggedValue::Int(*i)),
        RuntimeValue::Float(bits) => Ok(TaggedValue::Float(*bits)),
        RuntimeValue::Str(s) => Ok(TaggedValue::Str(s.clone())),
        RuntimeValue::List(items) => match encode_list(items) {
            Ok(ts) => Ok(TaggedValue::List(ts)),
            Err(e) => Err(e),
        },
        RuntimeValue::Mapping(entries) => {
            let mut out: Vec<(String, TaggedValue)> = Vec::new();
            proof {
                assert(tagged_entries_model(out@) =~= Seq::<(Seq<char>, TaggedModel)>::empty());
            }
            match encode_entries_into(entries, &mut out) {
                Ok(()) => {
                    proof {
                        assert(Seq::<(Seq<char>, TaggedModel)>::empty() + enc_entries(
                            runtime_entries_model(entries@),
                        )->Ok_0 =~= enc_entries(runtime_entries_model(entries@))->Ok_0);
                    }
                    Ok(TaggedValue::Mapping(out))
                },
                Err(e) => Err(e),
            }
        },
        RuntimeValue::Class(name, fields) => {
            let mut out: Vec<(String, TaggedValue)> = Vec::new();
            out.push(("__baml_class__".to_owned(), TaggedValue::Str(name.clone())));
            proof {
                assert(tagged_entries_model(out@) =~= seq![
                    (class_marker(), TaggedModel::Str(name@)),
                ]);
            }
            match encode_entries_into(fields, &mut out) {
                Ok(()) => Ok(TaggedValue::Mapping(out)),
                Err(e) => Err(e),
            }
        },
        RuntimeValue::Enum(name, variant) => {
            let mut out: Vec<(String, TaggedValue)> = Vec::new();
            out.push(("__baml_enum__".to_owned(), TaggedValue::Str(name.clone())));
            out.push(("value".to_owned(), TaggedValue::Str(variant.clone())));
            proof {
                assert(tagged_entries_model(out@) =~= seq![
                    (enum_marker(), TaggedModel::Str(name@)),
                    (variant_key(), TaggedModel::Str(variant@)),
                ]);
            }
            Ok(TaggedValue::Mapping(out))
        },
        RuntimeValue::Media => Err(BridgeError::UnsupportedValue("media".to_owned())),
    }
}

fn encode_list(items: &Vec<RuntimeValue>) -> (r: Result<Vec<TaggedValue>, BridgeError>)
    ensures
        match r {
            Ok(out) => enc_seq(runtime_seq_model(items@)) == Ok::<_, ErrorModel>(
                tagged_seq_model(out@),
            ),
            Err(e) => enc_seq(runtime_seq_model(items@)) == Err::<Seq<TaggedModel>, _>(e@),
        },
    decreases *items,
{
    let ghost models = runtime_seq_model(items@);
    let mut out: Vec<TaggedValue> = Vec::new();
    let mut i: usize = 0;
    proof {
        assert(models.skip(0) =~= models);
        assert(tagged_seq_model(out@) =~= Seq::<TaggedModel>::empty());
    }
    while i < items.len()
        invariant
            i <= items@.len(),
            models == runtime_seq_model(items@),
            enc_seq(models) == prefixed(tagged_seq_model(out@), enc_seq(models.skip(i as int))),
        decreases items@.len() - i,
    {
        proof {
            lemma_skip_step(models, i as int);
        }
        let ghost prev = out@;
        match encode(&items[i]) {
            Ok(t) => {
                out.push(t);
                proof {
                    assert(tagged_seq_model(prev.push(t)) =~= tagged_seq_model(prev).push(t@));
                    assert(enc_seq(models.skip(i as int)) == prefixed(
                        seq![t@],
                        enc_seq(models.skip(i + 1)),
                    ));
                    assert forall|rest: Seq<TaggedModel>|
                        true implies (tagged_seq_model(prev) + (seq![t@] + rest)) == (
                    tagged_seq_model(prev).push(t@) + rest) by {
                        assert(tagged_seq_model(prev) + (seq![t@] + rest) =~= tagged_seq_model(
                            prev,
                        ).push(t@) + rest);
                    };
                }
            },
            Err(e) => {
                return Err(e);
            },
        }
        i += 1;
    }
    proof {
        assert(models.skip(items@.len() as int) =~= Seq::<RuntimeModel>::empty());
    }
    Ok(out)
}

fn encode_entries_into(fields: &Vec<(String, RuntimeValue)>, out: &mut Vec<(String, TaggedValue)>)
    -> (r: Result<(), BridgeError>)
    ensures
        match r {
            Ok(_) => {
                &&& enc_entries(runtime_entries_model(fields@)) is Ok
                &&& tagged_entries_model(final(out)@) == tagged_entries_model(old(out)@)
                    + enc_entries(runtime_entries_model(fields@))->Ok_0
            },
            Err(e) => enc_entries(runtime_entries_model(fields@)) == Err::<
                Seq<(Seq<char>, TaggedModel)>,
                _,
            >(e@),
        },
    decreases *fields,
{
    let ghost models = runtime_entries_model(fields@);
    let ghost base = tagged_entries_model(out@);
    let mut i: usize = 0;
    proof {
        assert(models.skip(0) =~= models);
    }
    while i < fields.len()
        invariant
            i <= fields@.len(),
            models == runtime_entries_model(fields@),
            enc_entries(models) is Ok ==> tagged_entries_model(out@) + enc_entries(
                models.skip(i as int),
            )->Ok_0 == base + enc_entries(models)->Ok_0,
            enc_entries(models.skip(i as int)) is Ok ==> enc_entries(models) is Ok,
            enc_entries(models.skip(i as int)) is Err ==> enc_entries(models) == enc_entries(
                models.skip(i as int),
            ),
        decreases fields@.len() - i,
    {
        proof {
            lemma_skip_step(models, i as int);
        }
        let ghost prev = out@;
        let e = &fields[i];
        match encode(&e.1) {
            Ok(t) => {
                let key = e.0.clone();
                out.push((key, t));
                proof {
                    let m = (e.0@, t@);
                    assert(tagged_entries_model(prev.push((e.0, t))) =~= tagged_entries_model(
                        prev,
                    ).push(m));
                    assert(enc_entries(models.skip(i as int)) == prefixed(
                        seq![m],
                        enc_entries(models.skip(i + 1)),
                    ));
                    if enc_entries(models) is Ok {
                        assert(tagged_entries_model(prev).push(m) + enc_entries(
                            models.skip(i + 1),
                        )->Ok_0 =~= tagged_entries_model(prev) + enc_entries(
                            models.skip(i as int),
                        )->Ok_0);
                    }
                }
            },
            Err(err) => {
                return Err(err);
            },
        }
        i += 1;
    }
    proof {
        assert(models.skip(fields@.len() as int) =~= Seq::<(Seq<char>, RuntimeModel)>::empty());
        assert(tagged_entries_model(out@) + Seq::<(Seq<char>, TaggedModel)>::empty()
            =~= tagged_entries_model(out@));
    }
    Ok(())
}

/// What `decode_arguments` returns: call arguments must arrive as a map,
/// and its entries decode in order, as for any plain map.
pub open spec fn dec_arguments(t: TaggedModel) -> Result<
    Seq<(Seq<char>, RuntimeModel)>,
    ErrorModel,
> {
    match t {
        TaggedModel::Mapping(entries) => dec_entries(entries),
        _ => Err(ErrorModel::InvalidShape("map"@, crate::value::shape_name(t))),
    }
}

/// Model of an exec argument-decoding result.
pub open spec fn arguments_model(r: Result<Vec<(String, RuntimeValue)>, BridgeError>) -> Result<
    Seq<(Seq<char>, RuntimeModel)>,
    ErrorModel,
> {
    match r {
        Ok(out) => Ok(runtime_entries_model(out@)),
        Err(e) => Err(e@),
    }
}

/// Decode a call's argument map into named parameters for the engine. The
/// arguments must be a map; each entry's value decodes like any other
/// caller-supplied value, in order, and the map itself is taken plain —
/// reserved markers have no meaning on the argument map itself.
pub fn decode_arguments(args: &TaggedValue) -> (r: Result<
    Vec<(String, RuntimeValue)>,
    BridgeError,
>)
    ensures
        arguments_model(r) == dec_arguments(args@),
{
    match args {
        TaggedValue::Mapping(entries) => decode_entries(entries),
        _ => Err(
            BridgeError::InvalidShape("map".to_owned(), crate::value::shape_of(args)),
        ),
    }
}

/// The two kinds of result a streaming call delivers: an intermediate
/// partial snapshot, or the final result.
#[derive(Clone, Copy, PartialEq, Eq, Structural, Debug)]
pub enum StreamPhase {
    Partial,
    Done,
}

/// What to do with one streaming result once its conversion for delivery
/// has succeeded or failed.
#[derive(Clone, Copy, PartialEq, Eq, Structural, Debug)]
pub enum StreamAction {
    Deliver,
    Discard,
    Surface,
}

/// The one documented suppression: a partial result whose conversion fails —
/// typically because the snapshot is structurally incomplete — is silently
/// discarded, since a later partial or the final result supersedes it. A
/// conversion failure on the final result is never suppressed.
pub fn stream_result_action(phase: StreamPhase, converted: bool) -> (r: StreamAction)
    ensures
        r == StreamAction::Deliver <==> converted,
        r == StreamAction::Discard <==> !converted && phase == StreamPhase::Partial,
        r == StreamAction::Surface <==> !converted && phase == StreamPhase::Done,
{
    if converted {
        StreamAction::Deliver
    } else if phase == StreamPhase::Partial {
        StreamAction::Discard
    } else {
        StreamAction::Surface
    }
}

/// A dynamic value is tag-free when no named tag occurs anywhere in it.
/// These are exactly the values `decode` accepts.
pub open spec fn tag_free(t: TaggedModel) -> bool
    decreases t,
{
    match t {
        TaggedModel::Null => true,
        TaggedModel::Bool(_) => true,
        TaggedModel::Int(_) => true,
        TaggedModel::Float(_) => true,
        TaggedModel::Str(_) => true,
        TaggedModel::List(items) => forall|i: int|
            0 <= i < items.len() ==> tag_free(#[trigger] items[i]),
        TaggedModel::Mapping(entries) => forall|i: int|
            0 <= i < entries.len() ==> tag_free(#[trigger] entries[i].1),
        TaggedModel::Tag(_, _) => false,
    }
}

/// A runtime value is media-free when no `Media` occurs anywhere in it.
/// These are exactly the values `encode` accepts.
pub open spec fn media_free(v: RuntimeModel) -> bool
    decreases v,
{
    match v {
        RuntimeModel::Null => true,
        RuntimeModel::Bool(_) => true,
        RuntimeModel::Int(_) => true,
        RuntimeModel::Float(_) => true,
        RuntimeModel::Str(_) => true,
        RuntimeModel::List(items) => forall|i: int|
            0 <= i < items.len() ==> media_free(#[trigger] items[i]),
        RuntimeModel::Mapping(entries) => forall|i: int|
            0 <= i < entries.len() ==> media_free(#[trigger] entries[i].1),
        RuntimeModel::Class(_, fields) => forall|i: int|
            0 <= i < fields.len() ==> media_free(#[trigger] fields[i].1),
        RuntimeModel::Enum(_, _) => true,
        RuntimeModel::Media => false,
    }
}

/// Well-formed runtime values: media-free, plain-map keys stay out of the
/// reserved marker namespace, and class field names stay clear of the class
/// marker. The round-trip law holds of exactly these values.
pub open spec fn wf_runtime(v: RuntimeModel) -> bool
    decreases v,
{
    match v {
        RuntimeModel::Null => true,
        RuntimeModel::Bool(_) => true,
        RuntimeModel::Int(_) => true,
        RuntimeModel::Float(_) => true,
        RuntimeModel::Str(_) => true,
        RuntimeModel::List(items) => forall|i: int|
            0 <= i < items.len() ==> wf_runtime(#[trigger] items[i]),
        RuntimeModel::Mapping(entries) => forall|i: int|
            0 <= i < entries.len() ==> {
                &&& (#[trigger] entries[i]).0 != class_marker()
                &&& entries[i].0 != enum_marker()
                &&& wf_runtime(entries[i].1)
            },
        RuntimeModel::Class(_, fields) => forall|i: int|
            0 <= i < fields.len() ==> {
                &&& (#[trigger] fields[i]).0 != class_marker()
                &&& wf_runtime(fields[i].1)
            },
        RuntimeModel::Enum(_, _) => true,
        RuntimeModel::Media => false,
    }
}

proof fn lemma_lookup_none(s: Seq<(Seq<char>, TaggedModel)>, key: Seq<char>)
    requires
        forall|i: int| 0 <= i < s.len() ==> (#[trigger] s[i]).0 != key,
    ensures
        lookup(s, key) is None,
    decreases s,
{
    if s.len() > 0 {
        assert(forall|i: int|
            0 <= i < s.drop_first().len() ==> (#[trigger] s.drop_first()[i]).0 != key);
        lemma_lookup_none(s.drop_first(), key);
    }
}

proof fn lemma_dec_class_fields_no_marker(s: Seq<(Seq<char>, TaggedModel)>)
    requires
        forall|i: int| 0 <= i < s.len() ==> (#[trigger] s[i]).0 != class_marker(),
    ensures
        dec_class_fields(s) == dec_entries(s),
    decreases s,
{
    if s.len() > 0 {
        assert(forall|i: int|
            0 <= i < s.drop_first().len() ==> (#[trigger] s.drop_first()[i]).0 != class_marker());
        lemma_dec_class_fields_no_marker(s.drop_first());
    }
}

/// Round-trip law: decoding the encoding of any well-formed runtime value
/// gives that value back, for every media-free value whose plain-map keys and
/// class field names stay out of the reserved marker namespace.
pub proof fn lemma_round_trip(v: RuntimeModel)
    requires
        wf_runtime(v),
    ensures
        enc(v) is Ok,
        dec(enc(v)->Ok_0) == Ok::<RuntimeModel, ErrorModel>(v),
    decreases v,
{
    reveal_strlit("__baml_class__");
    reveal_strlit("__baml_enum__");
    reveal_strlit("value");
    match v {
        RuntimeModel::List(items) => {
            lemma_round_trip_seq(items);
        },
        RuntimeModel::Mapping(entries) => {
            lemma_round_trip_entries(entries);
            let es = enc_entries(entries)->Ok_0;
            assert(forall|i: int| 0 <= i < es.len() ==> (#[trigger] es[i]).0 != class_marker());
            assert(forall|i: int| 0 <= i < es.len() ==> (#[trigger] es[i]).0 != enum_marker());
            lemma_lookup_none(es, class_marker());
            lemma_lookup_none(es, enum_marker());
        },
        RuntimeModel::Class(name, fields) => {
            lemma_round_trip_entries(fields);
            let es = enc_entries(fields)->Ok_0;
            let full = seq![(class_marker(), TaggedModel::Str(name))] + es;
            assert(full[0].0 == class_marker());
            assert(full.drop_first() =~= es);
            assert(forall|i: int| 0 <= i < es.len() ==> (#[trigger] es[i]).0 != class_marker());
            lemma_dec_class_fields_no_marker(es);
        },
        RuntimeModel::Enum(name, variant) => {
            reveal_with_fuel(lookup, 4);
            let full = seq![
                (enum_marker(), TaggedModel::Str(name)),
                (variant_key(), TaggedModel::Str(variant)),
            ];
            assert(full.len() == 2);
            assert(full[0] == (enum_marker(), TaggedModel::Str(name)));
            assert(full[1] == (variant_key(), TaggedModel::Str(variant)));
            assert(class_marker().len() == 14);
            assert(enum_marker().len() == 13);
            assert(variant_key().len() == 5);
            assert(class_marker() != enum_marker());
            assert(class_marker() != variant_key());
            assert(enum_marker() != variant_key());
            assert(full.drop_first() =~= seq![(variant_key(), TaggedModel::Str(variant))]);
            assert(full.drop_first()[0] == (variant_key(), TaggedModel::Str(variant)));
            assert(full.drop_first().drop_first() =~= Seq::<(Seq<char>, TaggedModel)>::empty());
            assert(lookup(full, class_marker()) is None);
            assert(lookup(full, enum_marker()) == Some(TaggedModel::Str(name)));
            assert(lookup(full, variant_key()) == Some(TaggedModel::Str(variant)));
            assert(enum_shape_of(full) == Some((name, variant)));
        },
        _ => {},
    }
}

proof fn lemma_round_trip_seq(s: Seq<RuntimeModel>)
    requires
        forall|i: int| 0 <= i < s.len() ==> wf_runtime(#[trigger] s[i]),
    ensures
        enc_seq(s) is Ok,
        dec_seq(enc_seq(s)->Ok_0) == Ok::<Seq<RuntimeModel>, ErrorModel>(s),
    decreases s,
{
    if s.len() > 0 {
        assert(wf_runtime(s[0]));
        lemma_round_trip(s[0]);
        assert forall|i: int| 0 <= i < s.drop_first().len() implies wf_runtime(
            #[trigger] s.drop_first()[i],
        ) by {
            assert(s.drop_first()[i] == s[i + 1]);
        };
        lemma_round_trip_seq(s.drop_first());
        let t0 = enc(s[0])->Ok_0;
        let ts = enc_seq(s.drop_first())->Ok_0;
        let full = seq![t0] + ts;
        assert(enc_seq(s) == Ok::<Seq<TaggedModel>, ErrorModel>(full));
        assert(full.len() > 0);
        assert(full[0] == t0);
        assert(full.drop_first() =~= ts);
        assert(dec(full[0]) == Ok::<RuntimeModel, ErrorModel>(s[0]));
        assert(dec_seq(full.drop_first()) == Ok::<Seq<RuntimeModel>, ErrorModel>(s.drop_first()));
        assert(dec_seq(full) == Ok::<Seq<RuntimeModel>, ErrorModel>(seq![s[0]] + s.drop_first()));
        assert(seq![s[0]] + s.drop_first() =~= s);
    } else {
        assert(s =~= Seq::<RuntimeModel>::empty());
        assert(enc_seq(s)->Ok_0 =~= Seq::<TaggedModel>::empty());
    }
}

proof fn lemma_round_trip_entries(s: Seq<(Seq<char>, RuntimeModel)>)
    requires
        forall|i: int| 0 <= i < s.len() ==> wf_runtime((#[trigger] s[i]).1),
    ensures
        enc_entries(s) is Ok,
        enc_entries(s)->Ok_0.len() == s.len(),
        forall|i: int|
            0 <= i < s.len() ==> (#[trigger] enc_entries(s)->Ok_0[i]).0 == s[i].0,
        dec_entries(enc_entries(s)->Ok_0) == Ok::<Seq<(Seq<char>, RuntimeModel)>, ErrorModel>(s),
    decreases s,
{
    if s.len() > 0 {
        assert(wf_runtime(s[0].1));
        lemma_round_trip(s[0].1);
        assert forall|i: int| 0 <= i < s.drop_first().len() implies wf_runtime(
            (#[trigger] s.drop_first()[i]).1,
        ) by {
            assert(s.drop_first()[i] == s[i + 1]);
        };
        lemma_round_trip_entries(s.drop_first());
        let t0 = (s[0].0, enc(s[0].1)->Ok_0);
        let ts = enc_entries(s.drop_first())->Ok_0;
        let full = seq![t0] + ts;
        assert(enc_entries(s) == Ok::<Seq<(Seq<char>, TaggedModel)>, ErrorModel>(full));
        assert(full.len() > 0);
        assert(full[0] == t0);
        assert(full.drop_first() =~= ts);
        assert(dec(full[0].1) == Ok::<RuntimeModel, ErrorModel>(s[0].1));
        assert(dec_entries(full.drop_first()) == Ok::<Seq<(Seq<char>, RuntimeModel)>, ErrorModel>(
            s.drop_first(),
        ));
        assert(dec_entries(full) == Ok::<Seq<(Seq<char>, RuntimeModel)>, ErrorModel>(
            seq![(full[0].0, s[0].1)] + s.drop_first(),
        ));
        assert(seq![(full[0].0, s[0].1)] + s.drop_first() =~= s);
        assert forall|i: int| 0 <= i < s.len() implies (#[trigger] full[i]).0 == s[i].0 by {
            if i >= 1 {
                assert(full[i] == ts[i - 1]);
                assert(s.drop_first()[i - 1] == s[i]);
            }
        };
    } else {
        assert(s =~= Seq::<(Seq<char>, RuntimeModel)>::empty());
        assert(enc_entries(s)->Ok_0 =~= Seq::<(Seq<char>, TaggedModel)>::empty());
    }
}

/// Totality law, success direction: `decode` succeeds on every tag-free
/// dynamic value.
pub proof fn lemma_decode_total(t: TaggedModel)
    requires
        tag_free(t),
    ensures
        dec(t) is Ok,
    decreases t,
{
    match t {
        TaggedModel::List(items) => {
            lemma_dec_seq_total(items);
        },
        TaggedModel::Mapping(entries) => {
            lemma_dec_entries_total(entries);
            lemma_dec_class_fields_total(entries);
        },
        _ => {},
    }
}

proof fn lemma_dec_seq_total(s: Seq<TaggedModel>)
    requires
        forall|i: int| 0 <= i < s.len() ==> tag_free(#[trigger] s[i]),
    ensures
        dec_seq(s) is Ok,
    decreases s,
{
    if s.len() > 0 {
        lemma_decode_total(s[0]);
        assert(forall|i: int| 0 <= i < s.drop_first().len() ==> tag_free(#[trigger] s.drop_first()[i]));
        lemma_dec_seq_total(s.drop_first());
    }
}

proof fn lemma_dec_entries_total(s: Seq<(Seq<char>, TaggedModel)>)
    requires
        forall|i: int| 0 <= i < s.len() ==> tag_free((#[trigger] s[i]).1),
    ensures
        dec_entries(s) is Ok,
    decreases s,
{
    if s.len() > 0 {
        lemma_decode_total(s[0].1);
        assert(forall|i: int|
            0 <= i < s.drop_first().len() ==> tag_free((#[trigger] s.drop_first()[i]).1));
        lemma_dec_entries_total(s.drop_first());
    }
}

proof fn lemma_dec_class_fields_total(s: Seq<(Seq<char>, TaggedModel)>)
    requires
        forall|i: int| 0 <= i < s.len() ==> tag_free((#[trigger] s[i]).1),
    ensures
        dec_class_fields(s) is Ok,
    decreases s,
{
    if s.len() > 0 {
        lemma_decode_total(s[0].1);
        assert(forall|i: int|
            0 <= i < s.drop_first().len() ==> tag_free((#[trigger] s.drop_first()[i]).1));
        lemma_dec_class_fields_total(s.drop_first());
    }
}

/// Totality law, rejection direction: when `decode` fails, the failure is
/// always the one documented arm, `UnsupportedValue`.
pub proof fn lemma_decode_error_is_unsupported(t: TaggedModel)
    requires
        dec(t) is Err,
    ensures
        dec(t)->Err_0 is UnsupportedValue,
    decreases t,
{
    match t {
        TaggedModel::List(items) => {
            lemma_dec_seq_error_is_unsupported(items);
        },
        TaggedModel::Mapping(entries) => {
            if class_name_of(entries) is Some {
                lemma_dec_class_fields_error_is_unsupported(entries);
            } else if enum_shape_of(entries) is Some {
            } else {
                lemma_dec_entries_error_is_unsupported(entries);
            }
        },
        _ => {},
    }
}

proof fn lemma_dec_seq_error_is_unsupported(s: Seq<TaggedModel>)
    requires
        dec_seq(s) is Err,
    ensures
        dec_seq(s)->Err_0 is UnsupportedValue,
    decreases s,
{
    if s.len() > 0 {
        if dec(s[0]) is Err {
            lemma_decode_error_is_unsupported(s[0]);
        } else {
            lemma_dec_seq_error_is_unsupported(s.drop_first());
        }
    }
}

proof fn lemma_dec_entries_error_is_unsupported(s: Seq<(Seq<char>, TaggedModel)>)
    requires
        dec_entries(s) is Err,
    ensures
        dec_entries(s)->Err_0 is UnsupportedValue,
    decreases s,
{
    if s.len() > 0 {
        if dec(s[0].1) is Err {
            lemma_decode_error_is_unsupported(s[0].1);
        } else {
            lemma_dec_entries_error_is_unsupported(s.drop_first());
        }
    }
}

proof fn lemma_dec_class_fields_error_is_unsupported(s: Seq<(Seq<char>, TaggedModel)>)
    requires
        dec_class_fields(s) is Err,
    ensures
        dec_class_fields(s)->Err_0 is UnsupportedValue,
    decreases s,
{
    if s.len() > 0 {
        if s[0].0 == class_marker() {
            lemma_dec_class_fields_error_is_unsupported(s.drop_first());
        } else if dec(s[0].1) is Err {
            lemma_decode_error_is_unsupported(s[0].1);
        } else {
            lemma_dec_class_fields_error_is_unsupported(s.drop_first());
        }
    }
}

/// Totality law for `encode`: it succeeds on exactly the media-free values.
pub proof fn lemma_encode_total(v: RuntimeModel)
    ensures
        enc(v) is Ok <==> media_free(v),
    decreases v,
{
    match v {
        RuntimeModel::List(items) => {
            lemma_enc_seq_total(items);
        },
        RuntimeModel::Mapping(entries) => {
            lemma_enc_entries_total(entries);
        },
        RuntimeModel::Class(_, fields) => {
            lemma_enc_entries_total(fields);
        },
        _ => {},
    }
}

proof fn lemma_enc_seq_total(s: Seq<RuntimeModel>)
    ensures
        enc_seq(s) is Ok <==> forall|i: int| 0 <= i < s.len() ==> media_free(#[trigger] s[i]),
    decreases s,
{
    if s.len() > 0 {
        lemma_encode_total(s[0]);
        lemma_enc_seq_total(s.drop_first());
        if enc_seq(s) is Ok {
            assert forall|i: int| 0 <= i < s.len() implies media_free(#[trigger] s[i]) by {
                if i >= 1 {
                    assert(media_free(s.drop_first()[i - 1]));
                    assert(s.drop_first()[i - 1] == s[i]);
                }
            };
        } else {
            if forall|i: int| 0 <= i < s.len() ==> media_free(#[trigger] s[i]) {
                assert(media_free(s[0]));
                assert forall|i: int| 0 <= i < s.drop_first().len() implies media_free(
                    #[trigger] s.drop_first()[i],
                ) by {
                    assert(s.drop_first()[i] == s[i + 1]);
                    assert(media_free(s[i + 1]));
                };
                assert(enc_seq(s) is Ok);
            }
        }
    }
}

proof fn lemma_enc_entries_total(s: Seq<(Seq<char>, RuntimeModel)>)
    ensures
        enc_entries(s) is Ok <==> forall|i: int|
            0 <= i < s.len() ==> media_free((#[trigger] s[i]).1),
    decreases s,
{
    if s.len() > 0 {
        lemma_encode_total(s[0].1);
        lemma_enc_entries_total(s.drop_first());
        if enc_entries(s) is Ok {
            assert forall|i: int| 0 <= i < s.len() implies media_free((#[trigger] s[i]).1) by {
                if i >= 1 {
                    assert(media_free(s.drop_first()[i - 1].1));
                    assert(s.drop_first()[i - 1] == s[i]);
                }
            };
        } else {
            if forall|i: int| 0 <= i < s.len() ==> media_free((#[trigger] s[i]).1) {
                assert(media_free(s[0].1));
                assert forall|i: int| 0 <= i < s.drop_first().len() implies media_free(
                    (#[trigger] s.drop_first()[i]).1,
                ) by {
                    assert(s.drop_first()[i] == s[i + 1]);
                    assert(media_free(s[i + 1].1));
                };
                assert(enc_entries(s) is Ok);
            }
        }
    }
}

} // verus!
