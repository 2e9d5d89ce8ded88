//! The per-call schema registry: two independent, name-indexed namespaces of
//! class and enum definitions, populated by the declaration parser before a
//! call is dispatched and read by the engine afterwards.
//!
//! Every operation is idempotent by name: upserting a present name hands back
//! the existing entry's handle instead of creating a duplicate. A handle is a
//! plain index into the registry, valid for the registry it came from.
//! Rust's ownership discipline gives the construction phase exclusive access,
//! so no locking is needed around per-entry mutation here.

use vstd::prelude::*;

use crate::type_expr::{TypeExprModel, TypeExpression};

verus! {

broadcast use
    vstd::std_specs::vec::group_vec_axioms,
    vstd::string::group_string_axioms;

/// One declared field of a class: a name, the field's type once set, and an
/// optional caller-facing description.
#[derive(Debug, PartialEq)]
pub struct FieldDefinition {
    pub name: String,
    pub ty: Option<TypeExpression>,
    pub description: Option<String>,
}

/// Mathematical model of a `FieldDefinition`.
#[verifier::ext_equal]
pub struct FieldModel {
    pub name: Seq<char>,
    pub ty: Option<TypeExprModel>,
    pub description: Option<Seq<char>>,
}

impl View for FieldDefinition {
    type V = FieldModel;

    open spec fn view(&self) -> FieldModel {
        FieldModel {
            name: self.name@,
            ty: match self.ty {
                Some(t) => Some(t@),
                None => None,
            },
            description: match self.description {
                Some(d) => Some(d@),
                None => None,
            },
        }
    }
}

/// A class definition: a registry-unique name and its fields, in declaration
/// order.
#[derive(Debug, PartialEq)]
pub struct ClassDefinition {
    pub name: String,
    pub fields: Vec<FieldDefinition>,
}

/// Mathematical model of a `ClassDefinition`.
#[verifier::ext_equal]
pub struct ClassModel {
    pub name: Seq<char>,
    pub fields: Seq<FieldModel>,
}

impl View for ClassDefinition {
    type V = ClassModel;

    open spec fn view(&self) -> ClassModel {
        ClassModel { name: self.name@, fields: Seq::new(self.fields@.len(), |i: int| self.fields@[i]@) }
    }
}

/// One declared value of an enum, with an optional description.
#[derive(Debug, PartialEq)]
pub struct EnumValueDefinition {
    pub name: String,
    pub description: Option<String>,
}

/// Mathematical model of an `EnumValueDefinition`.
#[verifier::ext_equal]
pub struct EnumValueModel {
    pub name: Seq<char>,
    pub description: Option<Seq<char>>,
}

impl View for EnumValueDefinition {
    type V = EnumValueModel;

    open spec fn view(&self) -> EnumValueModel {
        EnumValueModel {
            name: self.name@,
            description: match self.description {
                Some(d) => Some(d@),
                None => None,
            },
        }
    }
}

/// An enum definition: a registry-unique name and its values, in declaration
/// order.
#[derive(Debug, PartialEq)]
pub struct EnumDefinition {
    pub name: String,
    pub values: Vec<EnumValueDefinition>,
}

/// Mathematical model of an `EnumDefinition`.
#[verifier::ext_equal]
pub struct EnumModel {
    pub name: Seq<char>,
    pub values: Seq<EnumValueModel>,
}

impl View for EnumDefinition {
    type V = EnumModel;

    open spec fn view(&self) -> EnumModel {
        EnumModel { name: self.name@, values: Seq::new(self.values@.len(), |i: int| self.values@[i]@) }
    }
}

/// The registry itself: class and enum namespaces are independent, so one
/// name may appear in both without conflict.
#[derive(Debug, PartialEq)]
pub struct SchemaRegistry {
    pub classes: Vec<ClassDefinition>,
    pub enums: Vec<EnumDefinition>,
}

/// Mathematical model of a `SchemaRegistry`.
#[verifier::ext_equal]
pub struct RegistryModel {
    pub classes: Seq<ClassModel>,
    pub enums: Seq<EnumModel>,
}

impl View for SchemaRegistry {
    type V = RegistryModel;

    open spec fn view(&self) -> RegistryModel {
        RegistryModel {
            classes: Seq::new(self.classes@.len(), |i: int| self.classes@[i]@),
            enums: Seq::new(self.enums@.len(), |i: int| self.enums@[i]@),
        }
    }
}

/// Handle to a class entry: its index in the class namespace.
#[derive(Clone, Copy, Debug)]
pub struct ClassHandle {
    pub idx: usize,
}

impl View for ClassHandle {
    type V = int;

    open spec fn view(&self) -> int {
        self.idx as int
    }
}

/// Handle to one field of a class.
#[derive(Clone, Copy, Debug)]
pub struct FieldHandle {
    pub class: usize,
    pub field: usize,
}

impl View for FieldHandle {
    type V = (int, int);

    open spec fn view(&self) -> (int, int) {
        (self.class as int, self.field as int)
    }
}

/// Handle to an enum entry: its index in the enum namespace.
#[derive(Clone, Copy, Debug)]
pub struct EnumHandle {
    pub idx: usize,
}

impl View for EnumHandle {
    type V = int;

    open spec fn view(&self) -> int {
        self.idx as int
    }
}

/// Handle to one value of an enum.
#[derive(Clone, Copy, Debug)]
pub struct ValueHandle {
    pub enum_idx: usize,
    pub value: usize,
}

impl View for ValueHandle {
    type V = (int, int);

    open spec fn view(&self) -> (int, int) {
        (self.enum_idx as int, self.value as int)
    }
}

/// Index of the first occurrence of `name` in `names`, if any.
pub open spec fn find_name(names: Seq<Seq<char>>, name: Seq<char>) -> Option<int>
    decreases names,
{
    if names.len() == 0 {
        None
    } else if names[0] == name {
        Some(0)
    } else {
        match find_name(names.drop_first(), name) {
            Some(i) => Some(i + 1),
            None => None,
        }
    }
}

/// The class names of a registry, in order.
pub open spec fn class_names(classes: Seq<ClassModel>) -> Seq<Seq<char>> {
    Seq::new(classes.len(), |i: int| classes[i].name)
}

/// The field names of a class, in order.
pub open spec fn field_names(fields: Seq<FieldModel>) -> Seq<Seq<char>> {
    Seq::new(fields.len(), |i: int| fields[i].name)
}

/// The enum names of a registry, in order.
pub open spec fn enum_names(enums: Seq<EnumModel>) -> Seq<Seq<char>> {
    Seq::new(enums.len(), |i: int| enums[i].name)
}

/// The value names of an enum, in order.
pub open spec fn value_names(values: Seq<EnumValueModel>) -> Seq<Seq<char>> {
    Seq::new(values.len(), |i: int| values[i].name)
}

/// `find_name` finds a first occurrence: nothing before it matches.
pub proof fn lemma_find_name_props(names: Seq<Seq<char>>, name: Seq<char>)
    ensures
        match find_name(names, name) {
            Some(i) => {
                &&& 0 <= i < names.len()
                &&& names[i] == name
                &&& forall|j: int| 0 <= j < i ==> names[j] != name
            },
            None => forall|j: int| 0 <= j < names.len() ==> names[j] != name,
        },
    decreases names,
{
    if names.len() > 0 && names[0] != name {
        lemma_find_name_props(names.drop_first(), name);
        match find_name(names.drop_first(), name) {
            Some(i2) => {
                assert(names.drop_first()[i2] == names[i2 + 1]);
                assert forall|j: int| 0 <= j < i2 + 1 implies names[j] != name by {
                    if j > 0 {
                        assert(names.drop_first()[j - 1] == names[j]);
                    }
                };
            },
            None => {
                assert forall|j: int| 0 <= j < names.len() implies names[j] != name by {
                    if j > 0 {
                        assert(names.drop_first()[j - 1] == names[j]);
                    }
                };
            },
        }
    }
}

/// The first-occurrence characterization determines `find_name`.
pub proof fn lemma_find_name_at(names: Seq<Seq<char>>, name: Seq<char>, i: int)
    requires
        0 <= i < names.len(),
        names[i] == name,
        forall|j: int| 0 <= j < i ==> names[j] != name,
    ensures
        find_name(names, name) == Some(i),
    decreases i,
{
    if i > 0 {
        assert(names.drop_first()[i - 1] == names[i]);
        assert forall|j: int| 0 <= j < i - 1 implies names.drop_first()[j] != name by {
            assert(names.drop_first()[j] == names[j + 1]);
        };
        lemma_find_name_at(names.drop_first(), name, i - 1);
    }
}

/// A name that occurs nowhere is not found.
pub proof fn lemma_find_name_none(names: Seq<Seq<char>>, name: Seq<char>)
    requires
        forall|j: int| 0 <= j < names.len() ==> names[j] != name,
    ensures
        find_name(names, name) is None,
    decreases names,
{
    if names.len() > 0 {
        assert forall|j: int| 0 <= j < names.drop_first().len() implies names.drop_first()[j]
            != name by {
            assert(names.drop_first()[j] == names[j + 1]);
        };
        lemma_find_name_none(names.drop_first(), name);
    }
}

/// Pushing a fresh name makes it findable at the old length.
pub proof fn lemma_find_name_push_self(names: Seq<Seq<char>>, name: Seq<char>)
    requires
        find_name(names, name) is None,
    ensures
        find_name(names.push(name), name) == Some(names.len() as int),
{
    lemma_find_name_props(names, name);
    assert forall|j: int| 0 <= j < names.len() implies names.push(name)[j] != name by {
        assert(names.push(name)[j] == names[j]);
    };
    lemma_find_name_at(names.push(name), name, names.len() as int);
}

/// Pushing another name does not move a name already found.
pub proof fn lemma_find_name_extend(names: Seq<Seq<char>>, name: Seq<char>, other: Seq<char>)
    requires
        find_name(names, name) is Some,
    ensures
        find_name(names.push(other), name) == find_name(names, name),
{
    lemma_find_name_props(names, name);
    let i = find_name(names, name)->Some_0;
    assert(names.push(other)[i] == names[i]);
    assert forall|j: int| 0 <= j < i implies names.push(other)[j] != name by {
        assert(names.push(other)[j] == names[j]);
    };
    lemma_find_name_at(names.push(other), name, i);
}

/// What `upsert_class` does, stated over the models: hand back the existing
/// entry's index, or append a fresh, empty class.
pub open spec fn spec_upsert_class(reg: RegistryModel, name: Seq<char>) -> (RegistryModel, int) {
    match find_name(class_names(reg.classes), name) {
        Some(i) => (reg, i),
        None => (
            RegistryModel {
                classes: reg.classes.push(ClassModel { name, fields: Seq::empty() }),
                enums: reg.enums,
            },
            reg.classes.len() as int,
        ),
    }
}

/// What `upsert_property` does: hand back the existing field's index within
/// the class, or append a fresh field with no type and no description.
pub open spec fn spec_upsert_property(reg: RegistryModel, c: int, name: Seq<char>) -> (
    RegistryModel,
    int,
)
    recommends
        0 <= c < reg.classes.len(),
{
    let cls = reg.classes[c];
    match find_name(field_names(cls.fields), name) {
        Some(i) => (reg, i),
        None => (
            RegistryModel {
                classes: reg.classes.update(
                    c,
                    ClassModel {
                        name: cls.name,
                        fields: cls.fields.push(
                            FieldModel { name, ty: None, description: None },
                        ),
                    },
                ),
                enums: reg.enums,
            },
            cls.fields.len() as int,
        ),
    }
}

/// What `set_type` does: replace the field's type, touching nothing else.
pub open spec fn spec_set_type(reg: RegistryModel, c: int, f: int, t: TypeExprModel) -> RegistryModel
    recommends
        0 <= c < reg.classes.len(),
        0 <= f < reg.classes[c].fields.len(),
{
    let cls = reg.classes[c];
    let fld = cls.fields[f];
    RegistryModel {
        classes: reg.classes.update(
            c,
            ClassModel {
                name: cls.name,
                fields: cls.fields.update(
                    f,
                    FieldModel { name: fld.name, ty: Some(t), description: fld.description },
                ),
            },
        ),
        enums: reg.enums,
    }
}

/// What `set_description` does: replace the field's description.
pub open spec fn spec_set_description(reg: RegistryModel, c: int, f: int, d: Seq<char>) -> RegistryModel
    recommends
        0 <= c < reg.classes.len(),
        0 <= f < reg.classes[c].fields.len(),
{
    let cls = reg.classes[c];
    let fld = cls.fields[f];
    RegistryModel {
        classes: reg.classes.update(
            c,
            ClassModel {
                name: cls.name,
                fields: cls.fields.update(
                    f,
                    FieldModel { name: fld.name, ty: fld.ty, description: Some(d) },
                ),
            },
        ),
        enums: reg.enums,
    }
}

/// What `upsert_enum` does: hand back the existing entry's index, or append
/// a fresh, empty enum.
pub open spec fn spec_upsert_enum(reg: RegistryModel, name: Seq<char>) -> (RegistryModel, int) {
    match find_name(enum_names(reg.enums), name) {
        Some(i) => (reg, i),
        None => (
            RegistryModel {
                classes: reg.classes,
                enums: reg.enums.push(EnumModel { name, values: Seq::empty() }),
            },
            reg.enums.len() as int,
        ),
    }
}

/// What `upsert_value` does: hand back the existing value's index within the
/// enum, or append a fresh value with no description.
pub open spec fn spec_upsert_value(reg: RegistryModel, e: int, name: Seq<char>) -> (
    RegistryModel,
    int,
)
    recommends
        0 <= e < reg.enums.len(),
{
    let en = reg.enums[e];
    match find_name(value_names(en.values), name) {
        Some(i) => (reg, i),
        None => (
            RegistryModel {
                classes: reg.classes,
                enums: reg.enums.update(
                    e,
                    EnumModel {
                        name: en.name,
                        values: en.values.push(EnumValueModel { name, description: None }),
                    },
                ),
            },
            en.values.len() as int,
        ),
    }
}

/// What `set_value_description` does: replace the enum value's description.
pub open spec fn spec_set_value_description(reg: RegistryModel, e: int, v: int, d: Seq<char>) -> RegistryModel
    recommends
        0 <= e < reg.enums.len(),
        0 <= v < reg.enums[e].values.len(),
{
    let en = reg.enums[e];
    let val = en.values[v];
    RegistryModel {
        classes: reg.classes,
        enums: reg.enums.update(
            e,
            EnumModel {
                name: en.name,
                values: en.values.update(v, EnumValueModel { name: val.name, description: Some(d) }),
            },
        ),
    }
}


/// Idempotent upsert law: upserting a class name that is already present
/// hands back the same entry's handle and leaves the registry unchanged, so
/// two upserts of one name never create two entries.
pub proof fn lemma_upsert_class_idempotent(reg: RegistryModel, name: Seq<char>)
    ensures
        spec_upsert_class(spec_upsert_class(reg, name).0, name) == (
            spec_upsert_class(reg, name).0,
            spec_upsert_class(reg, name).1,
        ),
{
    let names = class_names(reg.classes);
    lemma_find_name_props(names, name);
    match find_name(names, name) {
        Some(i) => {},
        None => {
            let r1 = spec_upsert_class(reg, name).0;
            assert(class_names(r1.classes) =~= names.push(name));
            lemma_find_name_push_self(names, name);
        },
    }
}

/// Idempotent upsert law for enums.
pub proof fn lemma_upsert_enum_idempotent(reg: RegistryModel, name: Seq<char>)
    ensures
        spec_upsert_enum(spec_upsert_enum(reg, name).0, name) == (
            spec_upsert_enum(reg, name).0,
            spec_upsert_enum(reg, name).1,
        ),
{
    let names = enum_names(reg.enums);
    lemma_find_name_props(names, name);
    match find_name(names, name) {
        Some(i) => {},
        None => {
            let r1 = spec_upsert_enum(reg, name).0;
            assert(enum_names(r1.enums) =~= names.push(name));
            lemma_find_name_push_self(names, name);
        },
    }
}

/// A field upsert never touches the class namespace: the class names, the
/// other classes, the class's own name, and the enums all stay as they were.
pub proof fn lemma_upsert_property_preserves_classes(reg: RegistryModel, c: int, fname: Seq<char>)
    requires
        0 <= c < reg.classes.len(),
    ensures
        spec_upsert_property(reg, c, fname).0.classes.len() == reg.classes.len(),
        class_names(spec_upsert_property(reg, c, fname).0.classes) == class_names(reg.classes),
        spec_upsert_property(reg, c, fname).0.classes[c].name == reg.classes[c].name,
        forall|k: int|
            0 <= k < reg.classes.len() && k != c
                ==> spec_upsert_property(reg, c, fname).0.classes[k] == reg.classes[k],
        spec_upsert_property(reg, c, fname).0.enums == reg.enums,
{
    let r1 = spec_upsert_property(reg, c, fname).0;
    match find_name(field_names(reg.classes[c].fields), fname) {
        Some(i) => {},
        None => {
            assert(class_names(r1.classes) =~= class_names(reg.classes));
        },
    }
}

/// Upserting a class name looks only at the class names, so any two
/// registries with the same class names hand back the same handle.
pub proof fn lemma_upsert_class_same_names(r1: RegistryModel, r2: RegistryModel, name: Seq<char>)
    requires
        class_names(r1.classes) == class_names(r2.classes),
    ensures
        spec_upsert_class(r1, name).1 == spec_upsert_class(r2, name).1,
        find_name(class_names(r1.classes), name) is Some ==> spec_upsert_class(r1, name).0 == r1
            && spec_upsert_class(r2, name).0 == r2,
{
    assert(class_names(r1.classes).len() == r1.classes.len());
    assert(class_names(r2.classes).len() == r2.classes.len());
}

/// Union-of-fields law: upserting two field names on one class, in either
/// one pass or across repeated upserts of the class, leaves both fields
/// present on that single class entry.
pub proof fn lemma_upsert_property_accumulates(reg: RegistryModel, c: int, f1: Seq<char>, f2: Seq<char>)
    requires
        0 <= c < reg.classes.len(),
    ensures
        spec_upsert_property(spec_upsert_property(reg, c, f1).0, c, f2).0.classes.len()
            == reg.classes.len(),
        find_name(
            field_names(
                spec_upsert_property(spec_upsert_property(reg, c, f1).0, c, f2).0.classes[c].fields,
            ),
            f1,
        ) is Some,
        find_name(
            field_names(
                spec_upsert_property(spec_upsert_property(reg, c, f1).0, c, f2).0.classes[c].fields,
            ),
            f2,
        ) is Some,
{
    let r1 = spec_upsert_property(reg, c, f1).0;
    let names0 = field_names(reg.classes[c].fields);
    let names1 = field_names(r1.classes[c].fields);
    lemma_find_name_props(names0, f1);
    match find_name(names0, f1) {
        Some(i) => {
            assert(r1 == reg);
        },
        None => {
            assert(names1 =~= names0.push(f1));
            lemma_find_name_push_self(names0, f1);
        },
    }
    assert(find_name(names1, f1) is Some);
    let r2 = spec_upsert_property(r1, c, f2).0;
    let names2 = field_names(r2.classes[c].fields);
    lemma_find_name_props(names1, f2);
    match find_name(names1, f2) {
        Some(i) => {
            assert(r2 == r1);
        },
        None => {
            assert(names2 =~= names1.push(f2));
            lemma_find_name_extend(names1, f1, f2);
            lemma_find_name_push_self(names1, f2);
        },
    }
    assert(find_name(names2, f1) is Some);
    assert(find_name(names2, f2) is Some);
}

impl SchemaRegistry {
    /// A fresh registry with both namespaces empty.
    pub fn new() -> (r: SchemaRegistry)
        ensures
            r@.classes == Seq::<ClassModel>::empty(),
            r@.enums == Seq::<EnumModel>::empty(),
    {
        let r = SchemaRegistry { classes: Vec::new(), enums: Vec::new() };
        proof {
            assert(r@.classes =~= Seq::<ClassModel>::empty());
            assert(r@.enums =~= Seq::<EnumModel>::empty());
        }
        r
    }

    /// Get or create the class entry named `name`.
    pub fn upsert_class(&mut self, name: &String) -> (h: ClassHandle)
        ensures
            final(self)@ == spec_upsert_class(old(self)@, name@).0,
            h@ == spec_upsert_class(old(self)@, name@).1,
            0 <= h@ < final(self)@.classes.len(),
            final(self)@.classes[h@].name == name@,
    {
        let ghost names = class_names(old(self)@.classes);
        let mut j: usize = 0;
        while j < self.classes.len()
            invariant
                *self == *old(self),
                j <= self.classes@.len(),
                names == class_names(self@.classes),
                forall|k: int| 0 <= k < j ==> names[k] != name@,
            decreases self.classes@.len() - j,
        {
            if self.classes[j].name == *name {
                proof {
                    lemma_find_name_at(names, name@, j as int);
                }
                return ClassHandle { idx: j };
            }
            j += 1;
        }
        proof {
            lemma_find_name_none(names, name@);
        }
        let idx = self.classes.len();
        self.classes.push(ClassDefinition { name: name.clone(), fields: Vec::new() });
        proof {
            assert(self@.classes =~~= old(self)@.classes.push(
                ClassModel { name: name@, fields: Seq::empty() },
            ));
        }
        ClassHandle { idx }
    }

    /// Get or create the field named `name` of the class behind `h`.
    pub fn upsert_property(&mut self, h: ClassHandle, name: &String) -> (r: FieldHandle)
        requires
            0 <= h@ < old(self)@.classes.len(),
        ensures
            final(self)@ == spec_upsert_property(old(self)@, h@, name@).0,
            r@.0 == h@,
            r@.1 == spec_upsert_property(old(self)@, h@, name@).1,
            0 <= r@.1 < final(self)@.classes[h@].fields.len(),
            final(self)@.classes[h@].fields[r@.1].name == name@,
    {
        let ghost names = field_names(old(self)@.classes[h@].fields);
        let cls = &self.classes[h.idx];
        let mut j: usize = 0;
        while j < cls.fields.len()
            invariant
                cls == &self.classes[h@],
                *self == *old(self),
                0 <= h@ < self@.classes.len(),
                j <= cls.fields@.len(),
                names == field_names(self@.classes[h@].fields),
                forall|k: int| 0 <= k < j ==> names[k] != name@,
            decreases cls.fields@.len() - j,
        {
            if cls.fields[j].name == *name {
                proof {
                    lemma_find_name_at(names, name@, j as int);
                }
                return FieldHandle { class: h.idx, field: j };
            }
            j += 1;
        }
        proof {
            lemma_find_name_none(names, name@);
        }
        let idx = self.classes[h.idx].fields.len();
        self.classes[h.idx].fields.push(
            FieldDefinition { name: name.clone(), ty: None, description: None },
        );
        proof {
            let m = spec_upsert_property(old(self)@, h@, name@).0;
            assert(self@.classes[h@] =~~= m.classes[h@]);
            assert(self@.classes =~~= m.classes);
            assert(self@.enums =~~= m.enums);
        }
        FieldHandle { class: h.idx, field: idx }
    }

    /// Set the type of the field behind `r`.
    pub fn set_type(&mut self, r: FieldHandle, t: TypeExpression)
        requires
            0 <= r@.0 < old(self)@.classes.len(),
            0 <= r@.1 < old(self)@.classes[r@.0].fields.len(),
        ensures
            final(self)@ == spec_set_type(old(self)@, r@.0, r@.1, t@),
    {
        self.classes[r.class].fields[r.field].ty = Some(t);
        proof {
            let m = spec_set_type(old(self)@, r@.0, r@.1, t@);
            assert(self@.classes[r@.0].fields =~~= m.classes[r@.0].fields);
            assert(self@.classes[r@.0] =~~= m.classes[r@.0]);
            assert(self@.classes =~~= m.classes);
            assert(self@.enums =~~= m.enums);
        }
    }

    /// Set the description of the field behind `r`.
    pub fn set_description(&mut self, r: FieldHandle, d: String)
        requires
            0 <= r@.0 < old(self)@.classes.len(),
            0 <= r@.1 < old(self)@.classes[r@.0].fields.len(),
        ensures
            final(self)@ == spec_set_description(old(self)@, r@.0, r@.1, d@),
    {
        self.classes[r.class].fields[r.field].description = Some(d);
        proof {
            let m = spec_set_description(old(self)@, r@.0, r@.1, d@);
            assert(self@.classes[r@.0].fields =~~= m.classes[r@.0].fields);
            assert(self@.classes[r@.0] =~~= m.classes[r@.0]);
            assert(self@.classes =~~= m.classes);
            assert(self@.enums =~~= m.enums);
        }
    }

    /// Get or create the enum entry named `name`.
    pub fn upsert_enum(&mut self, name: &String) -> (h: EnumHandle)
        ensures
            final(self)@ == spec_upsert_enum(old(self)@, name@).0,
            h@ == spec_upsert_enum(old(self)@, name@).1,
            0 <= h@ < final(self)@.enums.len(),
            final(self)@.enums[h@].name == name@,
    {
        let ghost names = enum_names(old(self)@.enums);
        let mut j: usize = 0;
        while j < self.enums.len()
            invariant
                *self == *old(self),
                j <= self.enums@.len(),
                names == enum_names(self@.enums),
                forall|k: int| 0 <= k < j ==> names[k] != name@,
            decreases self.enums@.len() - j,
        {
            if self.enums[j].name == *name {
                proof {
                    lemma_find_name_at(names, name@, j as int);
                }
                return EnumHandle { idx: j };
            }
            j += 1;
        }
        proof {
            lemma_find_name_none(names, name@);
        }
        let idx = self.enums.len();
        self.enums.push(EnumDefinition { name: name.clone(), values: Vec::new() });
        proof {
            assert(self@.enums =~~= old(self)@.enums.push(
                EnumModel { name: name@, values: Seq::empty() },
            ));
        }
        EnumHandle { idx }
    }

    /// Get or create the value named `name` of the enum behind `h`.
    pub fn upsert_value(&mut self, h: EnumHandle, name: &String) -> (r: ValueHandle)
        requires
            0 <= h@ < old(self)@.enums.len(),
        ensures
            final(self)@ == spec_upsert_value(old(self)@, h@, name@).0,
            r@.0 == h@,
            r@.1 == spec_upsert_value(old(self)@, h@, name@).1,
            0 <= r@.1 < final(self)@.enums[h@].values.len(),
            final(self)@.enums[h@].values[r@.1].name == name@,
    {
        let ghost names = value_names(old(self)@.enums[h@].values);
        let en = &self.enums[h.idx];
        let mut j: usize = 0;
        while j < en.values.len()
            invariant
                en == &self.enums[h@],
                *self == *old(self),
                0 <= h@ < self@.enums.len(),
                j <= en.values@.len(),
                names == value_names(self@.enums[h@].values),
                forall|k: int| 0 <= k < j ==> names[k] != name@,
            decreases en.values@.len() - j,
        {
            if en.values[j].name == *name {
                proof {
                    lemma_find_name_at(names, name@, j as int);
                }
                return ValueHandle { enum_idx: h.idx, value: j };
            }
            j += 1;
        }
        proof {
            lemma_find_name_none(names, name@);
        }
        let idx = self.enums[h.idx].values.len();
        self.enums[h.idx].values.push(
            EnumValueDefinition { name: name.clone(), description: None },
        );
        proof {
            let m = spec_upsert_value(old(self)@, h@, name@).0;
            assert(self@.enums[h@] =~~= m.enums[h@]);
            assert(self@.enums =~~= m.enums);
            assert(self@.classes =~~= m.classes);
        }
        ValueHandle { enum_idx: h.idx, value: idx }
    }

    /// Set the description of the enum value behind `r`.
    pub fn set_value_description(&mut self, r: ValueHandle, d: String)
        requires
            0 <= r@.0 < old(self)@.enums.len(),
            0 <= r@.1 < old(self)@.enums[r@.0].values.len(),
        ensures
            final(self)@ == spec_set_value_description(old(self)@, r@.0, r@.1, d@),
    {
        self.enums[r.enum_idx].values[r.value].description = Some(d);
        proof {
            let m = spec_set_value_description(old(self)@, r@.0, r@.1, d@);
            assert(self@.enums[r@.0].values =~~= m.enums[r@.0].values);
            assert(self@.enums[r@.0] =~~= m.enums[r@.0]);
            assert(self@.enums =~~= m.enums);
            assert(self@.classes =~~= m.classes);
        }
    }
}

} // verus!
