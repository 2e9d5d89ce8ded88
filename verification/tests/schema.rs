use baml_elixir::error::BridgeError;
use baml_elixir::registry::SchemaRegistry;
use baml_elixir::type_builder::{parse_type_builder_spec, term_to_string};
use baml_elixir::type_expr::{to_elixir_type, LiteralValue, PrimitiveKind, TypeExpression};
use baml_elixir::value::TaggedValue;

fn s(x: &str) -> String {
    x.to_string()
}

fn atom(name: &str) -> TaggedValue {
    TaggedValue::Tag(s(name), vec![])
}

fn field(name: &str, ty: TaggedValue) -> TaggedValue {
    TaggedValue::Mapping(vec![(s("name"), TaggedValue::Str(s(name))), (s("type"), ty)])
}

fn class_decl(name: &str, fields: Vec<TaggedValue>) -> TaggedValue {
    TaggedValue::Tag(
        s("class"),
        vec![TaggedValue::Mapping(vec![
            (s("name"), TaggedValue::Str(s(name))),
            (s("fields"), TaggedValue::List(fields)),
        ])],
    )
}

fn enum_decl(name: &str, values: Vec<TaggedValue>) -> TaggedValue {
    TaggedValue::Tag(
        s("enum"),
        vec![TaggedValue::Mapping(vec![
            (s("name"), TaggedValue::Str(s(name))),
            (s("values"), TaggedValue::List(values)),
        ])],
    )
}

fn parse(decls: Vec<TaggedValue>) -> (SchemaRegistry, Result<(), BridgeError>) {
    let mut reg = SchemaRegistry::new();
    let r = parse_type_builder_spec(&TaggedValue::List(decls), &mut reg);
    (reg, r)
}

#[test]
fn upsert_class_is_idempotent() {
    let mut reg = SchemaRegistry::new();
    let h1 = reg.upsert_class(&s("Pet"));
    let f1 = reg.upsert_property(h1, &s("name"));
    reg.set_type(f1, TypeExpression::Primitive(PrimitiveKind::Str));
    let h2 = reg.upsert_class(&s("Pet"));
    let f2 = reg.upsert_property(h2, &s("age"));
    reg.set_type(f2, TypeExpression::Primitive(PrimitiveKind::Int));
    assert_eq!(h1.idx, h2.idx);
    assert_eq!(reg.classes.len(), 1);
    assert_eq!(reg.classes[0].name, s("Pet"));
    assert_eq!(reg.classes[0].fields.len(), 2);
    assert_eq!(reg.classes[0].fields[0].name, s("name"));
    assert_eq!(
        reg.classes[0].fields[0].ty,
        Some(TypeExpression::Primitive(PrimitiveKind::Str))
    );
    assert_eq!(reg.classes[0].fields[1].name, s("age"));
    assert_eq!(
        reg.classes[0].fields[1].ty,
        Some(TypeExpression::Primitive(PrimitiveKind::Int))
    );
}

#[test]
fn enum_declaration_holds_values_in_order() {
    let (reg, r) = parse(vec![enum_decl(
        "Color",
        vec![
            TaggedValue::Str(s("red")),
            TaggedValue::Str(s("green")),
            TaggedValue::Str(s("blue")),
        ],
    )]);
    assert_eq!(r, Ok(()));
    assert_eq!(reg.enums.len(), 1);
    assert_eq!(reg.enums[0].name, s("Color"));
    let names: Vec<&str> = reg.enums[0].values.iter().map(|v| v.name.as_str()).collect();
    assert_eq!(names, vec!["red", "green", "blue"]);
}

#[test]
fn self_reference_is_accepted() {
    let (reg, r) = parse(vec![class_decl(
        "Node",
        vec![field(
            "next",
            TaggedValue::Tag(s("class"), vec![TaggedValue::Str(s("Node"))]),
        )],
    )]);
    assert_eq!(r, Ok(()));
    assert_eq!(reg.classes.len(), 1);
    assert_eq!(reg.classes[0].fields[0].name, s("next"));
    assert_eq!(
        reg.classes[0].fields[0].ty,
        Some(TypeExpression::ClassRef(s("Node")))
    );
}

#[test]
fn forward_reference_is_accepted() {
    let (reg, r) = parse(vec![
        class_decl(
            "Person",
            vec![field(
                "pet",
                TaggedValue::Tag(s("class"), vec![TaggedValue::Str(s("Pet"))]),
            )],
        ),
        class_decl("Pet", vec![field("name", atom("string"))]),
    ]);
    assert_eq!(r, Ok(()));
    assert_eq!(reg.classes.len(), 2);
    assert_eq!(reg.classes[0].name, s("Person"));
    assert_eq!(
        reg.classes[0].fields[0].ty,
        Some(TypeExpression::ClassRef(s("Pet")))
    );
    assert_eq!(reg.classes[1].name, s("Pet"));
}

#[test]
fn partial_failure_keeps_applied_fields() {
    let bad_second = TaggedValue::Mapping(vec![(s("type"), atom("string"))]);
    let (reg, r) = parse(vec![class_decl(
        "Pet",
        vec![field("name", atom("string")), bad_second],
    )]);
    assert_eq!(r, Err(BridgeError::MissingField(s("name"))));
    // no rollback: the class and its first field stay in the registry
    assert_eq!(reg.classes.len(), 1);
    assert_eq!(reg.classes[0].name, s("Pet"));
    assert_eq!(reg.classes[0].fields.len(), 1);
    assert_eq!(reg.classes[0].fields[0].name, s("name"));
    assert_eq!(
        reg.classes[0].fields[0].ty,
        Some(TypeExpression::Primitive(PrimitiveKind::Str))
    );
}

#[test]
fn declaration_set_must_be_a_list() {
    let mut reg = SchemaRegistry::new();
    let r = parse_type_builder_spec(&TaggedValue::Int(3), &mut reg);
    assert_eq!(r, Err(BridgeError::InvalidShape(s("list"), s("int"))));
}

#[test]
fn unknown_discriminator_is_unresolved() {
    let (_, r) = parse(vec![TaggedValue::Tag(
        s("widget"),
        vec![TaggedValue::Mapping(vec![])],
    )]);
    assert_eq!(r, Err(BridgeError::UnresolvedDeclaration(s("widget"))));
}

#[test]
fn declaration_item_must_be_a_tag() {
    let (_, r) = parse(vec![TaggedValue::Int(1)]);
    assert_eq!(r, Err(BridgeError::InvalidShape(s("declaration"), s("int"))));
}

#[test]
fn class_missing_name_fails() {
    let body = TaggedValue::Mapping(vec![(s("fields"), TaggedValue::List(vec![]))]);
    let (_, r) = parse(vec![TaggedValue::Tag(s("class"), vec![body])]);
    assert_eq!(r, Err(BridgeError::MissingField(s("name"))));
}

#[test]
fn class_missing_fields_fails_before_creating_it() {
    let body = TaggedValue::Mapping(vec![(s("name"), TaggedValue::Str(s("Pet")))]);
    let (reg, r) = parse(vec![TaggedValue::Tag(s("class"), vec![body])]);
    assert_eq!(r, Err(BridgeError::MissingField(s("fields"))));
    assert_eq!(reg.classes.len(), 0);
}

#[test]
fn class_fields_must_be_a_list_but_the_class_stays() {
    let body = TaggedValue::Mapping(vec![
        (s("name"), TaggedValue::Str(s("Pet"))),
        (s("fields"), TaggedValue::Int(3)),
    ]);
    let (reg, r) = parse(vec![TaggedValue::Tag(s("class"), vec![body])]);
    assert_eq!(r, Err(BridgeError::InvalidShape(s("list"), s("int"))));
    // the class entry was created before the shape check, and stays
    assert_eq!(reg.classes.len(), 1);
    assert_eq!(reg.classes[0].name, s("Pet"));
}

#[test]
fn field_missing_type_fails() {
    let f = TaggedValue::Mapping(vec![(s("name"), TaggedValue::Str(s("x")))]);
    let (_, r) = parse(vec![class_decl("C", vec![f])]);
    assert_eq!(r, Err(BridgeError::MissingField(s("type"))));
}

#[test]
fn enum_value_map_missing_value_fails() {
    let v = TaggedValue::Mapping(vec![(s("description"), TaggedValue::Str(s("d")))]);
    let (_, r) = parse(vec![enum_decl("E", vec![v])]);
    assert_eq!(r, Err(BridgeError::MissingField(s("value"))));
}

#[test]
fn primitive_atoms_parse() {
    let (reg, r) = parse(vec![class_decl(
        "C",
        vec![
            field("a", atom("string")),
            field("b", atom("int")),
            field("c", atom("float")),
            field("d", atom("bool")),
        ],
    )]);
    assert_eq!(r, Ok(()));
    let tys: Vec<&Option<TypeExpression>> =
        reg.classes[0].fields.iter().map(|f| &f.ty).collect();
    assert_eq!(
        tys,
        vec![
            &Some(TypeExpression::Primitive(PrimitiveKind::Str)),
            &Some(TypeExpression::Primitive(PrimitiveKind::Int)),
            &Some(TypeExpression::Primitive(PrimitiveKind::Float)),
            &Some(TypeExpression::Primitive(PrimitiveKind::Bool)),
        ]
    );
}

#[test]
fn other_atom_is_a_bare_class_reference() {
    let (reg, r) = parse(vec![class_decl("C", vec![field("p", atom("Pet"))])]);
    assert_eq!(r, Ok(()));
    assert_eq!(
        reg.classes[0].fields[0].ty,
        Some(TypeExpression::ClassRef(s("Pet")))
    );
}

#[test]
fn literal_scalars_parse() {
    let (reg, r) = parse(vec![class_decl(
        "C",
        vec![
            field("a", TaggedValue::Str(s("exact"))),
            field("b", TaggedValue::Int(42)),
            field("c", TaggedValue::Bool(true)),
        ],
    )]);
    assert_eq!(r, Ok(()));
    assert_eq!(
        reg.classes[0].fields[0].ty,
        Some(TypeExpression::Literal(LiteralValue::Str(s("exact"))))
    );
    assert_eq!(
        reg.classes[0].fields[1].ty,
        Some(TypeExpression::Literal(LiteralValue::Int(42)))
    );
    assert_eq!(
        reg.classes[0].fields[2].ty,
        Some(TypeExpression::Literal(LiteralValue::Bool(true)))
    );
}

#[test]
fn list_map_and_union_shapes_parse() {
    let list_ty = TaggedValue::Tag(s("list"), vec![atom("int")]);
    let map_ty = TaggedValue::Tag(s("map"), vec![atom("string"), atom("bool")]);
    let union_ty = TaggedValue::Tag(
        s("union"),
        vec![TaggedValue::List(vec![
            TaggedValue::Str(s("a")),
            TaggedValue::Str(s("b")),
        ])],
    );
    let (reg, r) = parse(vec![class_decl(
        "C",
        vec![
            field("l", list_ty),
            field("m", map_ty),
            field("u", union_ty),
        ],
    )]);
    assert_eq!(r, Ok(()));
    assert_eq!(
        reg.classes[0].fields[0].ty,
        Some(TypeExpression::List(Box::new(TypeExpression::Primitive(
            PrimitiveKind::Int
        ))))
    );
    assert_eq!(
        reg.classes[0].fields[1].ty,
        Some(TypeExpression::Mapping(
            Box::new(TypeExpression::Primitive(PrimitiveKind::Str)),
            Box::new(TypeExpression::Primitive(PrimitiveKind::Bool)),
        ))
    );
    // a union of bare literal scalars is a closed literal enumeration
    assert_eq!(
        reg.classes[0].fields[2].ty,
        Some(TypeExpression::Union(vec![
            TypeExpression::Literal(LiteralValue::Str(s("a"))),
            TypeExpression::Literal(LiteralValue::Str(s("b"))),
        ]))
    );
}

#[test]
fn sequence_sugar_takes_the_first_element() {
    let sugar = TaggedValue::List(vec![atom("int"), atom("string")]);
    let (reg, r) = parse(vec![class_decl("C", vec![field("xs", sugar)])]);
    assert_eq!(r, Ok(()));
    assert_eq!(
        reg.classes[0].fields[0].ty,
        Some(TypeExpression::List(Box::new(TypeExpression::Primitive(
            PrimitiveKind::Int
        ))))
    );
}

#[test]
fn empty_sequence_as_type_fails() {
    let (_, r) = parse(vec![class_decl(
        "C",
        vec![field("xs", TaggedValue::List(vec![]))],
    )]);
    assert_eq!(r, Err(BridgeError::InvalidShape(s("type"), s("empty list"))));
}

#[test]
fn inline_class_definition_defines_and_refers() {
    let inline = TaggedValue::Tag(
        s("class"),
        vec![TaggedValue::Mapping(vec![
            (s("name"), TaggedValue::Str(s("Address"))),
            (
                s("fields"),
                TaggedValue::List(vec![field("street", atom("string"))]),
            ),
        ])],
    );
    let (reg, r) = parse(vec![class_decl("Person", vec![field("home", inline)])]);
    assert_eq!(r, Ok(()));
    assert_eq!(reg.classes.len(), 2);
    assert_eq!(reg.classes[0].name, s("Person"));
    assert_eq!(reg.classes[1].name, s("Address"));
    assert_eq!(reg.classes[1].fields[0].name, s("street"));
    assert_eq!(
        reg.classes[0].fields[0].ty,
        Some(TypeExpression::ClassRef(s("Address")))
    );
}

#[test]
fn named_body_without_fields_is_a_reference_only() {
    let reference = TaggedValue::Tag(
        s("class"),
        vec![TaggedValue::Mapping(vec![(
            s("name"),
            TaggedValue::Str(s("Address")),
        )])],
    );
    let (reg, r) = parse(vec![class_decl("Person", vec![field("home", reference)])]);
    assert_eq!(r, Ok(()));
    assert_eq!(reg.classes.len(), 1);
    assert_eq!(
        reg.classes[0].fields[0].ty,
        Some(TypeExpression::ClassRef(s("Address")))
    );
}

#[test]
fn enum_reference_and_inline_definition() {
    let reference = TaggedValue::Tag(s("enum"), vec![TaggedValue::Str(s("Color"))]);
    let inline = TaggedValue::Tag(
        s("enum"),
        vec![TaggedValue::Mapping(vec![
            (s("name"), TaggedValue::Str(s("Size"))),
            (
                s("values"),
                TaggedValue::List(vec![TaggedValue::Str(s("small")), TaggedValue::Str(s("big"))]),
            ),
        ])],
    );
    let (reg, r) = parse(vec![class_decl(
        "C",
        vec![field("color", reference), field("size", inline)],
    )]);
    assert_eq!(r, Ok(()));
    assert_eq!(
        reg.classes[0].fields[0].ty,
        Some(TypeExpression::EnumRef(s("Color")))
    );
    assert_eq!(
        reg.classes[0].fields[1].ty,
        Some(TypeExpression::EnumRef(s("Size")))
    );
    assert_eq!(reg.enums.len(), 1);
    assert_eq!(reg.enums[0].name, s("Size"));
    let names: Vec<&str> = reg.enums[0].values.iter().map(|v| v.name.as_str()).collect();
    assert_eq!(names, vec!["small", "big"]);
}

#[test]
fn unknown_kind_tag_with_payload_is_unresolved() {
    let bad = TaggedValue::Tag(s("optional"), vec![atom("int")]);
    let (_, r) = parse(vec![class_decl("C", vec![field("x", bad)])]);
    assert_eq!(r, Err(BridgeError::UnresolvedDeclaration(s("optional"))));
}

#[test]
fn descriptions_are_stored() {
    let f = TaggedValue::Mapping(vec![
        (s("name"), TaggedValue::Str(s("x"))),
        (s("type"), atom("string")),
        (s("description"), TaggedValue::Str(s("a label"))),
    ]);
    let v = TaggedValue::Mapping(vec![
        (s("value"), TaggedValue::Str(s("red"))),
        (s("description"), TaggedValue::Str(s("warm"))),
    ]);
    let (reg, r) = parse(vec![class_decl("C", vec![f]), enum_decl("E", vec![v])]);
    assert_eq!(r, Ok(()));
    assert_eq!(reg.classes[0].fields[0].description, Some(s("a label")));
    assert_eq!(reg.enums[0].values[0].description, Some(s("warm")));
}

#[test]
fn repeated_field_names_merge_with_last_type() {
    let (reg, r) = parse(vec![class_decl(
        "C",
        vec![field("x", atom("string")), field("x", atom("int"))],
    )]);
    assert_eq!(r, Ok(()));
    assert_eq!(reg.classes[0].fields.len(), 1);
    assert_eq!(
        reg.classes[0].fields[0].ty,
        Some(TypeExpression::Primitive(PrimitiveKind::Int))
    );
}

#[test]
fn names_may_arrive_as_bare_tags() {
    assert_eq!(term_to_string(&atom("Pet")), Ok(s("Pet")));
    assert_eq!(term_to_string(&TaggedValue::Str(s("Pet"))), Ok(s("Pet")));
    assert_eq!(
        term_to_string(&TaggedValue::Int(1)),
        Err(BridgeError::InvalidShape(s("string"), s("int")))
    );
    // a class named by an atom instead of a string
    let decl = TaggedValue::Tag(
        s("class"),
        vec![TaggedValue::Mapping(vec![
            (s("name"), atom("Pet")),
            (s("fields"), TaggedValue::List(vec![])),
        ])],
    );
    let (reg, r) = parse(vec![decl]);
    assert_eq!(r, Ok(()));
    assert_eq!(reg.classes[0].name, s("Pet"));
}

#[test]
fn enum_namespace_is_independent_of_classes() {
    let (reg, r) = parse(vec![
        class_decl("Thing", vec![field("x", atom("string"))]),
        enum_decl("Thing", vec![TaggedValue::Str(s("one"))]),
    ]);
    assert_eq!(r, Ok(()));
    assert_eq!(reg.classes.len(), 1);
    assert_eq!(reg.enums.len(), 1);
    assert_eq!(reg.classes[0].name, s("Thing"));
    assert_eq!(reg.enums[0].name, s("Thing"));
}

#[test]
fn to_elixir_type_exact_terms() {
    assert_eq!(
        to_elixir_type(&TypeExpression::Primitive(PrimitiveKind::Int)),
        TaggedValue::Tag(s("primitive"), vec![atom("integer")])
    );
    assert_eq!(
        to_elixir_type(&TypeExpression::Primitive(PrimitiveKind::Bool)),
        TaggedValue::Tag(s("primitive"), vec![atom("boolean")])
    );
    assert_eq!(
        to_elixir_type(&TypeExpression::ClassRef(s("Pet"))),
        TaggedValue::Tag(s("class"), vec![TaggedValue::Str(s("Pet"))])
    );
    assert_eq!(
        to_elixir_type(&TypeExpression::EnumRef(s("Color"))),
        TaggedValue::Tag(s("enum"), vec![TaggedValue::Str(s("Color"))])
    );
    assert_eq!(
        to_elixir_type(&TypeExpression::Literal(LiteralValue::Str(s("hi")))),
        TaggedValue::Tag(s("literal"), vec![atom("hi")])
    );
    assert_eq!(
        to_elixir_type(&TypeExpression::List(Box::new(TypeExpression::Primitive(
            PrimitiveKind::Str
        )))),
        TaggedValue::Tag(
            s("list"),
            vec![TaggedValue::Tag(s("primitive"), vec![atom("string")])]
        )
    );
    assert_eq!(
        to_elixir_type(&TypeExpression::Mapping(
            Box::new(TypeExpression::Primitive(PrimitiveKind::Str)),
            Box::new(TypeExpression::Primitive(PrimitiveKind::Float)),
        )),
        TaggedValue::Tag(
            s("map"),
            vec![
                TaggedValue::Tag(s("primitive"), vec![atom("string")]),
                TaggedValue::Tag(s("primitive"), vec![atom("float")]),
            ]
        )
    );
    assert_eq!(
        to_elixir_type(&TypeExpression::Optional(Box::new(
            TypeExpression::ClassRef(s("Pet"))
        ))),
        TaggedValue::Tag(
            s("optional"),
            vec![TaggedValue::Tag(
                s("class"),
                vec![TaggedValue::Str(s("Pet"))]
            )]
        )
    );
    assert_eq!(
        to_elixir_type(&TypeExpression::Union(vec![
            TypeExpression::Primitive(PrimitiveKind::Int),
            TypeExpression::ClassRef(s("Pet")),
        ])),
        TaggedValue::Tag(
            s("union"),
            vec![TaggedValue::List(vec![
                TaggedValue::Tag(s("primitive"), vec![atom("integer")]),
                TaggedValue::Tag(s("class"), vec![TaggedValue::Str(s("Pet"))]),
            ])]
        )
    );
    assert_eq!(
        to_elixir_type(&TypeExpression::Tuple(vec![
            TypeExpression::Primitive(PrimitiveKind::Int),
            TypeExpression::Primitive(PrimitiveKind::Str),
        ])),
        TaggedValue::Tag(
            s("tuple"),
            vec![TaggedValue::List(vec![
                TaggedValue::Tag(s("primitive"), vec![atom("integer")]),
                TaggedValue::Tag(s("primitive"), vec![atom("string")]),
            ])]
        )
    );
}

#[test]
fn wrong_arity_kind_tags_fail() {
    let bad_list = TaggedValue::Tag(s("list"), vec![atom("int"), atom("string")]);
    let (_, r) = parse(vec![class_decl("C", vec![field("x", bad_list)])]);
    assert_eq!(r, Err(BridgeError::InvalidShape(s("list"), s("tag"))));

    let bad_map = TaggedValue::Tag(s("map"), vec![atom("int")]);
    let (_, r) = parse(vec![class_decl("C", vec![field("x", bad_map)])]);
    assert_eq!(r, Err(BridgeError::InvalidShape(s("map"), s("tag"))));
}

#[test]
fn declaration_tag_with_two_bodies_fails() {
    let body = TaggedValue::Mapping(vec![
        (s("name"), TaggedValue::Str(s("Pet"))),
        (s("fields"), TaggedValue::List(vec![])),
    ]);
    let extra = TaggedValue::Mapping(vec![]);
    let (_, r) = parse(vec![TaggedValue::Tag(s("class"), vec![body, extra])]);
    assert_eq!(r, Err(BridgeError::InvalidShape(s("declaration"), s("tag"))));
}

#[test]
fn union_payload_must_be_a_list() {
    let bad = TaggedValue::Tag(s("union"), vec![atom("int")]);
    let (_, r) = parse(vec![class_decl("C", vec![field("x", bad)])]);
    assert_eq!(r, Err(BridgeError::InvalidShape(s("list"), s("tag"))));
}
