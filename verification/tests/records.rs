use krpc_gen::classify::ProcedureType;
use krpc_gen::classify::StandardMethod;
use krpc_gen::order::insert_method;
use krpc_gen::order::rank_arguments;
use krpc_gen::order::rank_methods;
use krpc_gen::order::rank_numbers;
use krpc_gen::order::rank_texts;
use krpc_gen::order::sort_methods;
use krpc_gen::order::Rank;
use krpc_gen::output::Argument;
use krpc_gen::output::Class;
use krpc_gen::output::Enumeration;
use krpc_gen::output::EnumerationValue;
use krpc_gen::output::Method;
use krpc_gen::output::OutputStructure;
use krpc_gen::parser::build_output_structure;
use krpc_gen::parser::check_procedure;
use krpc_gen::parser::class_of;
use krpc_gen::parser::classify_all;
use krpc_gen::parser::collect;
use krpc_gen::parser::convert_method;
use krpc_gen::parser::convert_role;
use krpc_gen::parser::create_output_structure;
use krpc_gen::parser::declares;
use krpc_gen::parser::generate_for;
use krpc_gen::parser::role_lands_in;
use krpc_gen::parser::validate;
use krpc_gen::parser::Bucket;
use krpc_gen::parser::SchemaError;
use krpc_gen::schema;
use krpc_gen::schema::Code;
use krpc_gen::schema::first_repeated;
use krpc_gen::schema::Content;
use krpc_gen::schema::Parameter;
use krpc_gen::schema::Procedure;
use krpc_gen::schema::ReturnType;
use krpc_gen::schema::Type;

fn procedure(id: u64, parameters: Vec<Parameter>, return_type: Option<ReturnType>) -> Procedure {
    Procedure { id, parameters, return_type }
}

fn receiver(class: &str) -> Parameter {
    Parameter {
        name: "this".to_string(),
        ty: Type { code: Code::Class, types: None, service: None, name: Some(class.to_string()) },
        default_value: None,
    }
}

fn content(procedures: Vec<(&str, Procedure)>, classes: Vec<&str>) -> Content {
    Content {
        id: 1,
        procedures: procedures.into_iter().map(|(n, p)| (n.to_string(), p)).collect(),
        classes: classes.into_iter().map(|n| (n.to_string(), schema::Class {})).collect(),
        enumerations: vec![],
    }
}

fn bare(id: u64, procedure: &str, name: &str) -> Method {
    Method {
        id,
        procedure: procedure.to_string(),
        name: name.to_string(),
        arguments_signature: "".to_string(),
        arguments: vec![],
        decoder_function: "undefined".to_string(),
        before_return: "".to_string(),
        return_type_signature: "void".to_string(),
        return_value: "()".to_string(),
    }
}

#[test]
fn standard_method_without_arguments() {
    let input = content(vec![("WarpTo", procedure(7, vec![], None))], vec![]);
    let out = create_output_structure(&input);
    assert_eq!(out.methods, vec![bare(7, "WarpTo", "warpTo")]);
    assert!(out.getters_setters.is_empty());
    assert!(out.classes.is_empty());
    assert!(out.enumerations.is_empty());
}

#[test]
fn service_getter_of_an_enumeration() {
    let warp_mode = ReturnType {
        code: Code::Enumeration,
        types: None,
        service: None,
        name: Some("WarpMode".to_string()),
    };
    let input = content(vec![("get_WarpMode", procedure(12, vec![], Some(warp_mode)))], vec![]);
    let out = create_output_structure(&input);
    assert!(out.methods.is_empty());
    assert_eq!(out.getters_setters.len(), 1);
    let getter = &out.getters_setters[0];
    assert_eq!(getter.id, 12);
    assert_eq!(getter.procedure, "get_WarpMode");
    assert_eq!(getter.name, "getWarpMode");
    assert_eq!(getter.decoder_function, "encoding.decodeEnum(this.conn, result.value)");
    assert_eq!(getter.return_type_signature, "WarpMode");
    assert_eq!(getter.return_value, "return_value");
    assert_eq!(getter.before_return, "");
}

#[test]
fn class_method_with_receiver() {
    let input = content(
        vec![("AutoPilot_Engage", procedure(20, vec![receiver("AutoPilot")], None))],
        vec!["AutoPilot"],
    );
    let out = create_output_structure(&input);
    assert!(out.methods.is_empty());
    assert_eq!(out.classes.len(), 1);
    let class = &out.classes[0];
    assert_eq!(class.name, "AutoPilot");
    assert!(class.getters_setters.is_empty());
    assert!(class.static_methods.is_empty());
    let mut expected = bare(20, "AutoPilot_Engage", "engage");
    expected.arguments = vec![Argument {
        position: 0,
        encoder_function: "encoding.encodeVarint64".to_string(),
        value: "this.id".to_string(),
    }];
    assert_eq!(class.methods, vec![expected]);
}

#[test]
fn undeclared_class_is_a_fault() {
    let input = content(vec![("AutoPilot_Engage", procedure(20, vec![], None))], vec!["Vessel"]);
    let expected = SchemaError::UnknownClass {
        procedure: "AutoPilot_Engage".to_string(),
        class: "AutoPilot".to_string(),
    };
    assert_eq!(build_output_structure(&input), Err(expected.clone()));
    assert_eq!(validate(&input), Err(expected.clone()));
    assert_eq!(check_procedure(&input, 0), Err(expected));
}

#[test]
fn malformed_type_is_a_fault() {
    let list = ReturnType { code: Code::List, types: None, service: None, name: None };
    let input = content(
        vec![("Fine", procedure(1, vec![], None)), ("Broken", procedure(2, vec![], Some(list)))],
        vec![],
    );
    let expected = SchemaError::MalformedType { procedure: "Broken".to_string() };
    assert_eq!(build_output_structure(&input), Err(expected));
}

#[test]
fn malformed_parameter_type_is_a_fault() {
    let deep = Type {
        code: Code::List,
        types: Some(vec![Type { code: Code::Tuple, types: None, service: None, name: None }]),
        service: None,
        name: None,
    };
    let input = content(
        vec![(
            "Launch",
            procedure(1, vec![Parameter { name: "stages".to_string(), ty: deep, default_value: None }], None),
        )],
        vec![],
    );
    assert_eq!(
        build_output_structure(&input),
        Err(SchemaError::MalformedType { procedure: "Launch".to_string() })
    );
}

#[test]
fn malformed_type_at_depth_is_a_fault() {
    let inner = ReturnType { code: Code::Dictionary, types: Some(vec![]), service: None, name: None };
    let middle = ReturnType { code: Code::SetOf, types: Some(vec![inner]), service: None, name: None };
    let outer = ReturnType { code: Code::List, types: Some(vec![middle]), service: None, name: None };
    let input = content(vec![("Deep", procedure(1, vec![], Some(outer)))], vec![]);
    assert_eq!(
        build_output_structure(&input),
        Err(SchemaError::MalformedType { procedure: "Deep".to_string() })
    );
}

#[test]
fn first_fault_is_reported() {
    let class = ReturnType { code: Code::Class, types: None, service: None, name: None };
    let input = content(
        vec![
            ("Ghost_Walk", procedure(1, vec![], None)),
            ("Broken", procedure(2, vec![], Some(class))),
        ],
        vec![],
    );
    let expected =
        SchemaError::UnknownClass { procedure: "Ghost_Walk".to_string(), class: "Ghost".to_string() };
    assert_eq!(build_output_structure(&input), Err(expected));
}

#[test]
fn sound_description_is_built() {
    let input = content(vec![("WarpTo", procedure(7, vec![], None))], vec![]);
    assert_eq!(validate(&input), Ok(()));
    assert_eq!(build_output_structure(&input), Ok(create_output_structure(&input)));
}

#[test]
fn classes_without_methods_are_kept_in_order() {
    let input = content(vec![], vec!["Vessel", "Part", "Anchor"]);
    let out = create_output_structure(&input);
    let names: Vec<String> = out.classes.iter().map(|c| c.name.clone()).collect();
    assert_eq!(names, vec!["Vessel".to_string(), "Part".to_string(), "Anchor".to_string()]);
    assert_eq!(
        out.classes[1],
        Class { name: "Part".to_string(), methods: vec![], getters_setters: vec![], static_methods: vec![] }
    );
}

#[test]
fn members_go_to_the_lists_of_their_class() {
    let input = content(
        vec![
            ("Vessel_set_Name", procedure(5, vec![], None)),
            ("Part_static_Find", procedure(4, vec![], None)),
            ("Vessel_get_Name", procedure(3, vec![], None)),
            ("Vessel_Recover", procedure(2, vec![], None)),
            ("set_Target", procedure(1, vec![], None)),
        ],
        vec!["Vessel", "Part"],
    );
    let out = create_output_structure(&input);
    assert_eq!(out.getters_setters, vec![bare(1, "set_Target", "setTarget")]);
    let vessel = &out.classes[0];
    assert_eq!(vessel.methods, vec![bare(2, "Vessel_Recover", "recover")]);
    assert_eq!(
        vessel.getters_setters,
        vec![bare(3, "Vessel_get_Name", "getName"), bare(5, "Vessel_set_Name", "setName")]
    );
    assert!(vessel.static_methods.is_empty());
    let part = &out.classes[1];
    assert_eq!(part.static_methods, vec![bare(4, "Part_static_Find", "find")]);
    assert!(part.methods.is_empty());
}

#[test]
fn set_result_is_prepared_and_decoded() {
    let set = ReturnType {
        code: Code::SetOf,
        types: Some(vec![ReturnType { code: Code::Class, types: None, service: None, name: Some("Part".to_string()) }]),
        service: None,
        name: None,
    };
    let input = content(vec![("Parts", procedure(8, vec![], Some(set)))], vec![]);
    let out = create_output_structure(&input);
    let m = &out.methods[0];
    assert_eq!(
        m.before_return,
        "const set: Set<Part> = new Set(); encoding.decodeSet(this.conn, result.value).items.forEach((item) => { set.add(Part.decode(this.conn, item));});"
    );
    assert_eq!(m.decoder_function, "new Set(set.map((item) => { return Part.decode(this.conn, item)}))");
    assert_eq!(m.return_type_signature, "Set<Part>");
}

#[test]
fn static_method_returns_a_handle_without_receiver() {
    let part = ReturnType { code: Code::Class, types: None, service: None, name: Some("Part".to_string()) };
    let input = content(vec![("Part_static_Find", procedure(4, vec![], Some(part)))], vec!["Part"]);
    let out = create_output_structure(&input);
    let found = &out.classes[0].static_methods[0];
    assert_eq!(found.return_value, "Part{id: return_value, conn: &conn}");
    assert_eq!(found.decoder_function, "Part.decode(this.conn, result.value)");
}

#[test]
fn lists_are_sorted_by_id_then_procedure() {
    let input = content(
        vec![
            ("Zeta", procedure(9, vec![], None)),
            ("Beta", procedure(2, vec![], None)),
            ("Alpha", procedure(2, vec![], None)),
            ("Gamma", procedure(1, vec![], None)),
        ],
        vec![],
    );
    let out = create_output_structure(&input);
    let order: Vec<String> = out.methods.iter().map(|m| m.procedure.clone()).collect();
    assert_eq!(
        order,
        vec!["Gamma".to_string(), "Alpha".to_string(), "Beta".to_string(), "Zeta".to_string()]
    );
}

#[test]
fn order_of_the_procedures_does_not_matter() {
    let forward = content(
        vec![("A", procedure(1, vec![], None)), ("B", procedure(2, vec![], None)), ("get_C", procedure(3, vec![], None))],
        vec![],
    );
    let backward = content(
        vec![("get_C", procedure(3, vec![], None)), ("B", procedure(2, vec![], None)), ("A", procedure(1, vec![], None))],
        vec![],
    );
    assert_eq!(create_output_structure(&forward), create_output_structure(&backward));
}

#[test]
fn building_twice_gives_the_same() {
    let input = content(
        vec![
            ("Vessel_get_Name", procedure(3, vec![receiver("Vessel")], None)),
            ("WarpTo", procedure(7, vec![], None)),
            ("Vessel_Recover", procedure(2, vec![receiver("Vessel")], None)),
        ],
        vec!["Vessel"],
    );
    assert_eq!(create_output_structure(&input), create_output_structure(&input));
    assert_eq!(build_output_structure(&input), build_output_structure(&input));
}

#[test]
fn enumerations_keep_values_and_order() {
    let mut input = content(vec![], vec![]);
    input.enumerations = vec![
        (
            "WarpMode".to_string(),
            schema::Enumeration {
                values: vec![
                    schema::EnumerationValue { name: "Rails".to_string(), value: 0 },
                    schema::EnumerationValue { name: "Physics".to_string(), value: 1 },
                    schema::EnumerationValue { name: "None".to_string(), value: 7 },
                ],
            },
        ),
        ("Empty".to_string(), schema::Enumeration { values: vec![] }),
    ];
    let out = create_output_structure(&input);
    assert_eq!(
        out.enumerations,
        vec![
            Enumeration {
                name: "WarpMode".to_string(),
                values: vec![
                    EnumerationValue { id: 0, name: "Rails".to_string() },
                    EnumerationValue { id: 1, name: "Physics".to_string() },
                    EnumerationValue { id: 7, name: "None".to_string() },
                ],
            },
            Enumeration { name: "Empty".to_string(), values: vec![] },
        ]
    );
}

#[test]
fn empty_description_gives_empty_output() {
    let out = create_output_structure(&content(vec![], vec![]));
    assert_eq!(out, OutputStructure::default());
    assert_eq!(krpc_gen::create_output_structure(&content(vec![], vec![])), out);
    assert!(krpc_gen::generate_for(&vec![]).is_empty());
}

#[test]
fn every_service_is_built_under_its_name() {
    let services = vec![
        ("SpaceCenter".to_string(), content(vec![("WarpTo", procedure(7, vec![], None))], vec![])),
        ("Drawing".to_string(), content(vec![("Line_Remove", procedure(1, vec![], None))], vec![])),
    ];
    let out = generate_for(&services);
    assert_eq!(out.len(), 2);
    assert_eq!(out[0].0, "SpaceCenter");
    assert_eq!(out[0].1, Ok(create_output_structure(&services[0].1)));
    assert_eq!(out[1].0, "Drawing");
    assert_eq!(
        out[1].1,
        Err(SchemaError::UnknownClass { procedure: "Line_Remove".to_string(), class: "Line".to_string() })
    );
}

#[test]
fn record_of_a_method_with_arguments_and_result() {
    let role = StandardMethod { procedure: "TransformPosition".to_string(), name: "TransformPosition".to_string() };
    let tuple = |n: usize| {
        let mut types = Vec::new();
        for _ in 0..n {
            types.push(ReturnType { code: Code::Double, types: None, service: None, name: None });
        }
        ReturnType { code: Code::Tuple, types: Some(types), service: None, name: None }
    };
    let p = procedure(
        44,
        vec![Parameter {
            name: "from_frame".to_string(),
            ty: Type { code: Code::Class, types: None, service: None, name: Some("ReferenceFrame".to_string()) },
            default_value: None,
        }],
        Some(tuple(3)),
    );
    let m = convert_method(&role, &p, false);
    assert_eq!(m.id, 44);
    assert_eq!(m.procedure, "TransformPosition");
    assert_eq!(m.name, "transformPosition");
    assert_eq!(m.arguments_signature, "fromFrame: ReferenceFrame");
    assert_eq!(
        m.arguments,
        vec![Argument {
            position: 0,
            encoder_function: "encoding.encodeVarint64".to_string(),
            value: "fromFrame.id".to_string(),
        }]
    );
    assert_eq!(
        m.decoder_function,
        "[encoding.decodeDouble(this.conn, tuple[0]), encoding.decodeDouble(this.conn, tuple[1]), encoding.decodeDouble(this.conn, tuple[2])]"
    );
    assert_eq!(m.before_return, "const tuple = encoding.decodeTuple(this.conn, result.value).items;");
    assert_eq!(m.return_type_signature, "[number, number, number]");
    assert_eq!(m.return_value, "return_value");
}

#[test]
fn unknown_role_has_no_record_and_no_list() {
    let p = procedure(1, vec![], None);
    assert_eq!(convert_role(&ProcedureType::Unknown, &p), None);
    assert!(!role_lands_in(&ProcedureType::Unknown, Bucket::ServiceMethods, ""));
    assert_eq!(class_of(&ProcedureType::Unknown), None);
}

#[test]
fn roles_land_in_one_list() {
    let input = content(
        vec![("Vessel_Recover", procedure(2, vec![], None)), ("WarpTo", procedure(7, vec![], None))],
        vec!["Vessel"],
    );
    let roles = classify_all(&input);
    assert_eq!(roles.len(), 2);
    assert!(role_lands_in(&roles[0], Bucket::ClassMethods, "Vessel"));
    assert!(!role_lands_in(&roles[0], Bucket::ClassMethods, "Part"));
    assert!(!role_lands_in(&roles[0], Bucket::ClassStatics, "Vessel"));
    assert!(role_lands_in(&roles[1], Bucket::ServiceMethods, ""));
    assert_eq!(class_of(&roles[0]), Some("Vessel".to_string()));
    assert_eq!(class_of(&roles[1]), None);
    assert_eq!(collect(&input, &roles, Bucket::ServiceMethods, ""), vec![bare(7, "WarpTo", "warpTo")]);
    assert_eq!(collect(&input, &roles, Bucket::ClassMethods, "Vessel"), vec![bare(2, "Vessel_Recover", "recover")]);
    assert!(collect(&input, &roles, Bucket::ClassMethods, "Part").is_empty());
    assert!(declares(&input.classes, "Vessel"));
    assert!(!declares(&input.classes, "Part"));
}

#[test]
fn ranks_of_numbers_and_texts() {
    assert_eq!(rank_numbers(1, 2), Rank::Before);
    assert_eq!(rank_numbers(2, 2), Rank::Same);
    assert_eq!(rank_numbers(3, 2), Rank::After);
    assert_eq!(rank_texts("", ""), Rank::Same);
    assert_eq!(rank_texts("", "a"), Rank::Before);
    assert_eq!(rank_texts("a", ""), Rank::After);
    assert_eq!(rank_texts("abc", "abd"), Rank::Before);
    assert_eq!(rank_texts("abc", "ab"), Rank::After);
    assert_eq!(rank_texts("Zeta", "alpha"), Rank::Before);
    assert_eq!(rank_texts("same", "same"), Rank::Same);
}

#[test]
fn ranks_of_arguments_and_records() {
    let a = |position: u64, value: &str| Argument {
        position,
        encoder_function: "encoding.encodeBool".to_string(),
        value: value.to_string(),
    };
    assert_eq!(rank_arguments(&vec![], &vec![a(0, "x")]), Rank::Before);
    assert_eq!(rank_arguments(&vec![a(0, "x")], &vec![a(0, "x")]), Rank::Same);
    assert_eq!(rank_arguments(&vec![a(0, "y")], &vec![a(0, "x"), a(1, "z")]), Rank::After);
    assert_eq!(rank_arguments(&vec![a(0, "x"), a(1, "a")], &vec![a(0, "x"), a(2, "a")]), Rank::Before);
    assert_eq!(rank_methods(&bare(1, "B", "b"), &bare(2, "A", "a")), Rank::Before);
    assert_eq!(rank_methods(&bare(2, "B", "b"), &bare(2, "A", "a")), Rank::After);
    assert_eq!(rank_methods(&bare(2, "A", "a"), &bare(2, "A", "a")), Rank::Same);
    let mut later = bare(2, "A", "a");
    later.return_value = "return_value".to_string();
    assert_eq!(rank_methods(&bare(2, "A", "a"), &later), Rank::Before);
}

#[test]
fn names_listed_twice_are_faults() {
    let twice = content(
        vec![("A", procedure(1, vec![], None)), ("B", procedure(2, vec![], None)), ("A", procedure(3, vec![], None))],
        vec![],
    );
    assert_eq!(
        build_output_structure(&twice),
        Err(SchemaError::RepeatedProcedure { name: "A".to_string() })
    );
    let classes = content(vec![("Vessel_Recover", procedure(1, vec![], None))], vec!["Vessel", "Part", "Vessel"]);
    assert_eq!(validate(&classes), Err(SchemaError::RepeatedClass { name: "Vessel".to_string() }));
    let mut enumerations = content(vec![], vec![]);
    enumerations.enumerations = vec![
        ("Mode".to_string(), schema::Enumeration { values: vec![] }),
        ("Mode".to_string(), schema::Enumeration { values: vec![] }),
    ];
    assert_eq!(
        validate(&enumerations),
        Err(SchemaError::RepeatedEnumeration { name: "Mode".to_string() })
    );
}

#[test]
fn repeated_names_come_before_other_faults() {
    let input = content(
        vec![
            ("Ghost_Walk", procedure(1, vec![], None)),
            ("B", procedure(2, vec![], None)),
            ("C", procedure(3, vec![], None)),
            ("C", procedure(4, vec![], None)),
            ("B", procedure(5, vec![], None)),
        ],
        vec![],
    );
    assert_eq!(validate(&input), Err(SchemaError::RepeatedProcedure { name: "C".to_string() }));
}

#[test]
fn first_repeated_name_is_found() {
    let entries = |names: &[&str]| -> Vec<(String, u8)> { names.iter().map(|n| (n.to_string(), 0)).collect() };
    assert_eq!(first_repeated(&entries(&[])), None);
    assert_eq!(first_repeated(&entries(&["a", "b", "c"])), None);
    assert_eq!(first_repeated(&entries(&["a", "b", "a", "b"])), Some(2));
    assert_eq!(first_repeated(&entries(&["a", "b", "b", "a"])), Some(2));
    assert_eq!(first_repeated(&entries(&["a", "a"])), Some(1));
}

#[test]
fn faults_are_put_in_words() {
    assert_eq!(
        SchemaError::RepeatedProcedure { name: "A".to_string() }.message(),
        "procedure A: listed more than once"
    );
    assert_eq!(
        SchemaError::RepeatedClass { name: "Vessel".to_string() }.message(),
        "class Vessel: declared more than once"
    );
    assert_eq!(
        SchemaError::RepeatedEnumeration { name: "Mode".to_string() }.message(),
        "enumeration Mode: declared more than once"
    );
    let malformed = SchemaError::MalformedType { procedure: "Broken".to_string() };
    assert_eq!(malformed.message(), "procedure Broken: a type lacks its nested types or its name");
    let unknown =
        SchemaError::UnknownClass { procedure: "Ghost_Walk".to_string(), class: "Ghost".to_string() };
    assert_eq!(unknown.message(), "procedure Ghost_Walk: class Ghost is not declared");
}

#[test]
fn ranks_agree_with_the_derived_order() {
    let mut later = bare(2, "A", "a");
    later.arguments = vec![Argument {
        position: 0,
        encoder_function: "encoding.encodeBool".to_string(),
        value: "x".to_string(),
    }];
    let records = vec![bare(1, "B", "b"), bare(2, "A", "a"), later, bare(2, "A", "b"), bare(2, "a", "a")];
    for x in &records {
        for y in &records {
            let expected = if x < y {
                Rank::Before
            } else if x == y {
                Rank::Same
            } else {
                Rank::After
            };
            assert_eq!(rank_methods(x, y), expected);
        }
    }
    let mut by_std = records.clone();
    by_std.sort();
    assert_eq!(sort_methods(records), by_std);
}

#[test]
fn sorting_keeps_every_record() {
    let sorted = sort_methods(vec![bare(3, "C", "c"), bare(1, "A", "a"), bare(3, "C", "c"), bare(2, "B", "b")]);
    assert_eq!(sorted, vec![bare(1, "A", "a"), bare(2, "B", "b"), bare(3, "C", "c"), bare(3, "C", "c")]);
    let mut list = vec![bare(1, "A", "a"), bare(3, "C", "c")];
    insert_method(&mut list, bare(2, "B", "b"));
    assert_eq!(list, vec![bare(1, "A", "a"), bare(2, "B", "b"), bare(3, "C", "c")]);
    assert!(sort_methods(vec![]).is_empty());
}

#[test]
fn every_procedure_has_one_record() {
    let input = content(
        vec![
            ("Vessel_set_Name", procedure(5, vec![], None)),
            ("Part_static_Find", procedure(4, vec![], None)),
            ("Vessel_get_Name", procedure(3, vec![], None)),
            ("Vessel_Recover", procedure(2, vec![], None)),
            ("set_Target", procedure(1, vec![], None)),
            ("WarpTo", procedure(7, vec![], None)),
        ],
        vec!["Vessel", "Part", "Anchor"],
    );
    let out = create_output_structure(&input);
    let mut all: Vec<Method> = Vec::new();
    all.extend(out.methods.iter().cloned());
    all.extend(out.getters_setters.iter().cloned());
    for class in &out.classes {
        all.extend(class.methods.iter().cloned());
        all.extend(class.getters_setters.iter().cloned());
        all.extend(class.static_methods.iter().cloned());
    }
    assert_eq!(all.len(), input.procedures.len());
    for (name, p) in &input.procedures {
        let of_name: Vec<&Method> = all.iter().filter(|m| &m.procedure == name).collect();
        assert_eq!(of_name.len(), 1);
        assert_eq!(of_name[0].id, p.id);
    }
}
