use krpc_gen::classify::get_procedure_type;
use krpc_gen::classify::holds_separator;
use krpc_gen::classify::role_of_keyword_match;
use krpc_gen::classify::role_of_pair_match;
use krpc_gen::classify::ClassMethod;
use krpc_gen::classify::ClassProperty;
use krpc_gen::classify::ParsedMethod;
use krpc_gen::classify::ProcedureType;
use krpc_gen::classify::ServiceProperty;
use krpc_gen::classify::StandardMethod;

fn groups(parts: &[Option<&str>]) -> Vec<Option<String>> {
    parts.iter().map(|p| p.map(|s| s.to_string())).collect()
}

#[test]
fn test_standard_method() {
    let result = get_procedure_type("WarpTo");
    let expected = ProcedureType::Standard(StandardMethod {
        procedure: "WarpTo".to_string(),
        name: "WarpTo".to_string(),
    });
    assert_eq!(result, expected);
}

#[test]
fn test_service_getter() {
    let result = get_procedure_type("get_WarpMode");
    let expected = ProcedureType::PropertyGetter(ServiceProperty {
        procedure: "get_WarpMode".to_string(),
        name: "WarpMode".to_string(),
        prefix: "get".to_string(),
    });
    assert_eq!(result, expected);
}

#[test]
fn test_class_method() {
    let result = get_procedure_type("AutoPilot_Engage");
    let expected = ProcedureType::ClassMethod(ClassMethod {
        procedure: "AutoPilot_Engage".to_string(),
        class: "AutoPilot".to_string(),
        method: "Engage".to_string(),
    });
    assert_eq!(result, expected);
}

#[test]
fn test_class_property_getter() {
    let result = get_procedure_type("Vessel_get_Type");
    let expected = ProcedureType::ClassPropertyGetter(ClassProperty {
        procedure: "Vessel_get_Type".to_string(),
        class: "Vessel".to_string(),
        property: "Type".to_string(),
        prefix: "get".to_string(),
    });
    assert_eq!(result, expected);
}

#[test]
fn service_setter_is_recognised() {
    let expected = ProcedureType::PropertySetter(ServiceProperty {
        procedure: "set_ActiveVessel".to_string(),
        name: "ActiveVessel".to_string(),
        prefix: "set".to_string(),
    });
    assert_eq!(get_procedure_type("set_ActiveVessel"), expected);
}

#[test]
fn class_property_setter_is_recognised() {
    let expected = ProcedureType::ClassPropertySetter(ClassProperty {
        procedure: "Vessel_set_Name".to_string(),
        class: "Vessel".to_string(),
        property: "Name".to_string(),
        prefix: "set".to_string(),
    });
    assert_eq!(get_procedure_type("Vessel_set_Name"), expected);
}

#[test]
fn static_class_method_is_recognised() {
    let expected = ProcedureType::StaticClassMethod(ClassMethod {
        procedure: "Part_static_Find".to_string(),
        class: "Part".to_string(),
        method: "Find".to_string(),
    });
    assert_eq!(get_procedure_type("Part_static_Find"), expected);
}

#[test]
fn last_keyword_splits_the_name() {
    let expected = ProcedureType::ClassPropertySetter(ClassProperty {
        procedure: "Fuel_get_Tank_set_Level".to_string(),
        class: "Fuel_get_Tank".to_string(),
        property: "Level".to_string(),
        prefix: "set".to_string(),
    });
    assert_eq!(get_procedure_type("Fuel_get_Tank_set_Level"), expected);
}

#[test]
fn last_separator_splits_a_class_method() {
    let expected = ProcedureType::ClassMethod(ClassMethod {
        procedure: "Space_Center_Launch".to_string(),
        class: "Space_Center".to_string(),
        method: "Launch".to_string(),
    });
    assert_eq!(get_procedure_type("Space_Center_Launch"), expected);
}

#[test]
fn empty_name_is_a_standard_method() {
    let expected = ProcedureType::Standard(StandardMethod {
        procedure: "".to_string(),
        name: "".to_string(),
    });
    assert_eq!(get_procedure_type(""), expected);
}

#[test]
fn classification_is_repeatable() {
    assert_eq!(get_procedure_type("Vessel_get_Type"), get_procedure_type("Vessel_get_Type"));
    assert_ne!(get_procedure_type("Vessel_get_Type"), get_procedure_type("Vessel_set_Type"));
}

#[test]
fn keyword_groups_decide_the_class_role() {
    let found = groups(&[Some("A_static_B"), Some("A"), Some("static"), Some("B")]);
    let expected = ProcedureType::StaticClassMethod(ClassMethod {
        procedure: "A_static_B".to_string(),
        class: "A".to_string(),
        method: "B".to_string(),
    });
    assert_eq!(role_of_keyword_match("A_static_B", &found), expected);
}

#[test]
fn unknown_keyword_gives_unknown() {
    let found = groups(&[Some("A_put_B"), Some("A"), Some("put"), Some("B")]);
    assert_eq!(role_of_keyword_match("A_put_B", &found), ProcedureType::Unknown);
}

#[test]
fn missing_groups_give_unknown() {
    let short = groups(&[Some("A_get_B"), Some("A")]);
    assert_eq!(role_of_keyword_match("A_get_B", &short), ProcedureType::Unknown);
    let idle = groups(&[Some("A_B"), None, Some("B")]);
    assert_eq!(role_of_pair_match("A_B", &idle), ProcedureType::Unknown);
}

#[test]
fn pair_groups_decide_the_role() {
    let getter = groups(&[Some("get_X"), Some("get"), Some("X")]);
    let expected = ProcedureType::PropertyGetter(ServiceProperty {
        procedure: "get_X".to_string(),
        name: "X".to_string(),
        prefix: "get".to_string(),
    });
    assert_eq!(role_of_pair_match("get_X", &getter), expected);
    let method = groups(&[Some("A_B"), Some("A"), Some("B")]);
    let expected = ProcedureType::ClassMethod(ClassMethod {
        procedure: "A_B".to_string(),
        class: "A".to_string(),
        method: "B".to_string(),
    });
    assert_eq!(role_of_pair_match("A_B", &method), expected);
}

#[test]
fn function_names_are_recased() {
    let plain = StandardMethod { procedure: "WarpTo".to_string(), name: "WarpTo".to_string() };
    assert_eq!(plain.function_name(), "warpTo");
    assert_eq!(plain.original_procedure_name(), "WarpTo");
    let getter = ServiceProperty {
        procedure: "get_warp_mode".to_string(),
        name: "warp_mode".to_string(),
        prefix: "get".to_string(),
    };
    assert_eq!(getter.function_name(), "getWarpMode");
    let method = ClassMethod {
        procedure: "AutoPilot_Engage".to_string(),
        class: "AutoPilot".to_string(),
        method: "Engage".to_string(),
    };
    assert_eq!(method.function_name(), "engage");
    let setter = ClassProperty {
        procedure: "Vessel_set_Name".to_string(),
        class: "Vessel".to_string(),
        property: "Name".to_string(),
        prefix: "set".to_string(),
    };
    assert_eq!(setter.function_name(), "setName");
    assert_eq!(setter.original_procedure_name(), "Vessel_set_Name");
}

#[test]
fn separator_is_found() {
    assert!(!holds_separator(""));
    assert!(!holds_separator("WarpTo"));
    assert!(holds_separator("_"));
    assert!(holds_separator("get_WarpMode"));
    assert!(holds_separator("trailing_"));
}

#[test]
fn names_of_two_empty_parts() {
    let expected = ProcedureType::ClassMethod(ClassMethod {
        procedure: "_".to_string(),
        class: "".to_string(),
        method: "".to_string(),
    });
    assert_eq!(get_procedure_type("_"), expected);
}

#[test]
fn keyword_without_class_or_member() {
    let expected = ProcedureType::ClassPropertyGetter(ClassProperty {
        procedure: "_get_".to_string(),
        class: "".to_string(),
        property: "".to_string(),
        prefix: "get".to_string(),
    });
    assert_eq!(get_procedure_type("_get_"), expected);
}

#[test]
fn overlapping_keywords_split_at_the_last() {
    let expected = ProcedureType::ClassPropertySetter(ClassProperty {
        procedure: "a_get_set_b".to_string(),
        class: "a_get".to_string(),
        property: "b".to_string(),
        prefix: "set".to_string(),
    });
    assert_eq!(get_procedure_type("a_get_set_b"), expected);
    let expected = ProcedureType::StaticClassMethod(ClassMethod {
        procedure: "x_set_y_static_z_w".to_string(),
        class: "x_set_y".to_string(),
        method: "z_w".to_string(),
    });
    assert_eq!(get_procedure_type("x_set_y_static_z_w"), expected);
}

#[test]
fn leading_get_takes_the_whole_rest() {
    let expected = ProcedureType::PropertyGetter(ServiceProperty {
        procedure: "get_Active_Vessel".to_string(),
        name: "Active_Vessel".to_string(),
        prefix: "get".to_string(),
    });
    assert_eq!(get_procedure_type("get_Active_Vessel"), expected);
    let expected = ProcedureType::ClassMethod(ClassMethod {
        procedure: "getter_Active_Vessel".to_string(),
        class: "getter_Active".to_string(),
        method: "Vessel".to_string(),
    });
    assert_eq!(get_procedure_type("getter_Active_Vessel"), expected);
    let expected = ProcedureType::ClassMethod(ClassMethod {
        procedure: "forget_it".to_string(),
        class: "forget".to_string(),
        method: "it".to_string(),
    });
    assert_eq!(get_procedure_type("forget_it"), expected);
}

#[test]
fn keyword_needs_both_separators() {
    let expected = ProcedureType::ClassMethod(ClassMethod {
        procedure: "Vessel_get".to_string(),
        class: "Vessel".to_string(),
        method: "get".to_string(),
    });
    assert_eq!(get_procedure_type("Vessel_get"), expected);
    let expected = ProcedureType::ClassMethod(ClassMethod {
        procedure: "Vessel_getter_Type".to_string(),
        class: "Vessel_getter".to_string(),
        method: "Type".to_string(),
    });
    assert_eq!(get_procedure_type("Vessel_getter_Type"), expected);
    let expected = ProcedureType::ClassMethod(ClassMethod {
        procedure: "trailing_".to_string(),
        class: "trailing".to_string(),
        method: "".to_string(),
    });
    assert_eq!(get_procedure_type("trailing_"), expected);
}

fn role_by_shape(name: &str) -> ProcedureType {
    let procedure = name.to_string();
    if !name.contains('_') {
        return ProcedureType::Standard(StandardMethod { procedure, name: name.to_string() });
    }
    let places: Vec<usize> = name.char_indices().map(|(q, _)| q).collect();
    for q in places.into_iter().rev() {
        for keyword in ["get", "set", "static"] {
            let frame = format!("_{}_", keyword);
            if name[q..].starts_with(&frame) {
                let class = name[..q].to_string();
                let member = name[q + frame.len()..].to_string();
                return match keyword {
                    "get" => ProcedureType::ClassPropertyGetter(ClassProperty {
                        procedure,
                        class,
                        property: member,
                        prefix: "get".to_string(),
                    }),
                    "set" => ProcedureType::ClassPropertySetter(ClassProperty {
                        procedure,
                        class,
                        property: member,
                        prefix: "set".to_string(),
                    }),
                    _ => ProcedureType::StaticClassMethod(ClassMethod { procedure, class, method: member }),
                };
            }
        }
    }
    if let Some(rest) = name.strip_prefix("get_") {
        return ProcedureType::PropertyGetter(ServiceProperty {
            procedure,
            name: rest.to_string(),
            prefix: "get".to_string(),
        });
    }
    if let Some(rest) = name.strip_prefix("set_") {
        return ProcedureType::PropertySetter(ServiceProperty {
            procedure,
            name: rest.to_string(),
            prefix: "set".to_string(),
        });
    }
    let q = name.rfind('_').unwrap();
    ProcedureType::ClassMethod(ClassMethod {
        procedure,
        class: name[..q].to_string(),
        method: name[q + 1..].to_string(),
    })
}

#[test]
fn matcher_follows_the_shape_of_names() {
    let tokens = ["_", "get", "set", "static", "x", "é"];
    let mut names = vec![String::new()];
    let mut last = vec![String::new()];
    for _ in 0..4 {
        let mut next = Vec::new();
        for name in &last {
            for token in tokens {
                next.push(format!("{}{}", name, token));
            }
        }
        names.extend(next.iter().cloned());
        last = next;
    }
    assert_eq!(names.len(), 1 + 6 + 36 + 216 + 1296);
    for name in &names {
        let role = get_procedure_type(name);
        assert_eq!(role, role_by_shape(name));
        assert_ne!(role, ProcedureType::Unknown);
        assert_eq!(matches!(role, ProcedureType::Standard(_)), !name.contains('_'));
    }
}

#[test]
fn line_break_is_left_to_the_matcher() {
    let expected = ProcedureType::ClassPropertyGetter(ClassProperty {
        procedure: "a\nb_get_c".to_string(),
        class: "b".to_string(),
        property: "c".to_string(),
        prefix: "get".to_string(),
    });
    assert_eq!(get_procedure_type("a\nb_get_c"), expected);
}
