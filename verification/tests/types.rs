use krpc_gen::mapper::argument_type;
use krpc_gen::mapper::arguments_signature;
use krpc_gen::mapper::before_return;
use krpc_gen::mapper::convert_arguments;
use krpc_gen::mapper::convert_single_argument;
use krpc_gen::mapper::decoder_function;
use krpc_gen::mapper::is_procedure_well_formed;
use krpc_gen::mapper::return_type_signature;
use krpc_gen::mapper::return_value;
use krpc_gen::mapper::try_argument_type;
use krpc_gen::mapper::try_decoder_function;
use krpc_gen::mapper::try_return_type_signature;
use krpc_gen::output::Argument;
use krpc_gen::schema::Code;
use krpc_gen::schema::Parameter;
use krpc_gen::schema::Procedure;
use krpc_gen::schema::ReturnType;
use krpc_gen::schema::Type;
use krpc_gen::text::decimal;
use krpc_gen::text::join;
use krpc_gen::text::same_text;

fn plain(code: Code) -> ReturnType {
    ReturnType { code, types: None, service: None, name: None }
}

fn named(code: Code, name: &str) -> ReturnType {
    ReturnType { code, types: None, service: None, name: Some(name.to_string()) }
}

fn nested(code: Code, types: Vec<ReturnType>) -> ReturnType {
    ReturnType { code, types: Some(types), service: None, name: None }
}

fn arg(code: Code) -> Type {
    Type { code, types: None, service: None, name: None }
}

fn arg_named(code: Code, name: &str) -> Type {
    Type { code, types: None, service: None, name: Some(name.to_string()) }
}

fn arg_nested(code: Code, types: Vec<Type>) -> Type {
    Type { code, types: Some(types), service: None, name: None }
}

fn parameter(name: &str, ty: Type) -> Parameter {
    Parameter { name: name.to_string(), ty, default_value: None }
}

#[test]
fn primitive_signatures() {
    assert_eq!(return_type_signature(&Some(plain(Code::String))), "string");
    assert_eq!(return_type_signature(&Some(plain(Code::Bool))), "boolean");
    assert_eq!(return_type_signature(&Some(plain(Code::Float))), "number");
    assert_eq!(return_type_signature(&Some(plain(Code::Double))), "number");
    assert_eq!(return_type_signature(&Some(plain(Code::Sint32))), "number");
    assert_eq!(return_type_signature(&Some(plain(Code::Uint32))), "number");
    assert_eq!(return_type_signature(&None), "void");
}

#[test]
fn named_signatures() {
    assert_eq!(return_type_signature(&Some(named(Code::Class, "Vessel"))), "Vessel");
    assert_eq!(return_type_signature(&Some(named(Code::Enumeration, "WarpMode"))), "WarpMode");
}

#[test]
fn composite_signatures() {
    let list = nested(Code::List, vec![plain(Code::String)]);
    assert_eq!(return_type_signature(&Some(list)), "string[]");
    let set = nested(Code::SetOf, vec![plain(Code::Uint32)]);
    assert_eq!(return_type_signature(&Some(set)), "Set<number>");
    let dict = nested(Code::Dictionary, vec![plain(Code::String), plain(Code::Bool)]);
    assert_eq!(return_type_signature(&Some(dict)), "Record<string, boolean>");
    let tuple = nested(Code::Tuple, vec![plain(Code::Double), plain(Code::String), plain(Code::Bool)]);
    assert_eq!(return_type_signature(&Some(tuple)), "[number, string, boolean]");
    let unit = nested(Code::Tuple, vec![]);
    assert_eq!(return_type_signature(&Some(unit)), "[]");
}

#[test]
fn signature_follows_three_levels() {
    let t = nested(
        Code::List,
        vec![nested(Code::Tuple, vec![named(Code::Class, "Vessel"), plain(Code::Double)])],
    );
    assert_eq!(return_type_signature(&Some(t)), "[Vessel, number][]");
    let d = nested(
        Code::Dictionary,
        vec![plain(Code::String), nested(Code::List, vec![nested(Code::SetOf, vec![plain(Code::Bool)])])],
    );
    assert_eq!(return_type_signature(&Some(d)), "Record<string, Set<boolean>[]>");
}

#[test]
fn decoder_follows_three_levels() {
    let t = nested(
        Code::List,
        vec![nested(Code::Tuple, vec![named(Code::Class, "Vessel"), plain(Code::Double)])],
    );
    assert_eq!(
        decoder_function(&Some(t), "result.value".to_string()),
        "list.map((item) => { return [Vessel.decode(this.conn, tuple[0]), encoding.decodeDouble(this.conn, tuple[1])]})"
    );
}

#[test]
fn primitive_decoders() {
    let input = || "result.value".to_string();
    assert_eq!(decoder_function(&Some(plain(Code::String)), input()), "encoding.decodeString(this.conn, result.value)");
    assert_eq!(decoder_function(&Some(plain(Code::Bool)), input()), "encoding.decodeBool(this.conn, result.value)");
    assert_eq!(decoder_function(&Some(plain(Code::Float)), input()), "encoding.decodeFloat(this.conn, result.value)");
    assert_eq!(decoder_function(&Some(plain(Code::Double)), input()), "encoding.decodeDouble(this.conn, result.value)");
    assert_eq!(decoder_function(&Some(plain(Code::Sint32)), input()), "encoding.decodeSint32(this.conn, result.value)");
    assert_eq!(decoder_function(&Some(plain(Code::Uint32)), input()), "encoding.decodeUint32(this.conn, result.value)");
    assert_eq!(
        decoder_function(&Some(named(Code::Enumeration, "WarpMode")), input()),
        "encoding.decodeEnum(this.conn, result.value)"
    );
    assert_eq!(decoder_function(&Some(named(Code::Class, "Vessel")), input()), "Vessel.decode(this.conn, result.value)");
    assert_eq!(decoder_function(&None, input()), "undefined");
}

#[test]
fn composite_decoders() {
    let set = nested(Code::SetOf, vec![plain(Code::String)]);
    assert_eq!(
        decoder_function(&Some(set), "x".to_string()),
        "new Set(set.map((item) => { return encoding.decodeString(this.conn, item)}))"
    );
    let list = nested(Code::List, vec![named(Code::Class, "Part")]);
    assert_eq!(
        decoder_function(&Some(list), "x".to_string()),
        "list.map((item) => { return Part.decode(this.conn, item)})"
    );
    let dict = nested(Code::Dictionary, vec![plain(Code::String), plain(Code::Sint32)]);
    assert_eq!(
        decoder_function(&Some(dict), "x".to_string()),
        "dict.reduce((obj: Record<string, number>, item) => { const key = encoding.decodeString(this.conn, item.key); const value = encoding.decodeSint32(this.conn, item.value); obj[key] = value; return obj;}, {})"
    );
}

#[test]
fn tuple_decoder_numbers_its_places() {
    let mut elements = Vec::new();
    for _ in 0..12 {
        elements.push(plain(Code::Bool));
    }
    let text = decoder_function(&Some(nested(Code::Tuple, elements)), "x".to_string());
    assert!(text.starts_with("[encoding.decodeBool(this.conn, tuple[0]), encoding.decodeBool(this.conn, tuple[1]), "));
    assert!(text.ends_with("encoding.decodeBool(this.conn, tuple[10]), encoding.decodeBool(this.conn, tuple[11])]"));
}

#[test]
fn preparation_of_composites() {
    assert_eq!(
        before_return(&Some(nested(Code::List, vec![plain(Code::String)]))),
        "const list = encoding.decodeList(this.conn, result.value).items;"
    );
    assert_eq!(
        before_return(&Some(nested(Code::Tuple, vec![plain(Code::String)]))),
        "const tuple = encoding.decodeTuple(this.conn, result.value).items;"
    );
    assert_eq!(
        before_return(&Some(nested(Code::Dictionary, vec![plain(Code::String), plain(Code::String)]))),
        "const dict = encoding.decodeDict(this.conn, result.value).entries;"
    );
    assert_eq!(
        before_return(&Some(nested(Code::SetOf, vec![named(Code::Class, "Part")]))),
        "const set: Set<Part> = new Set(); encoding.decodeSet(this.conn, result.value).items.forEach((item) => { set.add(Part.decode(this.conn, item));});"
    );
    assert_eq!(
        before_return(&Some(nested(Code::SetOf, vec![plain(Code::String)]))),
        "const set: Set<string> = new Set(); encoding.decodeSet(this.conn, result.value).items.forEach((item) => { set.add(encoding.decodeString(this.conn, item));});"
    );
    assert_eq!(before_return(&Some(plain(Code::String))), "");
    assert_eq!(before_return(&None), "");
}

#[test]
fn return_values() {
    let with = |t: Option<ReturnType>| Procedure { id: 1, parameters: vec![], return_type: t };
    assert_eq!(return_value(&with(None), false), "()");
    assert_eq!(return_value(&with(Some(plain(Code::Double))), false), "return_value");
    assert_eq!(return_value(&with(Some(nested(Code::List, vec![plain(Code::Bool)]))), true), "return_value");
    assert_eq!(
        return_value(&with(Some(named(Code::Class, "Vessel"))), false),
        "Vessel{id: return_value, conn: &self.conn}"
    );
    assert_eq!(
        return_value(&with(Some(named(Code::Class, "Vessel"))), true),
        "Vessel{id: return_value, conn: &conn}"
    );
}

#[test]
fn argument_types() {
    assert_eq!(argument_type(&arg(Code::String)), "string");
    assert_eq!(argument_type(&arg(Code::Bool)), "boolean");
    assert_eq!(argument_type(&arg(Code::Float)), "number");
    assert_eq!(argument_type(&arg_named(Code::Enumeration, "WarpMode")), "WarpMode");
    assert_eq!(argument_type(&arg_named(Code::Class, "Vessel")), "Vessel");
    assert_eq!(argument_type(&arg_nested(Code::List, vec![arg(Code::Bool)])), "boolean[]");
    assert_eq!(
        argument_type(&arg_nested(Code::Dictionary, vec![arg(Code::String), arg(Code::Double)])),
        "Record<string, number>"
    );
    assert_eq!(argument_type(&arg_nested(Code::SetOf, vec![arg_named(Code::Class, "Part")])), "Set<Part>");
    let deep = arg_nested(
        Code::List,
        vec![arg_nested(Code::Dictionary, vec![arg(Code::String), arg_nested(Code::SetOf, vec![arg(Code::Uint32)])])],
    );
    assert_eq!(argument_type(&deep), "Record<string, Set<number>>[]");
    let tuple = arg_nested(
        Code::Tuple,
        vec![arg(Code::Double), arg_nested(Code::Tuple, vec![arg(Code::String), arg_named(Code::Class, "Part")])],
    );
    assert_eq!(argument_type(&tuple), "[number, [string, Part]]");
}

#[test]
fn visible_arguments_leave_the_receiver_out() {
    let p = Procedure {
        id: 3,
        parameters: vec![
            parameter("this", arg_named(Code::Class, "Vessel")),
            parameter("reference_frame", arg_named(Code::Class, "ReferenceFrame")),
            parameter("Count", arg(Code::Uint32)),
        ],
        return_type: None,
    };
    assert_eq!(arguments_signature(&p, false), "referenceFrame: ReferenceFrame, count: number");
}

#[test]
fn arguments_keep_their_places() {
    let p = Procedure {
        id: 3,
        parameters: vec![
            parameter("this", arg_named(Code::Class, "Vessel")),
            parameter("target_body", arg_named(Code::Class, "CelestialBody")),
            parameter("mode", arg_named(Code::Enumeration, "WarpMode")),
            parameter("factor", arg(Code::Float)),
        ],
        return_type: None,
    };
    let expected = vec![
        Argument { position: 0, encoder_function: "encoding.encodeVarint64".to_string(), value: "this.id".to_string() },
        Argument {
            position: 1,
            encoder_function: "encoding.encodeVarint64".to_string(),
            value: "targetBody.id".to_string(),
        },
        Argument {
            position: 2,
            encoder_function: "encoding.encodeVarint64".to_string(),
            value: "Long.fromInt(mode.valueOf())".to_string(),
        },
        Argument { position: 3, encoder_function: "encoding.encodeFloat".to_string(), value: "factor".to_string() },
    ];
    assert_eq!(convert_arguments(&p), expected);
}

#[test]
fn receiver_is_encoded_first_whatever_its_type() {
    let r = convert_single_argument(&parameter("this", arg(Code::String)), 5);
    assert_eq!(
        r,
        Argument { position: 0, encoder_function: "encoding.encodeVarint64".to_string(), value: "this.id".to_string() }
    );
}

#[test]
fn encoders_by_code() {
    let encoder = |code: Code| convert_single_argument(&parameter("x", arg(code)), 0).encoder_function;
    assert_eq!(encoder(Code::String), "encoding.encodeString");
    assert_eq!(encoder(Code::Bool), "encoding.encodeBool");
    assert_eq!(encoder(Code::Float), "encoding.encodeFloat");
    assert_eq!(encoder(Code::Double), "encoding.encodeDouble");
    assert_eq!(encoder(Code::Sint32), "encoding.encodeSint32");
    assert_eq!(encoder(Code::Uint32), "encoding.encodeUint32");
    assert_eq!(encoder(Code::List), "encoding.encodeList");
    assert_eq!(encoder(Code::Dictionary), "encoding.encodeDict");
    assert_eq!(encoder(Code::SetOf), "encoding.encodeSet");
    assert_eq!(encoder(Code::Tuple), "encoding.encodeTuple");
}

#[test]
fn well_formedness_is_decided() {
    assert!(plain(Code::String).is_well_formed());
    assert!(!plain(Code::Class).is_well_formed());
    assert!(!plain(Code::Enumeration).is_well_formed());
    assert!(!plain(Code::List).is_well_formed());
    assert!(!plain(Code::Tuple).is_well_formed());
    assert!(!nested(Code::List, vec![]).is_well_formed());
    assert!(!nested(Code::SetOf, vec![plain(Code::Bool), plain(Code::Bool)]).is_well_formed());
    assert!(!nested(Code::Dictionary, vec![plain(Code::Bool)]).is_well_formed());
    assert!(nested(Code::Dictionary, vec![plain(Code::Bool), plain(Code::Bool)]).is_well_formed());
    assert!(nested(Code::Tuple, vec![]).is_well_formed());
    assert!(!nested(Code::List, vec![nested(Code::Tuple, vec![plain(Code::Class)])]).is_well_formed());
    assert!(arg_nested(Code::Tuple, vec![arg(Code::Bool)]).is_well_formed());
    assert!(!arg_nested(Code::Tuple, vec![arg(Code::Class)]).is_well_formed());
}

#[test]
fn procedure_well_formedness_skips_the_receiver() {
    let ok = Procedure { id: 1, parameters: vec![parameter("this", arg(Code::Class))], return_type: None };
    assert!(is_procedure_well_formed(&ok));
    let bad = Procedure { id: 1, parameters: vec![parameter("that", arg(Code::Class))], return_type: None };
    assert!(!is_procedure_well_formed(&bad));
    let worse = Procedure { id: 1, parameters: vec![], return_type: Some(plain(Code::List)) };
    assert!(!is_procedure_well_formed(&worse));
}

#[test]
fn decimal_numerals() {
    assert_eq!(decimal(0), "0");
    assert_eq!(decimal(7), "7");
    assert_eq!(decimal(10), "10");
    assert_eq!(decimal(409), "409");
    assert_eq!(decimal(1234567890), "1234567890");
}

#[test]
fn joining_texts() {
    assert_eq!(join(&vec![], ", "), "");
    assert_eq!(join(&vec!["a".to_string()], ", "), "a");
    assert_eq!(join(&vec!["a".to_string(), "b".to_string(), "c".to_string()], ", "), "a, b, c");
}

#[test]
fn texts_are_compared_whole() {
    assert!(same_text(&"this".to_string(), "this"));
    assert!(!same_text(&"this".to_string(), "thi"));
    assert!(!same_text(&"This".to_string(), "this"));
    assert!(same_text(&String::new(), ""));
}

#[test]
fn set_decoder_applies_the_element_decoder_at_depth() {
    let t = nested(
        Code::List,
        vec![nested(Code::SetOf, vec![nested(Code::Tuple, vec![named(Code::Class, "Part"), plain(Code::Bool)])])],
    );
    assert_eq!(
        decoder_function(&Some(t), "result.value".to_string()),
        "list.map((item) => { return new Set(set.map((item) => { return [Part.decode(this.conn, tuple[0]), encoding.decodeBool(this.conn, tuple[1])]}))})"
    );
}

#[test]
fn flawed_types_have_no_signature_and_no_decoder() {
    let input = || "result.value".to_string();
    let flawed = vec![
        plain(Code::List),
        plain(Code::SetOf),
        plain(Code::Dictionary),
        plain(Code::Tuple),
        nested(Code::List, vec![]),
        nested(Code::SetOf, vec![]),
        nested(Code::Dictionary, vec![plain(Code::String)]),
        plain(Code::Class),
        nested(Code::List, vec![nested(Code::Tuple, vec![plain(Code::Bool), plain(Code::SetOf)])]),
        nested(Code::Dictionary, vec![plain(Code::String), nested(Code::List, vec![plain(Code::Dictionary)])]),
    ];
    for t in flawed {
        let t = Some(t);
        assert_eq!(try_return_type_signature(&t), None);
        assert_eq!(try_decoder_function(&t, input()), None);
    }
}

#[test]
fn sound_types_have_signature_and_decoder() {
    let t = Some(nested(Code::SetOf, vec![plain(Code::Uint32)]));
    assert_eq!(try_return_type_signature(&t), Some("Set<number>".to_string()));
    assert_eq!(
        try_decoder_function(&t, "x".to_string()),
        Some("new Set(set.map((item) => { return encoding.decodeUint32(this.conn, item)}))".to_string())
    );
    assert_eq!(try_return_type_signature(&None), Some("void".to_string()));
    assert_eq!(try_decoder_function(&None, "x".to_string()), Some("undefined".to_string()));
}

#[test]
fn flawed_parameter_types_have_no_signature() {
    assert_eq!(try_argument_type(&arg(Code::List)), None);
    assert_eq!(try_argument_type(&arg_nested(Code::SetOf, vec![])), None);
    assert_eq!(try_argument_type(&arg_nested(Code::Tuple, vec![arg(Code::Bool), arg(Code::Enumeration)])), None);
    assert_eq!(
        try_argument_type(&arg_nested(Code::List, vec![arg_nested(Code::Dictionary, vec![arg(Code::String)])])),
        None
    );
    assert_eq!(
        try_argument_type(&arg_nested(Code::List, vec![arg(Code::Double)])),
        Some("number[]".to_string())
    );
}

#[test]
fn nested_composites_read_their_bindings() {
    let lists = nested(Code::List, vec![nested(Code::List, vec![plain(Code::Sint32)])]);
    assert_eq!(
        decoder_function(&Some(lists), "result.value".to_string()),
        "list.map((item) => { return list.map((item) => { return encoding.decodeSint32(this.conn, item)})})"
    );
    let dict = nested(
        Code::Dictionary,
        vec![plain(Code::String), nested(Code::Tuple, vec![plain(Code::Bool), plain(Code::Float)])],
    );
    assert_eq!(
        decoder_function(&Some(dict), "result.value".to_string()),
        "dict.reduce((obj: Record<string, [boolean, number]>, item) => { const key = encoding.decodeString(this.conn, item.key); const value = [encoding.decodeBool(this.conn, tuple[0]), encoding.decodeFloat(this.conn, tuple[1])]; obj[key] = value; return obj;}, {})"
    );
    let tuple = nested(Code::Tuple, vec![nested(Code::Dictionary, vec![plain(Code::String), plain(Code::Bool)])]);
    assert_eq!(
        decoder_function(&Some(tuple), "result.value".to_string()),
        "[dict.reduce((obj: Record<string, boolean>, item) => { const key = encoding.decodeString(this.conn, item.key); const value = encoding.decodeBool(this.conn, item.value); obj[key] = value; return obj;}, {})]"
    );
}
