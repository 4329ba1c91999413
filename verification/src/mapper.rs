//! From a schema type to the text of its signature, of its decoder and of
//! the encoder of an argument. Each mapping follows the nesting of the type.

use crate::output::Argument;
use crate::output::ArgumentView;
use crate::output::argument_views;
use crate::schema::Code;
use crate::schema::Parameter;
use crate::schema::Procedure;
use crate::schema::ReturnType;
use crate::schema::Type;
use crate::schema::lemma_well_formed_at_every_depth;
use crate::schema::name_text;
use crate::text::decimal;
use crate::text::decimal_text;
use crate::text::join;
use crate::text::joined;
use crate::text::lemma_occurs_between;
use crate::text::lemma_occurs_chain;
use crate::text::lemma_occurs_within;
use crate::text::lemma_part_occurs_in_joined;
use crate::text::occurs_in;
use crate::text::recased;
use crate::text::same_text;
use crate::text::texts;
use crate::text::to_case;
use vstd::prelude::*;
use vstd::string::StringExecFns;

verus! {

broadcast use vstd::std_specs::vec::group_vec_axioms;

/// The signature of a result type: a scalar name for a primitive, the
/// declared name for an enumeration or a class, `E[]` for a list, `Set<E>`
/// for a set, `Record<K, V>` for a dictionary and `[A, B, ..]` for a tuple.
pub open spec fn signature_text(t: ReturnType) -> Seq<char>
    decreases t,
    when t.well_formed()
{
    match t.code {
        Code::String => "string"@,
        Code::Bool => "boolean"@,
        Code::Float | Code::Double | Code::Sint32 | Code::Uint32 => "number"@,
        Code::Enumeration | Code::Class => name_text(t.name),
        Code::List => signature_text(t.types->0@[0]) + "[]"@,
        Code::Dictionary => "Record<"@ + signature_text(t.types->0@[0]) + ", "@ + signature_text(
            t.types->0@[1],
        ) + ">"@,
        Code::SetOf => "Set<"@ + signature_text(t.types->0@[0]) + ">"@,
        Code::Tuple => "["@ + joined(element_signatures(t.types->0), ", "@) + "]"@,
    }
}

/// The signature of an optional result type: `void` where there is none.
pub open spec fn return_signature_text(t: Option<ReturnType>) -> Seq<char> {
    match t {
        Some(t) => signature_text(t),
        None => "void"@,
    }
}

/// The expression that reads the element at `i` of a decoded tuple.
pub open spec fn tuple_slot(i: int) -> Seq<char> {
    "tuple["@ + decimal_text(i as nat) + "]"@
}

/// The expression that decodes a value of type `t` from the expression
/// `input`. A list maps the decoder of its element over `list`, a set is
/// made of the decoder of its element mapped over `set`, a dictionary folds
/// `dict` with the decoders of key and value, a tuple decodes each element
/// of `tuple` with the decoder of its place, and a class pairs the identity
/// with the connection. A composite reads the name that it is bound under,
/// at the top and nested alike; every other type reads `input`.
pub open spec fn decoder_text(t: ReturnType, input: Seq<char>) -> Seq<char>
    decreases t,
    when t.well_formed()
{
    match t.code {
        Code::String => "encoding.decodeString(this.conn, "@ + input + ")"@,
        Code::Bool => "encoding.decodeBool(this.conn, "@ + input + ")"@,
        Code::Float => "encoding.decodeFloat(this.conn, "@ + input + ")"@,
        Code::Double => "encoding.decodeDouble(this.conn, "@ + input + ")"@,
        Code::Sint32 => "encoding.decodeSint32(this.conn, "@ + input + ")"@,
        Code::Uint32 => "encoding.decodeUint32(this.conn, "@ + input + ")"@,
        Code::Enumeration => "encoding.decodeEnum(this.conn, "@ + input + ")"@,
        Code::List => "list.map((item) => { return "@ + decoder_text(t.types->0@[0], "item"@)
            + "})"@,
        Code::SetOf => "new Set(set.map((item) => { return "@ + decoder_text(
            t.types->0@[0],
            "item"@,
        ) + "}))"@,
        Code::Dictionary => "dict.reduce((obj: "@ + signature_text(t) + ", item) => { const key = "@
            + decoder_text(t.types->0@[0], "item.key"@) + "; const value = "@ + decoder_text(
            t.types->0@[1],
            "item.value"@,
        ) + "; obj[key] = value; return obj;}, {})"@,
        Code::Tuple => "["@ + joined(element_decoders(t.types->0), ", "@) + "]"@,
        Code::Class => name_text(t.name) + ".decode(this.conn, "@ + input + ")"@,
    }
}

/// The decoder of an optional result type: `undefined` where there is none.
pub open spec fn return_decoder_text(t: Option<ReturnType>, input: Seq<char>) -> Seq<char> {
    match t {
        Some(t) => decoder_text(t, input),
        None => "undefined"@,
    }
}

/// The statement that prepares a composite result before it is decoded: it
/// binds the items of a list, a tuple or a dictionary under the name that
/// the decoder reads, and fills a typed set with the decoded items of a set.
/// Empty for every other type and where there is no result.
pub open spec fn before_return_text(t: Option<ReturnType>) -> Seq<char> {
    match t {
        Some(t) => match t.code {
            Code::List => "const list = encoding.decodeList(this.conn, result.value).items;"@,
            Code::SetOf => "const set: "@ + signature_text(t)
                + " = new Set(); encoding.decodeSet(this.conn, result.value).items.forEach((item) => { set.add("@
                + decoder_text(t.types->0@[0], "item"@) + ");});"@,
            Code::Tuple => "const tuple = encoding.decodeTuple(this.conn, result.value).items;"@,
            Code::Dictionary => "const dict = encoding.decodeDict(this.conn, result.value).entries;"@,
            _ => Seq::empty(),
        },
        None => Seq::empty(),
    }
}

/// The expression that a generated function returns: `()` without a result,
/// a handle made of the identity and the connection for a class, the decoded
/// value for every other type.
pub open spec fn return_value_text(t: Option<ReturnType>, is_static: bool) -> Seq<char> {
    match t {
        Some(t) => match t.code {
            Code::Class => name_text(t.name) + "{id: return_value, conn: "@ + (if is_static {
                "&conn"@
            } else {
                "&self.conn"@
            }) + "}"@,
            _ => "return_value"@,
        },
        None => "()"@,
    }
}

/// The signature of a parameter type, written as that of a result type.
pub open spec fn argument_type_text(t: Type) -> Seq<char>
    decreases t,
    when t.well_formed()
{
    match t.code {
        Code::String => "string"@,
        Code::Bool => "boolean"@,
        Code::Float | Code::Double | Code::Sint32 | Code::Uint32 => "number"@,
        Code::Enumeration | Code::Class => name_text(t.name),
        Code::List => argument_type_text(t.types->0@[0]) + "[]"@,
        Code::Dictionary => "Record<"@ + argument_type_text(t.types->0@[0]) + ", "@
            + argument_type_text(t.types->0@[1]) + ">"@,
        Code::SetOf => "Set<"@ + argument_type_text(t.types->0@[0]) + ">"@,
        Code::Tuple => "["@ + joined(element_argument_types(t.types->0), ", "@) + "]"@,
    }
}

/// Whether the parameter is the receiver.
pub open spec fn is_receiver(p: Parameter) -> bool {
    p.name@ == "this"@
}

/// A parameter can be mapped where it is the receiver, whose type is never
/// read, or its type is well formed.
pub open spec fn parameter_well_formed(p: Parameter) -> bool {
    is_receiver(p) || p.ty.well_formed()
}

/// Whether every parameter of the procedure can be mapped.
pub open spec fn parameters_well_formed(p: Procedure) -> bool {
    forall|i: int| 0 <= i < p.parameters@.len() ==> parameter_well_formed(#[trigger] p.parameters@[i])
}

/// A procedure can be mapped where its parameters and its result type can.
pub open spec fn procedure_well_formed(p: Procedure) -> bool {
    &&& parameters_well_formed(p)
    &&& p.return_type matches Some(t) ==> t.well_formed()
}

/// The entries of the visible argument list: one `name: type` for each
/// parameter but the receiver, in order.
pub open spec fn visible_parameters(ps: Seq<Parameter>) -> Seq<Seq<char>>
    decreases ps.len(),
{
    if ps.len() == 0 {
        Seq::empty()
    } else if is_receiver(ps.last()) {
        visible_parameters(ps.drop_last())
    } else {
        visible_parameters(ps.drop_last()).push(
            recased(ps.last().name@, false) + ": "@ + argument_type_text(ps.last().ty),
        )
    }
}

/// The visible argument list of a procedure.
pub open spec fn arguments_signature_text(p: Procedure) -> Seq<char> {
    joined(visible_parameters(p.parameters@), ", "@)
}

/// The function that encodes an argument of the type with tag `code`.
pub open spec fn encoder_text(code: Code) -> Seq<char> {
    match code {
        Code::String => "encoding.encodeString"@,
        Code::Bool => "encoding.encodeBool"@,
        Code::Float => "encoding.encodeFloat"@,
        Code::Double => "encoding.encodeDouble"@,
        Code::Sint32 => "encoding.encodeSint32"@,
        Code::Uint32 => "encoding.encodeUint32"@,
        Code::Enumeration => "encoding.encodeVarint64"@,
        Code::List => "encoding.encodeList"@,
        Code::Dictionary => "encoding.encodeDict"@,
        Code::SetOf => "encoding.encodeSet"@,
        Code::Tuple => "encoding.encodeTuple"@,
        Code::Class => "encoding.encodeVarint64"@,
    }
}

/// How the parameter `p` at `position` is encoded. The receiver is encoded
/// first, as the identity of the object; an argument of a class as its
/// identity; one of an enumeration as its ordinal in a wide integer; every
/// other argument as it stands.
pub open spec fn argument_of(p: Parameter, position: u64) -> ArgumentView {
    if is_receiver(p) {
        ArgumentView {
            position: 0,
            encoder_function: "encoding.encodeVarint64"@,
            value: "this.id"@,
        }
    } else {
        ArgumentView {
            position,
            encoder_function: encoder_text(p.ty.code),
            value: match p.ty.code {
                Code::Class => recased(p.name@, false) + ".id"@,
                Code::Enumeration => "Long.fromInt("@ + recased(p.name@, false) + ".valueOf())"@,
                _ => recased(p.name@, false),
            },
        }
    }
}

/// The encoders of all parameters of a procedure, each at its place.
pub open spec fn arguments_of(p: Procedure) -> Seq<ArgumentView> {
    Seq::new(p.parameters@.len(), |i: int| argument_of(p.parameters@[i], i as u64))
}

/// The signatures of the elements of a tuple, in order.
pub open spec fn element_signatures(v: Vec<ReturnType>) -> Seq<Seq<char>>
    decreases v,
{
    Seq::new(
        v@.len(),
        |i: int|
            if 0 <= i < v@.len() {
                signature_text(v@[i])
            } else {
                Seq::empty()
            },
    )
}

/// The decoders of the elements of a tuple, each reading its own place.
pub open spec fn element_decoders(v: Vec<ReturnType>) -> Seq<Seq<char>>
    decreases v,
{
    Seq::new(
        v@.len(),
        |i: int|
            if 0 <= i < v@.len() {
                decoder_text(v@[i], tuple_slot(i))
            } else {
                Seq::empty()
            },
    )
}

/// The signatures of the elements of a tuple parameter, in order.
pub open spec fn element_argument_types(v: Vec<Type>) -> Seq<Seq<char>>
    decreases v,
{
    Seq::new(
        v@.len(),
        |i: int|
            if 0 <= i < v@.len() {
                argument_type_text(v@[i])
            } else {
                Seq::empty()
            },
    )
}

/// The signature follows the nesting: the signature of every nested type
/// stands in the signature of the type that holds it, and so, step by step,
/// does the signature of a type at any depth.
pub proof fn lemma_signature_holds_nested(t: ReturnType, i: int)
    requires
        t.well_formed(),
        t.code.is_composite(),
        0 <= i < t.nested().len(),
    ensures
        occurs_in(signature_text(t.nested()[i]), signature_text(t)),
{
    let v = t.types->0;
    let inner = signature_text(v@[i]);
    let empty = Seq::<char>::empty();
    match t.code {
        Code::List => {
            lemma_occurs_between(empty, inner, "[]"@);
            assert(empty + inner + "[]"@ =~= signature_text(t));
        },
        Code::SetOf => {
            lemma_occurs_between("Set<"@, inner, ">"@);
        },
        Code::Dictionary => {
            if i == 0 {
                lemma_occurs_between("Record<"@, inner, ", "@ + signature_text(v@[1]) + ">"@);
                assert("Record<"@ + inner + (", "@ + signature_text(v@[1]) + ">"@)
                    =~= signature_text(t));
            } else {
                lemma_occurs_between("Record<"@ + signature_text(v@[0]) + ", "@, inner, ">"@);
            }
        },
        Code::Tuple => {
            let parts = element_signatures(v);
            lemma_part_occurs_in_joined(parts, ", "@, i);
            lemma_occurs_within(inner, "["@, joined(parts, ", "@), "]"@);
        },
        _ => {},
    }
}

/// The expression that the decoder of the nested type at `i` reads: the
/// item of a list or a set, the key or the value of an entry of a
/// dictionary, the place `i` of a tuple.
pub open spec fn element_input(t: ReturnType, i: int) -> Seq<char> {
    match t.code {
        Code::Dictionary => if i == 0 {
            "item.key"@
        } else {
            "item.value"@
        },
        Code::Tuple => tuple_slot(i),
        _ => "item"@,
    }
}

/// The decoder follows the nesting: the decoder of every nested type,
/// reading its own item, stands in the decoder of the type that holds it,
/// for a list, a set, a dictionary and a tuple alike.
pub proof fn lemma_decoder_holds_nested(t: ReturnType, input: Seq<char>, i: int)
    requires
        t.well_formed(),
        t.code.is_composite(),
        0 <= i < t.nested().len(),
    ensures
        occurs_in(decoder_text(t.nested()[i], element_input(t, i)), decoder_text(t, input)),
{
    let v = t.types->0;
    match t.code {
        Code::List => {
            lemma_occurs_between(
                "list.map((item) => { return "@,
                decoder_text(v@[0], "item"@),
                "})"@,
            );
        },
        Code::SetOf => {
            lemma_occurs_between(
                "new Set(set.map((item) => { return "@,
                decoder_text(v@[0], "item"@),
                "}))"@,
            );
        },
        Code::Dictionary => {
            let head = "dict.reduce((obj: "@ + signature_text(t) + ", item) => { const key = "@;
            let key = decoder_text(v@[0], "item.key"@);
            let value = decoder_text(v@[1], "item.value"@);
            let tail = "; obj[key] = value; return obj;}, {})"@;
            if i == 0 {
                lemma_occurs_between(head, key, "; const value = "@ + value + tail);
                assert(head + key + ("; const value = "@ + value + tail) =~= decoder_text(
                    t,
                    input,
                ));
            } else {
                lemma_occurs_between(head + key + "; const value = "@, value, tail);
            }
        },
        Code::Tuple => {
            let parts = element_decoders(v);
            lemma_part_occurs_in_joined(parts, ", "@, i);
            lemma_occurs_within(parts[i], "["@, joined(parts, ", "@), "]"@);
        },
        _ => {},
    }
}

/// The expression that the decoder of the type at `path` reads, where the
/// decoder of `t` reads `input`.
pub open spec fn input_at_path(t: ReturnType, input: Seq<char>, path: Seq<int>) -> Seq<char>
    decreases path.len(),
{
    if path.len() == 0 {
        input
    } else {
        input_at_path(t.nested()[path[0]], element_input(t, path[0]), path.skip(1))
    }
}

/// The signature follows the nesting to its full depth: the signature of
/// the type at the end of any path through a well-formed type stands in the
/// signature of that type.
pub proof fn lemma_signature_holds_at_depth(t: ReturnType, path: Seq<int>)
    requires
        t.well_formed(),
        t.at_path(path) is Some,
    ensures
        occurs_in(signature_text(t.at_path(path)->0), signature_text(t)),
    decreases path.len(),
{
    if path.len() == 0 {
        let empty = Seq::<char>::empty();
        lemma_occurs_between(empty, signature_text(t), empty);
        assert(empty + signature_text(t) + empty =~= signature_text(t));
    } else {
        let inner = t.nested()[path[0]];
        lemma_signature_holds_at_depth(inner, path.skip(1));
        lemma_signature_holds_nested(t, path[0]);
        lemma_occurs_chain(
            signature_text(t.at_path(path)->0),
            signature_text(inner),
            signature_text(t),
        );
    }
}

/// The signature of a parameter type follows the nesting in the same way:
/// the signature of every nested type stands in the signature of the type
/// that holds it.
pub proof fn lemma_argument_type_holds_nested(t: Type, i: int)
    requires
        t.well_formed(),
        t.code.is_composite(),
        0 <= i < t.nested().len(),
    ensures
        occurs_in(argument_type_text(t.nested()[i]), argument_type_text(t)),
{
    let v = t.types->0;
    let inner = argument_type_text(v@[i]);
    let empty = Seq::<char>::empty();
    match t.code {
        Code::List => {
            lemma_occurs_between(empty, inner, "[]"@);
            assert(empty + inner + "[]"@ =~= argument_type_text(t));
        },
        Code::SetOf => {
            lemma_occurs_between("Set<"@, inner, ">"@);
        },
        Code::Dictionary => {
            if i == 0 {
                lemma_occurs_between("Record<"@, inner, ", "@ + argument_type_text(v@[1]) + ">"@);
                assert("Record<"@ + inner + (", "@ + argument_type_text(v@[1]) + ">"@)
                    =~= argument_type_text(t));
            } else {
                lemma_occurs_between("Record<"@ + argument_type_text(v@[0]) + ", "@, inner, ">"@);
            }
        },
        Code::Tuple => {
            let parts = element_argument_types(v);
            lemma_part_occurs_in_joined(parts, ", "@, i);
            lemma_occurs_within(inner, "["@, joined(parts, ", "@), "]"@);
        },
        _ => {},
    }
}

/// The signature of a parameter type follows the nesting to its full
/// depth.
pub proof fn lemma_argument_type_holds_at_depth(t: Type, path: Seq<int>)
    requires
        t.well_formed(),
        t.at_path(path) is Some,
    ensures
        occurs_in(argument_type_text(t.at_path(path)->0), argument_type_text(t)),
    decreases path.len(),
{
    if path.len() == 0 {
        let empty = Seq::<char>::empty();
        lemma_occurs_between(empty, argument_type_text(t), empty);
        assert(empty + argument_type_text(t) + empty =~= argument_type_text(t));
    } else {
        let inner = t.nested()[path[0]];
        lemma_argument_type_holds_at_depth(inner, path.skip(1));
        lemma_argument_type_holds_nested(t, path[0]);
        lemma_occurs_chain(
            argument_type_text(t.at_path(path)->0),
            argument_type_text(inner),
            argument_type_text(t),
        );
    }
}

/// The decoder follows the nesting to its full depth: the decoder of the
/// type at the end of any path through a well-formed type, reading the item
/// of its place, stands in the decoder of that type.
pub proof fn lemma_decoder_holds_at_depth(t: ReturnType, input: Seq<char>, path: Seq<int>)
    requires
        t.well_formed(),
        t.at_path(path) is Some,
    ensures
        occurs_in(
            decoder_text(t.at_path(path)->0, input_at_path(t, input, path)),
            decoder_text(t, input),
        ),
    decreases path.len(),
{
    if path.len() == 0 {
        let empty = Seq::<char>::empty();
        lemma_occurs_between(empty, decoder_text(t, input), empty);
        assert(empty + decoder_text(t, input) + empty =~= decoder_text(t, input));
    } else {
        let inner = t.nested()[path[0]];
        let inner_input = element_input(t, path[0]);
        lemma_decoder_holds_at_depth(inner, inner_input, path.skip(1));
        lemma_decoder_holds_nested(t, input, path[0]);
        lemma_occurs_chain(
            decoder_text(t.at_path(path)->0, input_at_path(t, input, path)),
            decoder_text(inner, inner_input),
            decoder_text(t, input),
        );
    }
}

fn type_signature(t: &ReturnType) -> (r: String)
    requires
        t.well_formed(),
    ensures
        r@ == signature_text(*t),
    decreases t,
{
    match t.code {
        Code::String => String::from_str("string"),
        Code::Bool => String::from_str("boolean"),
        Code::Float | Code::Double | Code::Sint32 | Code::Uint32 => String::from_str("number"),
        Code::Enumeration | Code::Class => t.name.as_ref().unwrap().clone(),
        Code::List => {
            let v = t.types.as_ref().unwrap();
            proof {
                vstd::std_specs::vec::axiom_vec_index_decreases(*v, 0);
            }
            type_signature(&v[0]).concat("[]")
        },
        Code::Dictionary => {
            let v = t.types.as_ref().unwrap();
            proof {
                vstd::std_specs::vec::axiom_vec_index_decreases(*v, 0);
                vstd::std_specs::vec::axiom_vec_index_decreases(*v, 1);
            }
            let key = type_signature(&v[0]);
            let value = type_signature(&v[1]);
            String::from_str("Record<").concat(key.as_str()).concat(", ").concat(
                value.as_str(),
            ).concat(">")
        },
        Code::SetOf => {
            let v = t.types.as_ref().unwrap();
            proof {
                vstd::std_specs::vec::axiom_vec_index_decreases(*v, 0);
            }
            String::from_str("Set<").concat(type_signature(&v[0]).as_str()).concat(">")
        },
        Code::Tuple => {
            let v = t.types.as_ref().unwrap();
            let mut parts: Vec<String> = Vec::new();
            let mut i: usize = 0;
            while i < v.len()
                invariant
                    i <= v@.len(),
                    t.types == Some(*v),
                    t.well_formed(),
                    t.code is Tuple,
                    parts@.len() == i,
                    forall|j: int| 0 <= j < i ==> (#[trigger] parts@[j])@ == signature_text(v@[j]),
                decreases v@.len() - i,
            {
                proof {
                    vstd::std_specs::vec::axiom_vec_index_decreases(*v, i as int);
                    assert(t.types->0 == *v);
                }
                parts.push(type_signature(&v[i]));
                i = i + 1;
            }
            proof {
                assert(t.types->0 == *v);
                assert(texts(parts) =~= element_signatures(*v));
            }
            String::from_str("[").concat(join(&parts, ", ").as_str()).concat("]")
        },
    }
}

/// The signature of a result type, `void` where there is none.
pub fn return_type_signature(return_type: &Option<ReturnType>) -> (r: String)
    requires
        *return_type matches Some(t) ==> t.well_formed(),
    ensures
        r@ == return_signature_text(*return_type),
{
    match return_type {
        Some(t) => type_signature(t),
        None => String::from_str("void"),
    }
}

fn wrap_call(head: &str, input: &String) -> (r: String)
    ensures
        r@ == head@ + input@ + ")"@,
{
    String::from_str(head).concat(input.as_str()).concat(")")
}

fn type_decoder(t: &ReturnType, input: String) -> (r: String)
    requires
        t.well_formed(),
    ensures
        r@ == decoder_text(*t, input@),
    decreases t,
{
    match t.code {
        Code::String => wrap_call("encoding.decodeString(this.conn, ", &input),
        Code::Bool => wrap_call("encoding.decodeBool(this.conn, ", &input),
        Code::Float => wrap_call("encoding.decodeFloat(this.conn, ", &input),
        Code::Double => wrap_call("encoding.decodeDouble(this.conn, ", &input),
        Code::Sint32 => wrap_call("encoding.decodeSint32(this.conn, ", &input),
        Code::Uint32 => wrap_call("encoding.decodeUint32(this.conn, ", &input),
        Code::Enumeration => wrap_call("encoding.decodeEnum(this.conn, ", &input),
        Code::List => {
            let v = t.types.as_ref().unwrap();
            proof {
                vstd::std_specs::vec::axiom_vec_index_decreases(*v, 0);
            }
            let item = type_decoder(&v[0], String::from_str("item"));
            String::from_str("list.map((item) => { return ").concat(item.as_str()).concat("})")
        },
        Code::SetOf => {
            let v = t.types.as_ref().unwrap();
            proof {
                vstd::std_specs::vec::axiom_vec_index_decreases(*v, 0);
            }
            let item = type_decoder(&v[0], String::from_str("item"));
            String::from_str("new Set(set.map((item) => { return ").concat(item.as_str()).concat(
                "}))",
            )
        },
        Code::Dictionary => {
            let v = t.types.as_ref().unwrap();
            proof {
                vstd::std_specs::vec::axiom_vec_index_decreases(*v, 0);
                vstd::std_specs::vec::axiom_vec_index_decreases(*v, 1);
            }
            let signature = type_signature(t);
            let key = type_decoder(&v[0], String::from_str("item.key"));
            let value = type_decoder(&v[1], String::from_str("item.value"));
            String::from_str("dict.reduce((obj: ").concat(signature.as_str()).concat(
                ", item) => { const key = ",
            ).concat(key.as_str()).concat("; const value = ").concat(value.as_str()).concat(
                "; obj[key] = value; return obj;}, {})",
            )
        },
        Code::Tuple => {
            let v = t.types.as_ref().unwrap();
            let mut parts: Vec<String> = Vec::new();
            let mut i: usize = 0;
            while i < v.len()
                invariant
                    i <= v@.len(),
                    t.types == Some(*v),
                    t.well_formed(),
                    t.code is Tuple,
                    parts@.len() == i,
                    forall|j: int|
                        0 <= j < i ==> (#[trigger] parts@[j])@ == decoder_text(v@[j], tuple_slot(j)),
                decreases v@.len() - i,
            {
                proof {
                    vstd::std_specs::vec::axiom_vec_index_decreases(*v, i as int);
                    assert(t.types->0 == *v);
                }
                let slot = String::from_str("tuple[").concat(decimal(i).as_str()).concat("]");
                parts.push(type_decoder(&v[i], slot));
                i = i + 1;
            }
            proof {
                assert(t.types->0 == *v);
                assert(texts(parts) =~= element_decoders(*v));
            }
            String::from_str("[").concat(join(&parts, ", ").as_str()).concat("]")
        },
        Code::Class => t.name.as_ref().unwrap().clone().concat(".decode(this.conn, ").concat(
            input.as_str(),
        ).concat(")"),
    }
}

/// The expression that decodes the result from `input`, `undefined` where
/// there is no result.
pub fn decoder_function(return_type: &Option<ReturnType>, input: String) -> (r: String)
    requires
        *return_type matches Some(t) ==> t.well_formed(),
    ensures
        r@ == return_decoder_text(*return_type, input@),
{
    match return_type {
        Some(t) => type_decoder(t, input),
        None => String::from_str("undefined"),
    }
}

/// The signature of a result type, or nothing where the type, at whatever
/// depth, lacks a part that its tag calls for.
pub fn try_return_type_signature(return_type: &Option<ReturnType>) -> (r: Option<String>)
    ensures
        r is Some <==> (*return_type matches Some(t) ==> t.well_formed()),
        r matches Some(s) ==> s@ == return_signature_text(*return_type),
        forall|path: Seq<int>|
            (return_type is Some && (#[trigger] return_type->0.at_path(path)) is Some
                && return_type->0.at_path(path)->0.lacks_parts()) ==> r is None,
{
    proof {
        assert forall|path: Seq<int>|
            (return_type is Some && (#[trigger] return_type->0.at_path(path)) is Some
                && return_type->0.at_path(path)->0.lacks_parts()) implies !return_type->0.well_formed() by {
            if return_type->0.well_formed() {
                lemma_well_formed_at_every_depth(return_type->0, path);
            }
        }
    }
    let sound = match return_type {
        Some(t) => t.is_well_formed(),
        None => true,
    };
    if sound {
        Some(return_type_signature(return_type))
    } else {
        None
    }
}

/// The expression that decodes the result from `input`, or nothing where
/// the type, at whatever depth, lacks a part that its tag calls for.
pub fn try_decoder_function(return_type: &Option<ReturnType>, input: String) -> (r: Option<String>)
    ensures
        r is Some <==> (*return_type matches Some(t) ==> t.well_formed()),
        r matches Some(s) ==> s@ == return_decoder_text(*return_type, input@),
        forall|path: Seq<int>|
            (return_type is Some && (#[trigger] return_type->0.at_path(path)) is Some
                && return_type->0.at_path(path)->0.lacks_parts()) ==> r is None,
{
    proof {
        assert forall|path: Seq<int>|
            (return_type is Some && (#[trigger] return_type->0.at_path(path)) is Some
                && return_type->0.at_path(path)->0.lacks_parts()) implies !return_type->0.well_formed() by {
            if return_type->0.well_formed() {
                lemma_well_formed_at_every_depth(return_type->0, path);
            }
        }
    }
    let sound = match return_type {
        Some(t) => t.is_well_formed(),
        None => true,
    };
    if sound {
        Some(decoder_function(return_type, input))
    } else {
        None
    }
}

/// The statement that prepares a composite result before it is decoded.
pub fn before_return(return_type: &Option<ReturnType>) -> (r: String)
    requires
        *return_type matches Some(t) ==> t.code is SetOf ==> t.well_formed(),
    ensures
        r@ == before_return_text(*return_type),
{
    match return_type {
        Some(t) => match t.code {
            Code::List => String::from_str(
                "const list = encoding.decodeList(this.conn, result.value).items;",
            ),
            Code::SetOf => {
                let v = t.types.as_ref().unwrap();
                let signature = type_signature(t);
                let item = type_decoder(&v[0], String::from_str("item"));
                String::from_str("const set: ").concat(signature.as_str()).concat(
                    " = new Set(); encoding.decodeSet(this.conn, result.value).items.forEach((item) => { set.add(",
                ).concat(item.as_str()).concat(");});")
            },
            Code::Tuple => String::from_str(
                "const tuple = encoding.decodeTuple(this.conn, result.value).items;",
            ),
            Code::Dictionary => String::from_str(
                "const dict = encoding.decodeDict(this.conn, result.value).entries;",
            ),
            _ => String::new(),
        },
        None => String::new(),
    }
}

/// The expression that the generated function returns.
pub fn return_value(procedure: &Procedure, is_static: bool) -> (r: String)
    requires
        procedure.return_type matches Some(t) ==> t.code is Class ==> t.name is Some,
    ensures
        r@ == return_value_text(procedure.return_type, is_static),
{
    match &procedure.return_type {
        Some(t) => match t.code {
            Code::Class => t.name.as_ref().unwrap().clone().concat(
                "{id: return_value, conn: ",
            ).concat(
                if is_static {
                    "&conn"
                } else {
                    "&self.conn"
                },
            ).concat("}"),
            _ => String::from_str("return_value"),
        },
        None => String::from_str("()"),
    }
}

/// The signature of a parameter type.
pub fn argument_type(argument: &Type) -> (r: String)
    requires
        argument.well_formed(),
    ensures
        r@ == argument_type_text(*argument),
    decreases argument,
{
    match argument.code {
        Code::String => String::from_str("string"),
        Code::Bool => String::from_str("boolean"),
        Code::Float | Code::Double | Code::Sint32 | Code::Uint32 => String::from_str("number"),
        Code::Enumeration | Code::Class => argument.name.as_ref().unwrap().clone(),
        Code::List => {
            let v = argument.types.as_ref().unwrap();
            proof {
                vstd::std_specs::vec::axiom_vec_index_decreases(*v, 0);
            }
            argument_type(&v[0]).concat("[]")
        },
        Code::Dictionary => {
            let v = argument.types.as_ref().unwrap();
            proof {
                vstd::std_specs::vec::axiom_vec_index_decreases(*v, 0);
                vstd::std_specs::vec::axiom_vec_index_decreases(*v, 1);
            }
            let key = argument_type(&v[0]);
            let value = argument_type(&v[1]);
            String::from_str("Record<").concat(key.as_str()).concat(", ").concat(
                value.as_str(),
            ).concat(">")
        },
        Code::SetOf => {
            let v = argument.types.as_ref().unwrap();
            proof {
                vstd::std_specs::vec::axiom_vec_index_decreases(*v, 0);
            }
            String::from_str("Set<").concat(argument_type(&v[0]).as_str()).concat(">")
        },
        Code::Tuple => {
            let v = argument.types.as_ref().unwrap();
            let mut parts: Vec<String> = Vec::new();
            let mut i: usize = 0;
            while i < v.len()
                invariant
                    i <= v@.len(),
                    argument.types == Some(*v),
                    argument.well_formed(),
                    argument.code is Tuple,
                    parts@.len() == i,
                    forall|j: int|
                        0 <= j < i ==> (#[trigger] parts@[j])@ == argument_type_text(v@[j]),
                decreases v@.len() - i,
            {
                proof {
                    vstd::std_specs::vec::axiom_vec_index_decreases(*v, i as int);
                    assert(argument.types->0 == *v);
                }
                parts.push(argument_type(&v[i]));
                i = i + 1;
            }
            proof {
                assert(argument.types->0 == *v);
                assert(texts(parts) =~= element_argument_types(*v));
            }
            String::from_str("[").concat(join(&parts, ", ").as_str()).concat("]")
        },
    }
}

/// The signature of a parameter type, or nothing where the type, at
/// whatever depth, lacks a part that its tag calls for.
pub fn try_argument_type(argument: &Type) -> (r: Option<String>)
    ensures
        r is Some <==> argument.well_formed(),
        r matches Some(s) ==> s@ == argument_type_text(*argument),
{
    if argument.is_well_formed() {
        Some(argument_type(argument))
    } else {
        None
    }
}

/// Whether the parameter is the receiver.
pub fn names_receiver(parameter: &Parameter) -> (r: bool)
    ensures
        r == is_receiver(*parameter),
{
    same_text(&parameter.name, "this")
}

/// Decides `procedure_well_formed`.
pub fn is_procedure_well_formed(procedure: &Procedure) -> (r: bool)
    ensures
        r == procedure_well_formed(*procedure),
{
    let mut i: usize = 0;
    while i < procedure.parameters.len()
        invariant
            i <= procedure.parameters@.len(),
            forall|j: int| 0 <= j < i ==> parameter_well_formed(#[trigger] procedure.parameters@[j]),
        decreases procedure.parameters@.len() - i,
    {
        let p = &procedure.parameters[i];
        if !names_receiver(p) && !p.ty.is_well_formed() {
            return false;
        }
        i = i + 1;
    }
    match &procedure.return_type {
        Some(t) => t.is_well_formed(),
        None => true,
    }
}

/// The visible argument list of a procedure: `name: type` for each
/// parameter but the receiver, joined with commas.
pub fn arguments_signature(procedure: &Procedure, is_static: bool) -> (r: String)
    requires
        parameters_well_formed(*procedure),
    ensures
        r@ == arguments_signature_text(*procedure),
{
    let mut parts: Vec<String> = Vec::new();
    let mut i: usize = 0;
    while i < procedure.parameters.len()
        invariant
            i <= procedure.parameters@.len(),
            parameters_well_formed(*procedure),
            texts(parts) == visible_parameters(procedure.parameters@.take(i as int)),
        decreases procedure.parameters@.len() - i,
    {
        let p = &procedure.parameters[i];
        proof {
            let ps = procedure.parameters@;
            assert(ps.take(i + 1).drop_last() =~= ps.take(i as int));
            assert(ps.take(i + 1).last() == ps[i as int]);
        }
        if !names_receiver(p) {
            let ghost before = texts(parts);
            let entry = to_case(p.name.as_str(), false).concat(": ").concat(
                argument_type(&p.ty).as_str(),
            );
            parts.push(entry);
            assert(texts(parts) =~= before.push(entry@));
        }
        i = i + 1;
    }
    proof {
        let ps = procedure.parameters@;
        assert(ps.take(ps.len() as int) =~= ps);
    }
    join(&parts, ", ")
}

/// The function that encodes an argument of the type with tag `code`.
pub fn encoder_function(code: Code) -> (r: String)
    ensures
        r@ == encoder_text(code),
{
    match code {
        Code::String => String::from_str("encoding.encodeString"),
        Code::Bool => String::from_str("encoding.encodeBool"),
        Code::Float => String::from_str("encoding.encodeFloat"),
        Code::Double => String::from_str("encoding.encodeDouble"),
        Code::Sint32 => String::from_str("encoding.encodeSint32"),
        Code::Uint32 => String::from_str("encoding.encodeUint32"),
        Code::Enumeration => String::from_str("encoding.encodeVarint64"),
        Code::List => String::from_str("encoding.encodeList"),
        Code::Dictionary => String::from_str("encoding.encodeDict"),
        Code::SetOf => String::from_str("encoding.encodeSet"),
        Code::Tuple => String::from_str("encoding.encodeTuple"),
        Code::Class => String::from_str("encoding.encodeVarint64"),
    }
}

/// How one parameter is encoded at `position`.
pub fn convert_single_argument(parameter: &Parameter, position: u64) -> (r: Argument)
    ensures
        r@ == argument_of(*parameter, position),
{
    if names_receiver(parameter) {
        return Argument {
            position: 0,
            encoder_function: String::from_str("encoding.encodeVarint64"),
            value: String::from_str("this.id"),
        };
    }
    let name = to_case(parameter.name.as_str(), false);
    let value = match parameter.ty.code {
        Code::Class => name.concat(".id"),
        Code::Enumeration => String::from_str("Long.fromInt(").concat(name.as_str()).concat(
            ".valueOf())",
        ),
        _ => name,
    };
    Argument { position, encoder_function: encoder_function(parameter.ty.code), value }
}

/// How the parameters of a procedure are encoded, each at its place.
pub fn convert_arguments(procedure: &Procedure) -> (r: Vec<Argument>)
    ensures
        argument_views(r) == arguments_of(*procedure),
{
    let mut arguments: Vec<Argument> = Vec::new();
    let mut position: u64 = 0;
    let mut i: usize = 0;
    while i < procedure.parameters.len()
        invariant
            i <= procedure.parameters@.len(),
            position == i,
            arguments@.len() == i,
            forall|j: int|
                0 <= j < i ==> (#[trigger] arguments@[j])@ == argument_of(
                    procedure.parameters@[j],
                    j as u64,
                ),
        decreases procedure.parameters@.len() - i,
    {
        arguments.push(convert_single_argument(&procedure.parameters[i], position));
        position = position + 1;
        i = i + 1;
    }
    assert(argument_views(arguments) =~= arguments_of(*procedure));
    arguments
}

} // verus!
