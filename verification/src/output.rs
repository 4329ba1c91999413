//! The records that a renderer is handed: methods with their encoders and
//! decoders, grouped by role and by class, and the enumerations.

use vstd::prelude::*;

verus! {

/// How one argument of a call is encoded.
#[derive(Debug, Clone, Default, PartialEq, Eq, PartialOrd, Ord)]
pub struct Argument {
    pub position: u64,
    pub encoder_function: String,
    pub value: String,
}

/// One method, ready to be rendered.
#[derive(Debug, Clone, Default, PartialEq, Eq, PartialOrd, Ord)]
pub struct Method {
    pub id: u64,
    pub procedure: String,
    pub name: String,
    pub arguments_signature: String,
    pub arguments: Vec<Argument>,
    pub decoder_function: String,
    pub before_return: String,
    pub return_type_signature: String,
    pub return_value: String,
}

/// The methods that belong to one class.
#[derive(Debug, Clone, Default, PartialEq, Eq)]
pub struct Class {
    pub name: String,
    pub methods: Vec<Method>,
    pub getters_setters: Vec<Method>,
    pub static_methods: Vec<Method>,
}

/// One member of an enumeration.
#[derive(Debug, Clone, Default, PartialEq, Eq)]
pub struct EnumerationValue {
    pub id: u64,
    pub name: String,
}

/// One enumeration with its members in declared order.
#[derive(Debug, Clone, Default, PartialEq, Eq)]
pub struct Enumeration {
    pub name: String,
    pub values: Vec<EnumerationValue>,
}

/// Everything that is rendered for one service. `classes` holds one record
/// per declared class, in the order of the declarations.
#[derive(Debug, Clone, Default, PartialEq, Eq)]
pub struct OutputStructure {
    pub methods: Vec<Method>,
    pub getters_setters: Vec<Method>,
    pub classes: Vec<Class>,
    pub enumerations: Vec<Enumeration>,
}

/// An argument as plain values.
pub struct ArgumentView {
    pub position: u64,
    pub encoder_function: Seq<char>,
    pub value: Seq<char>,
}

/// A method as plain values.
pub struct MethodView {
    pub id: u64,
    pub procedure: Seq<char>,
    pub name: Seq<char>,
    pub arguments_signature: Seq<char>,
    pub arguments: Seq<ArgumentView>,
    pub decoder_function: Seq<char>,
    pub before_return: Seq<char>,
    pub return_type_signature: Seq<char>,
    pub return_value: Seq<char>,
}

/// A class record as plain values.
pub struct ClassView {
    pub name: Seq<char>,
    pub methods: Seq<MethodView>,
    pub getters_setters: Seq<MethodView>,
    pub static_methods: Seq<MethodView>,
}

/// A member of an enumeration as plain values.
pub struct EnumerationValueView {
    pub id: u64,
    pub name: Seq<char>,
}

/// An enumeration as plain values.
pub struct EnumerationView {
    pub name: Seq<char>,
    pub values: Seq<EnumerationValueView>,
}

/// Everything that is rendered, as plain values.
pub struct OutputView {
    pub methods: Seq<MethodView>,
    pub getters_setters: Seq<MethodView>,
    pub classes: Seq<ClassView>,
    pub enumerations: Seq<EnumerationView>,
}

impl View for Argument {
    type V = ArgumentView;

    open spec fn view(&self) -> ArgumentView {
        ArgumentView {
            position: self.position,
            encoder_function: self.encoder_function@,
            value: self.value@,
        }
    }
}

/// The views of a list of arguments.
pub open spec fn argument_views(v: Vec<Argument>) -> Seq<ArgumentView> {
    Seq::new(v@.len(), |i: int| v@[i]@)
}

impl View for Method {
    type V = MethodView;

    open spec fn view(&self) -> MethodView {
        MethodView {
            id: self.id,
            procedure: self.procedure@,
            name: self.name@,
            arguments_signature: self.arguments_signature@,
            arguments: argument_views(self.arguments),
            decoder_function: self.decoder_function@,
            before_return: self.before_return@,
            return_type_signature: self.return_type_signature@,
            return_value: self.return_value@,
        }
    }
}

/// The views of a list of methods.
pub open spec fn method_views(v: Vec<Method>) -> Seq<MethodView> {
    Seq::new(v@.len(), |i: int| v@[i]@)
}

impl View for Class {
    type V = ClassView;

    open spec fn view(&self) -> ClassView {
        ClassView {
            name: self.name@,
            methods: method_views(self.methods),
            getters_setters: method_views(self.getters_setters),
            static_methods: method_views(self.static_methods),
        }
    }
}

/// The views of a list of classes.
pub open spec fn class_views(v: Vec<Class>) -> Seq<ClassView> {
    Seq::new(v@.len(), |i: int| v@[i]@)
}

impl View for EnumerationValue {
    type V = EnumerationValueView;

    open spec fn view(&self) -> EnumerationValueView {
        EnumerationValueView { id: self.id, name: self.name@ }
    }
}

/// The views of a list of enumeration members.
pub open spec fn value_views(v: Vec<EnumerationValue>) -> Seq<EnumerationValueView> {
    Seq::new(v@.len(), |i: int| v@[i]@)
}

impl View for Enumeration {
    type V = EnumerationView;

    open spec fn view(&self) -> EnumerationView {
        EnumerationView { name: self.name@, values: value_views(self.values) }
    }
}

/// The views of a list of enumerations.
pub open spec fn enumeration_views(v: Vec<Enumeration>) -> Seq<EnumerationView> {
    Seq::new(v@.len(), |i: int| v@[i]@)
}

impl View for OutputStructure {
    type V = OutputView;

    open spec fn view(&self) -> OutputView {
        OutputView {
            methods: method_views(self.methods),
            getters_setters: method_views(self.getters_setters),
            classes: class_views(self.classes),
            enumerations: enumeration_views(self.enumerations),
        }
    }
}

} // verus!
