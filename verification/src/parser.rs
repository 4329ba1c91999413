//! From the description of a service to the records that are rendered:
//! every procedure is classified by its name, turned into a record and put on
//! the list of its role or of its class, and every list is sorted.

use crate::classify::ParsedMethod;
use crate::classify::ProcedureType;
use crate::classify::ProcedureTypeView;
use crate::classify::get_procedure_type;
use crate::classify::lemma_role_is_known;
use crate::classify::lemma_role_keeps_the_name;
use crate::classify::procedure_role;
use crate::mapper::arguments_of;
use crate::mapper::arguments_signature;
use crate::mapper::arguments_signature_text;
use crate::mapper::before_return;
use crate::mapper::before_return_text;
use crate::mapper::convert_arguments;
use crate::mapper::decoder_function;
use crate::mapper::is_procedure_well_formed;
use crate::mapper::is_receiver;
use crate::mapper::parameter_well_formed;
use crate::mapper::procedure_well_formed;
use crate::mapper::return_decoder_text;
use crate::mapper::return_signature_text;
use crate::mapper::return_type_signature;
use crate::mapper::return_value;
use crate::mapper::return_value_text;
use crate::order::ascending;
use crate::order::lemma_ordered;
use crate::order::lemma_ordered_contains;
use crate::order::lemma_ordered_of_rearranged;
use crate::order::ordered;
use crate::order::sort_methods;
use crate::output::Class;
use crate::output::ClassView;
use crate::output::Enumeration;
use crate::output::EnumerationValue;
use crate::output::EnumerationValueView;
use crate::output::EnumerationView;
use crate::output::Method;
use crate::output::MethodView;
use crate::output::OutputStructure;
use crate::output::OutputView;
use crate::output::class_views;
use crate::output::enumeration_views;
use crate::output::method_views;
use crate::output::value_views;
use crate::schema;
use crate::schema::Content;
use crate::shape::has_line_break;
use crate::schema::entry_names;
use crate::schema::first_repeated;
use crate::schema::is_first_repeat;
use crate::schema::lemma_first_repeat_is_unique;
use crate::schema::lemma_parameter_type_well_formed_at_every_depth;
use crate::schema::lemma_well_formed_at_every_depth;
use crate::schema::Procedure;
use crate::text::recased;
use crate::text::same_text;
use vstd::multiset::Multiset;
use vstd::prelude::*;
use vstd::string::StringExecFns;

verus! {

/// The lists that a record can be put on: two of the service, three of each
/// class.
#[derive(Debug, Clone, Copy, PartialEq, Eq, Structural)]
pub enum Bucket {
    ServiceMethods,
    ServiceAccessors,
    ClassMethods,
    ClassAccessors,
    ClassStatics,
}

/// Why a description cannot be built.
#[derive(Debug, Clone, PartialEq, Eq)]
pub enum SchemaError {
    /// A type of the procedure lacks the nested types or the name that its
    /// tag calls for.
    MalformedType { procedure: String },
    /// The name of the procedure puts it into a class that is not declared.
    UnknownClass { procedure: String, class: String },
    /// Two procedures are listed under this name.
    RepeatedProcedure { name: String },
    /// Two classes are declared under this name.
    RepeatedClass { name: String },
    /// Two enumerations are declared under this name.
    RepeatedEnumeration { name: String },
}

/// A fault as plain values.
pub enum SchemaErrorView {
    MalformedType { procedure: Seq<char> },
    UnknownClass { procedure: Seq<char>, class: Seq<char> },
    RepeatedProcedure { name: Seq<char> },
    RepeatedClass { name: Seq<char> },
    RepeatedEnumeration { name: Seq<char> },
}

impl View for SchemaError {
    type V = SchemaErrorView;

    open spec fn view(&self) -> SchemaErrorView {
        match *self {
            SchemaError::MalformedType { procedure } => SchemaErrorView::MalformedType {
                procedure: procedure@,
            },
            SchemaError::UnknownClass { procedure, class } => SchemaErrorView::UnknownClass {
                procedure: procedure@,
                class: class@,
            },
            SchemaError::RepeatedProcedure { name } => SchemaErrorView::RepeatedProcedure {
                name: name@,
            },
            SchemaError::RepeatedClass { name } => SchemaErrorView::RepeatedClass { name: name@ },
            SchemaError::RepeatedEnumeration { name } => SchemaErrorView::RepeatedEnumeration {
                name: name@,
            },
        }
    }
}

impl SchemaError {
    /// The fault in words, with the name that has it.
    pub open spec fn message_text(self) -> Seq<char> {
        match self {
            SchemaError::MalformedType { procedure } => "procedure "@ + procedure@
                + ": a type lacks its nested types or its name"@,
            SchemaError::UnknownClass { procedure, class } => "procedure "@ + procedure@
                + ": class "@ + class@ + " is not declared"@,
            SchemaError::RepeatedProcedure { name } => "procedure "@ + name@
                + ": listed more than once"@,
            SchemaError::RepeatedClass { name } => "class "@ + name@ + ": declared more than once"@,
            SchemaError::RepeatedEnumeration { name } => "enumeration "@ + name@
                + ": declared more than once"@,
        }
    }

    /// The fault in words, with the name that has it.
    pub fn message(&self) -> (r: String)
        ensures
            r@ == self.message_text(),
    {
        match self {
            SchemaError::MalformedType { procedure } => String::from_str("procedure ").concat(
                procedure.as_str(),
            ).concat(": a type lacks its nested types or its name"),
            SchemaError::UnknownClass { procedure, class } => String::from_str(
                "procedure ",
            ).concat(procedure.as_str()).concat(": class ").concat(class.as_str()).concat(
                " is not declared",
            ),
            SchemaError::RepeatedProcedure { name } => String::from_str("procedure ").concat(
                name.as_str(),
            ).concat(": listed more than once"),
            SchemaError::RepeatedClass { name } => String::from_str("class ").concat(
                name.as_str(),
            ).concat(": declared more than once"),
            SchemaError::RepeatedEnumeration { name } => String::from_str("enumeration ").concat(
                name.as_str(),
            ).concat(": declared more than once"),
        }
    }
}

/// The class that a role belongs to, none for a role of the service.
pub open spec fn role_class(role: ProcedureTypeView) -> Option<Seq<char>> {
    match role {
        ProcedureTypeView::ClassMethod(x) => Some(x.class),
        ProcedureTypeView::StaticClassMethod(x) => Some(x.class),
        ProcedureTypeView::ClassPropertyGetter(x) => Some(x.class),
        ProcedureTypeView::ClassPropertySetter(x) => Some(x.class),
        _ => None,
    }
}

/// The list that a role is put on, none for an unknown role.
pub open spec fn role_bucket(role: ProcedureTypeView) -> Option<Bucket> {
    match role {
        ProcedureTypeView::Standard(_) => Some(Bucket::ServiceMethods),
        ProcedureTypeView::PropertyGetter(_) => Some(Bucket::ServiceAccessors),
        ProcedureTypeView::PropertySetter(_) => Some(Bucket::ServiceAccessors),
        ProcedureTypeView::ClassMethod(_) => Some(Bucket::ClassMethods),
        ProcedureTypeView::StaticClassMethod(_) => Some(Bucket::ClassStatics),
        ProcedureTypeView::ClassPropertyGetter(_) => Some(Bucket::ClassAccessors),
        ProcedureTypeView::ClassPropertySetter(_) => Some(Bucket::ClassAccessors),
        ProcedureTypeView::Unknown => None,
    }
}

/// Whether a role is put on the list `bucket` of the class `class`. For the
/// lists of the service the class plays no part.
pub open spec fn lands_in(role: ProcedureTypeView, bucket: Bucket, class: Seq<char>) -> bool {
    &&& role_bucket(role) == Some(bucket)
    &&& role_class(role) matches Some(c) ==> c == class
}

/// The procedure name that a role was read from.
pub open spec fn role_procedure_text(role: ProcedureTypeView) -> Seq<char> {
    match role {
        ProcedureTypeView::Standard(x) => x.procedure,
        ProcedureTypeView::PropertyGetter(x) => x.procedure,
        ProcedureTypeView::PropertySetter(x) => x.procedure,
        ProcedureTypeView::ClassMethod(x) => x.procedure,
        ProcedureTypeView::StaticClassMethod(x) => x.procedure,
        ProcedureTypeView::ClassPropertyGetter(x) => x.procedure,
        ProcedureTypeView::ClassPropertySetter(x) => x.procedure,
        ProcedureTypeView::Unknown => Seq::empty(),
    }
}

/// The name of the function that is generated for a role: the method name
/// in camel case, or the prefix followed by the property in upper camel case.
pub open spec fn role_function_text(role: ProcedureTypeView) -> Seq<char> {
    match role {
        ProcedureTypeView::Standard(x) => recased(x.name, false),
        ProcedureTypeView::PropertyGetter(x) => x.prefix + recased(x.name, true),
        ProcedureTypeView::PropertySetter(x) => x.prefix + recased(x.name, true),
        ProcedureTypeView::ClassMethod(x) => recased(x.method, false),
        ProcedureTypeView::StaticClassMethod(x) => recased(x.method, false),
        ProcedureTypeView::ClassPropertyGetter(x) => x.prefix + recased(x.property, true),
        ProcedureTypeView::ClassPropertySetter(x) => x.prefix + recased(x.property, true),
        ProcedureTypeView::Unknown => Seq::empty(),
    }
}

/// The record of a procedure under the given names. The id is kept as it
/// is; the result is decoded from `result.value`.
pub open spec fn record_of(
    procedure_text: Seq<char>,
    function_text: Seq<char>,
    p: Procedure,
    is_static: bool,
) -> MethodView {
    MethodView {
        id: p.id,
        procedure: procedure_text,
        name: function_text,
        arguments_signature: arguments_signature_text(p),
        arguments: arguments_of(p),
        decoder_function: return_decoder_text(p.return_type, "result.value"@),
        before_return: before_return_text(p.return_type),
        return_type_signature: return_signature_text(p.return_type),
        return_value: return_value_text(p.return_type, is_static),
    }
}

/// The record of a procedure with the given role.
pub open spec fn role_record(role: ProcedureTypeView, p: Procedure) -> MethodView {
    record_of(
        role_procedure_text(role),
        role_function_text(role),
        p,
        role is StaticClassMethod,
    )
}

/// The records of the procedures that land on one list, in the order of the
/// procedures.
pub open spec fn collected(entries: Seq<(String, Procedure)>, bucket: Bucket, class: Seq<char>) -> Seq<
    MethodView,
>
    decreases entries.len(),
{
    if entries.len() == 0 {
        Seq::empty()
    } else {
        let rest = collected(entries.drop_last(), bucket, class);
        let role = procedure_role(entries.last().0@);
        if lands_in(role, bucket, class) {
            rest.push(role_record(role, entries.last().1))
        } else {
            rest
        }
    }
}

/// The record of the class `name`: its three lists, each sorted.
pub open spec fn class_record(entries: Seq<(String, Procedure)>, name: Seq<char>) -> ClassView {
    ClassView {
        name,
        methods: ordered(collected(entries, Bucket::ClassMethods, name)),
        getters_setters: ordered(collected(entries, Bucket::ClassAccessors, name)),
        static_methods: ordered(collected(entries, Bucket::ClassStatics, name)),
    }
}

/// The record of an enumeration: every member with its declared value, in
/// declared order.
pub open spec fn enumeration_record(name: Seq<char>, e: schema::Enumeration) -> EnumerationView {
    EnumerationView {
        name,
        values: Seq::new(
            e.values@.len(),
            |i: int| EnumerationValueView { id: e.values@[i].value, name: e.values@[i].name@ },
        ),
    }
}

/// What is built from a description: the two sorted lists of the service,
/// one record for each declared class and one for each enumeration, both in
/// the order of the declarations.
pub open spec fn output_of(input: Content) -> OutputView {
    OutputView {
        methods: ordered(collected(input.procedures@, Bucket::ServiceMethods, Seq::empty())),
        getters_setters: ordered(
            collected(input.procedures@, Bucket::ServiceAccessors, Seq::empty()),
        ),
        classes: Seq::new(
            input.classes@.len(),
            |i: int| class_record(input.procedures@, input.classes@[i].0@),
        ),
        enumerations: Seq::new(
            input.enumerations@.len(),
            |i: int| enumeration_record(input.enumerations@[i].0@, input.enumerations@[i].1),
        ),
    }
}

/// Whether a class of this name is declared.
pub open spec fn class_declared(classes: Seq<(String, schema::Class)>, name: Seq<char>) -> bool {
    exists|j: int| 0 <= j < classes.len() && (#[trigger] classes[j]).0@ == name
}

/// What is wrong with the procedure at `i`, if anything: a malformed type,
/// or a name that puts it into a class that is not declared.
pub open spec fn fault_at(input: Content, i: int) -> Option<SchemaErrorView> {
    let name = input.procedures@[i].0@;
    if !procedure_well_formed(input.procedures@[i].1) {
        Some(SchemaErrorView::MalformedType { procedure: name })
    } else {
        match role_class(procedure_role(name)) {
            Some(class) => if class_declared(input.classes@, class) {
                None
            } else {
                Some(SchemaErrorView::UnknownClass { procedure: name, class })
            },
            None => None,
        }
    }
}

/// Whether the types of every procedure are well formed.
pub open spec fn procedures_well_formed(input: Content) -> bool {
    forall|i: int|
        0 <= i < input.procedures@.len() ==> procedure_well_formed(
            (#[trigger] input.procedures@[i]).1,
        )
}

/// A description can be built where every name is listed once and no
/// procedure has a fault.
pub open spec fn schema_sound(input: Content) -> bool {
    &&& input.names_distinct()
    &&& forall|i: int| 0 <= i < input.procedures@.len() ==> fault_at(input, i) is None
}

/// Whether `e` is the fault of the first procedure that has one.
pub open spec fn is_first_procedure_fault(input: Content, e: SchemaErrorView) -> bool {
    exists|i: int|
        0 <= i < input.procedures@.len() && #[trigger] fault_at(input, i) == Some(e) && forall|
            j: int,
        |
            0 <= j < i ==> fault_at(input, j) is None
}

/// Whether `name` is the first of `names` that has occurred before.
pub open spec fn is_first_repeated(names: Seq<Seq<char>>, name: Seq<char>) -> bool {
    exists|j: int| #[trigger] is_first_repeat(names, j) && names[j] == name
}

/// Whether `e` is the fault that stands first in a description: a repeated
/// name among the procedures, then among the classes, then among the
/// enumerations, each the first of its list; then, where every name is
/// listed once, the fault of the first procedure that has one.
pub open spec fn is_first_fault(input: Content, e: SchemaErrorView) -> bool {
    let procedures = entry_names(input.procedures@);
    let classes = entry_names(input.classes@);
    let enumerations = entry_names(input.enumerations@);
    match e {
        SchemaErrorView::RepeatedProcedure { name } => is_first_repeated(procedures, name),
        SchemaErrorView::RepeatedClass { name } => procedures.no_duplicates() && is_first_repeated(
            classes,
            name,
        ),
        SchemaErrorView::RepeatedEnumeration { name } => procedures.no_duplicates()
            && classes.no_duplicates() && is_first_repeated(enumerations, name),
        _ => input.names_distinct() && is_first_procedure_fault(input, e),
    }
}

/// What building a description gives: the records where the description is
/// sound, else the fault that stands first.
pub open spec fn built(input: Content, r: Result<OutputStructure, SchemaError>) -> bool {
    match r {
        Ok(out) => schema_sound(input) && out@ == output_of(input),
        Err(e) => is_first_fault(input, e@),
    }
}

/// A description with a fault is not sound, and its first fault is one
/// fault only.
pub proof fn lemma_first_fault_is_unique(input: Content, a: SchemaErrorView, b: SchemaErrorView)
    requires
        is_first_fault(input, a),
    ensures
        !schema_sound(input),
        is_first_fault(input, b) ==> a == b,
{
    let procedures = entry_names(input.procedures@);
    let classes = entry_names(input.classes@);
    let enumerations = entry_names(input.enumerations@);
    lemma_repeated_is_unique(procedures);
    lemma_repeated_is_unique(classes);
    lemma_repeated_is_unique(enumerations);
    if is_first_procedure_fault(input, a) {
        let i = choose|i: int|
            0 <= i < input.procedures@.len() && #[trigger] fault_at(input, i) == Some(a) && forall|
                j: int,
            |
                0 <= j < i ==> fault_at(input, j) is None;
        assert(fault_at(input, i) is Some);
        if is_first_procedure_fault(input, b) {
            let k = choose|k: int|
                0 <= k < input.procedures@.len() && #[trigger] fault_at(input, k) == Some(b)
                    && forall|j: int| 0 <= j < k ==> fault_at(input, j) is None;
            if i < k {
                assert(fault_at(input, i) is None);
            }
            if k < i {
                assert(fault_at(input, k) is None);
            }
        }
    }
}

proof fn lemma_repeated_is_unique(names: Seq<Seq<char>>)
    ensures
        forall|x: Seq<char>| #[trigger] is_first_repeated(names, x) ==> !names.no_duplicates(),
        forall|x: Seq<char>, y: Seq<char>|
            #[trigger] is_first_repeated(names, x) && #[trigger] is_first_repeated(names, y) ==> x
                == y,
{
    assert forall|x: Seq<char>| #[trigger] is_first_repeated(names, x) implies !names.no_duplicates() by {
        let j = choose|j: int| #[trigger] is_first_repeat(names, j) && names[j] == x;
        lemma_first_repeat_is_unique(names, j, j);
    }
    assert forall|x: Seq<char>, y: Seq<char>|
        #[trigger] is_first_repeated(names, x) && #[trigger] is_first_repeated(
            names,
            y,
        ) implies x == y by {
        let j = choose|j: int| #[trigger] is_first_repeat(names, j) && names[j] == x;
        let k = choose|k: int| #[trigger] is_first_repeat(names, k) && names[k] == y;
        lemma_first_repeat_is_unique(names, j, k);
    }
}

/// Building is repeatable: two runs on one description end alike, with
/// equal records or with the same fault.
pub proof fn lemma_building_is_repeatable(
    input: Content,
    first: Result<OutputStructure, SchemaError>,
    second: Result<OutputStructure, SchemaError>,
)
    requires
        built(input, first),
        built(input, second),
    ensures
        first is Ok <==> second is Ok,
        first is Ok ==> first->Ok_0@ == second->Ok_0@,
        first is Err ==> first->Err_0@ == second->Err_0@,
{
    if first is Err {
        lemma_first_fault_is_unique(input, first->Err_0@, first->Err_0@);
        if second is Err {
            lemma_first_fault_is_unique(input, first->Err_0@, second->Err_0@);
        }
    } else if second is Err {
        lemma_first_fault_is_unique(input, second->Err_0@, second->Err_0@);
    }
}

/// A type that lacks a part, at whatever depth of the result type of a
/// procedure, stops the building: no signature and no decoder is made up
/// for it.
pub proof fn lemma_flawed_result_type_is_a_fault(
    input: Content,
    i: int,
    path: Seq<int>,
    r: Result<OutputStructure, SchemaError>,
)
    requires
        0 <= i < input.procedures@.len(),
        input.procedures@[i].1.return_type is Some,
        input.procedures@[i].1.return_type->0.at_path(path) is Some,
        input.procedures@[i].1.return_type->0.at_path(path)->0.lacks_parts(),
        built(input, r),
    ensures
        !procedure_well_formed(input.procedures@[i].1),
        r is Err,
{
    let t = input.procedures@[i].1.return_type->0;
    if t.well_formed() {
        lemma_well_formed_at_every_depth(t, path);
    }
    assert(fault_at(input, i) is Some);
}

/// A type that lacks a part, at whatever depth of the type of a parameter
/// other than the receiver, stops the building as well.
pub proof fn lemma_flawed_parameter_type_is_a_fault(
    input: Content,
    i: int,
    k: int,
    path: Seq<int>,
    r: Result<OutputStructure, SchemaError>,
)
    requires
        0 <= i < input.procedures@.len(),
        0 <= k < input.procedures@[i].1.parameters@.len(),
        !is_receiver(input.procedures@[i].1.parameters@[k]),
        input.procedures@[i].1.parameters@[k].ty.at_path(path) is Some,
        input.procedures@[i].1.parameters@[k].ty.at_path(path)->0.lacks_parts(),
        built(input, r),
    ensures
        !procedure_well_formed(input.procedures@[i].1),
        r is Err,
{
    let p = input.procedures@[i].1.parameters@[k];
    if p.ty.well_formed() {
        lemma_parameter_type_well_formed_at_every_depth(p.ty, path);
    }
    assert(!parameter_well_formed(p));
    assert(fault_at(input, i) is Some);
}

/// In a sound description every class has one record, under a name that no
/// other record has.
pub proof fn lemma_class_records_are_distinct(input: Content, i: int, j: int)
    requires
        input.names_distinct(),
        0 <= i < j < input.classes@.len(),
    ensures
        output_of(input).classes[i].name != output_of(input).classes[j].name,
{
    let names = entry_names(input.classes@);
    assert(names[i] != names[j]);
}

/// Taking one procedure away takes its record off the list that its role
/// lands on, and changes nothing else.
pub proof fn lemma_collected_without(
    entries: Seq<(String, Procedure)>,
    k: int,
    bucket: Bucket,
    class: Seq<char>,
)
    requires
        0 <= k < entries.len(),
    ensures
        collected(entries, bucket, class).to_multiset() == if lands_in(
            procedure_role(entries[k].0@),
            bucket,
            class,
        ) {
            collected(entries.remove(k), bucket, class).to_multiset().insert(
                role_record(procedure_role(entries[k].0@), entries[k].1),
            )
        } else {
            collected(entries.remove(k), bucket, class).to_multiset()
        },
    decreases entries.len(),
{
    let front = entries.drop_last();
    let last_role = procedure_role(entries.last().0@);
    let last_record = role_record(last_role, entries.last().1);
    let rest = collected(front, bucket, class);
    if k == entries.len() - 1 {
        assert(entries.remove(k) =~= front);
        vstd::seq_lib::to_multiset_build(rest, last_record);
    } else {
        lemma_collected_without(front, k, bucket, class);
        let cut = entries.remove(k);
        assert(cut.drop_last() =~= front.remove(k));
        assert(cut.last() == entries.last());
        let cut_rest = collected(front.remove(k), bucket, class);
        vstd::seq_lib::to_multiset_build(rest, last_record);
        vstd::seq_lib::to_multiset_build(cut_rest, last_record);
        let record = role_record(procedure_role(entries[k].0@), entries[k].1);
        assert(cut_rest.to_multiset().insert(record).insert(last_record)
            =~= cut_rest.to_multiset().insert(last_record).insert(record));
    }
}

/// The records collected for a list are the same, each as often, in
/// whatever order the procedures come.
pub proof fn lemma_collected_of_rearranged(
    a: Seq<(String, Procedure)>,
    b: Seq<(String, Procedure)>,
    bucket: Bucket,
    class: Seq<char>,
)
    requires
        a.to_multiset() == b.to_multiset(),
    ensures
        collected(a, bucket, class).to_multiset() == collected(b, bucket, class).to_multiset(),
    decreases a.len(),
{
    vstd::seq_lib::to_multiset_len(a);
    vstd::seq_lib::to_multiset_len(b);
    if a.len() == 0 {
        assert(a =~= b);
    } else {
        let x = a.last();
        let n = a.len() - 1;
        vstd::seq_lib::to_multiset_contains(a, x);
        vstd::seq_lib::to_multiset_contains(b, x);
        assert(a[n] == x);
        assert(a.contains(x));
        let k = choose|k: int| 0 <= k < b.len() && b[k] == x;
        vstd::seq_lib::to_multiset_remove(a, n);
        vstd::seq_lib::to_multiset_remove(b, k);
        assert(a.remove(n) =~= a.drop_last());
        lemma_collected_of_rearranged(a.drop_last(), b.remove(k), bucket, class);
        lemma_collected_without(b, k, bucket, class);
        vstd::seq_lib::to_multiset_build(
            collected(a.drop_last(), bucket, class),
            role_record(procedure_role(x.0@), x.1),
        );
    }
}

/// The order in which the procedures are listed in the description is
/// immaterial: a description with the same procedures in another order
/// gives the same records in the same order.
pub proof fn lemma_order_of_procedures_is_immaterial(a: Content, b: Content)
    requires
        a.procedures@.to_multiset() == b.procedures@.to_multiset(),
        a.classes@ == b.classes@,
        a.enumerations@ == b.enumerations@,
    ensures
        output_of(a) == output_of(b),
{
    let empty = Seq::<char>::empty();
    lemma_collected_of_rearranged(a.procedures@, b.procedures@, Bucket::ServiceMethods, empty);
    lemma_ordered_of_rearranged(
        collected(a.procedures@, Bucket::ServiceMethods, empty),
        collected(b.procedures@, Bucket::ServiceMethods, empty),
    );
    lemma_collected_of_rearranged(a.procedures@, b.procedures@, Bucket::ServiceAccessors, empty);
    lemma_ordered_of_rearranged(
        collected(a.procedures@, Bucket::ServiceAccessors, empty),
        collected(b.procedures@, Bucket::ServiceAccessors, empty),
    );
    assert forall|i: int| 0 <= i < a.classes@.len() implies class_record(
        a.procedures@,
        #[trigger] a.classes@[i].0@,
    ) == class_record(b.procedures@, a.classes@[i].0@) by {
        let name = a.classes@[i].0@;
        lemma_collected_of_rearranged(a.procedures@, b.procedures@, Bucket::ClassMethods, name);
        lemma_ordered_of_rearranged(
            collected(a.procedures@, Bucket::ClassMethods, name),
            collected(b.procedures@, Bucket::ClassMethods, name),
        );
        lemma_collected_of_rearranged(a.procedures@, b.procedures@, Bucket::ClassAccessors, name);
        lemma_ordered_of_rearranged(
            collected(a.procedures@, Bucket::ClassAccessors, name),
            collected(b.procedures@, Bucket::ClassAccessors, name),
        );
        lemma_collected_of_rearranged(a.procedures@, b.procedures@, Bucket::ClassStatics, name);
        lemma_ordered_of_rearranged(
            collected(a.procedures@, Bucket::ClassStatics, name),
            collected(b.procedures@, Bucket::ClassStatics, name),
        );
    }
    assert(output_of(a).classes =~= output_of(b).classes);
    assert(output_of(a).enumerations =~= output_of(b).enumerations);
}

/// Every list that is built is in ascending order.
pub proof fn lemma_lists_are_sorted(input: Content)
    ensures
        ascending(output_of(input).methods),
        ascending(output_of(input).getters_setters),
        forall|i: int|
            0 <= i < input.classes@.len() ==> {
                let class = #[trigger] output_of(input).classes[i];
                &&& ascending(class.methods)
                &&& ascending(class.getters_setters)
                &&& ascending(class.static_methods)
            },
{
    let entries = input.procedures@;
    lemma_ordered(collected(entries, Bucket::ServiceMethods, Seq::empty()));
    lemma_ordered(collected(entries, Bucket::ServiceAccessors, Seq::empty()));
    assert forall|i: int| 0 <= i < input.classes@.len() implies {
        let class = #[trigger] output_of(input).classes[i];
        &&& ascending(class.methods)
        &&& ascending(class.getters_setters)
        &&& ascending(class.static_methods)
    } by {
        let name = input.classes@[i].0@;
        lemma_ordered(collected(entries, Bucket::ClassMethods, name));
        lemma_ordered(collected(entries, Bucket::ClassAccessors, name));
        lemma_ordered(collected(entries, Bucket::ClassStatics, name));
    }
}

/// The record of a procedure is among those collected for the list that
/// its role lands on.
pub proof fn lemma_collected_contains(
    entries: Seq<(String, Procedure)>,
    i: int,
    bucket: Bucket,
    class: Seq<char>,
)
    requires
        0 <= i < entries.len(),
        lands_in(procedure_role(entries[i].0@), bucket, class),
    ensures
        collected(entries, bucket, class).contains(
            role_record(procedure_role(entries[i].0@), entries[i].1),
        ),
    decreases entries.len(),
{
    let x = role_record(procedure_role(entries[i].0@), entries[i].1);
    let rest = collected(entries.drop_last(), bucket, class);
    let all = collected(entries, bucket, class);
    if i == entries.len() - 1 {
        assert(all == rest.push(x));
        assert(all[rest.len() as int] == x);
    } else {
        lemma_collected_contains(entries.drop_last(), i, bucket, class);
        let k = choose|k: int| 0 <= k < rest.len() && rest[k] == x;
        assert(all[k] == x);
    }
}

/// Every record collected for a list is the record of a procedure whose
/// role lands on that list.
pub proof fn lemma_collected_has_a_procedure(
    entries: Seq<(String, Procedure)>,
    bucket: Bucket,
    class: Seq<char>,
    x: MethodView,
) -> (i: int)
    requires
        collected(entries, bucket, class).contains(x),
    ensures
        0 <= i < entries.len(),
        lands_in(procedure_role(entries[i].0@), bucket, class),
        x == role_record(procedure_role(entries[i].0@), entries[i].1),
    decreases entries.len(),
{
    let all = collected(entries, bucket, class);
    let rest = collected(entries.drop_last(), bucket, class);
    let role = procedure_role(entries.last().0@);
    let k = choose|k: int| 0 <= k < all.len() && all[k] == x;
    if lands_in(role, bucket, class) && k == rest.len() {
        entries.len() - 1
    } else {
        assert(rest[k] == x);
        lemma_collected_has_a_procedure(entries.drop_last(), bucket, class, x)
    }
}

/// Nothing is made up: every record on a list of the service is the record
/// of a procedure whose role lands on that list.
pub proof fn lemma_service_records_have_procedures(input: Content, x: MethodView) -> (i: int)
    requires
        output_of(input).methods.contains(x) || output_of(input).getters_setters.contains(x),
    ensures
        0 <= i < input.procedures@.len(),
        x == role_record(procedure_role(input.procedures@[i].0@), input.procedures@[i].1),
        role_class(procedure_role(input.procedures@[i].0@)) is None,
        output_of(input).methods.contains(x) ==> role_bucket(
            procedure_role(input.procedures@[i].0@),
        ) == Some(Bucket::ServiceMethods),
{
    let entries = input.procedures@;
    if output_of(input).methods.contains(x) {
        lemma_ordered_contains(collected(entries, Bucket::ServiceMethods, Seq::empty()), x);
        lemma_collected_has_a_procedure(entries, Bucket::ServiceMethods, Seq::empty(), x)
    } else {
        lemma_ordered_contains(collected(entries, Bucket::ServiceAccessors, Seq::empty()), x);
        lemma_collected_has_a_procedure(entries, Bucket::ServiceAccessors, Seq::empty(), x)
    }
}

/// Nothing is made up: every record on a list of a class is the record of
/// a procedure whose role belongs to that class.
pub proof fn lemma_class_records_have_procedures(input: Content, j: int, x: MethodView) -> (i: int)
    requires
        0 <= j < input.classes@.len(),
        output_of(input).classes[j].methods.contains(x) || output_of(
            input,
        ).classes[j].getters_setters.contains(x) || output_of(
            input,
        ).classes[j].static_methods.contains(x),
    ensures
        0 <= i < input.procedures@.len(),
        x == role_record(procedure_role(input.procedures@[i].0@), input.procedures@[i].1),
        role_class(procedure_role(input.procedures@[i].0@)) == Some(input.classes@[j].0@),
{
    let entries = input.procedures@;
    let name = input.classes@[j].0@;
    let class = output_of(input).classes[j];
    assert(class == class_record(entries, name));
    if class.methods.contains(x) {
        lemma_ordered_contains(collected(entries, Bucket::ClassMethods, name), x);
        lemma_collected_has_a_procedure(entries, Bucket::ClassMethods, name, x)
    } else if class.getters_setters.contains(x) {
        lemma_ordered_contains(collected(entries, Bucket::ClassAccessors, name), x);
        lemma_collected_has_a_procedure(entries, Bucket::ClassAccessors, name, x)
    } else {
        lemma_ordered_contains(collected(entries, Bucket::ClassStatics, name), x);
        lemma_collected_has_a_procedure(entries, Bucket::ClassStatics, name, x)
    }
}

/// Whether every procedure name stands on one line.
pub open spec fn names_on_one_line(input: Content) -> bool {
    forall|i: int|
        0 <= i < input.procedures@.len() ==> !has_line_break((#[trigger] input.procedures@[i]).0@)
}

/// The records of the classes, list after list.
pub open spec fn class_records(classes: Seq<ClassView>) -> Seq<MethodView>
    decreases classes.len(),
{
    if classes.len() == 0 {
        Seq::empty()
    } else {
        class_records(classes.drop_last()) + classes.last().methods
            + classes.last().getters_setters + classes.last().static_methods
    }
}

/// All records that are built, list after list.
pub open spec fn all_records(out: OutputView) -> Seq<MethodView> {
    out.methods + out.getters_setters + class_records(out.classes)
}

/// The record of every procedure, in the order of the procedures.
pub open spec fn procedure_records(entries: Seq<(String, Procedure)>) -> Seq<MethodView> {
    Seq::new(entries.len(), |i: int| role_record(procedure_role(entries[i].0@), entries[i].1))
}

/// The records on the three lists of the classes `names`, as a multiset.
pub open spec fn class_landed(entries: Seq<(String, Procedure)>, names: Seq<Seq<char>>) -> Multiset<
    MethodView,
>
    decreases names.len(),
{
    if names.len() == 0 {
        Multiset::empty()
    } else {
        class_landed(entries, names.drop_last()).add(
            collected(entries, Bucket::ClassMethods, names.last()).to_multiset(),
        ).add(collected(entries, Bucket::ClassAccessors, names.last()).to_multiset()).add(
            collected(entries, Bucket::ClassStatics, names.last()).to_multiset(),
        )
    }
}

proof fn lemma_no_records()
    ensures
        Seq::<MethodView>::empty().to_multiset() == Multiset::<MethodView>::empty(),
{
    let m = Seq::<MethodView>::empty().to_multiset();
    vstd::seq_lib::to_multiset_len(Seq::<MethodView>::empty());
    vstd::multiset::lemma_multiset_empty_len(m);
    assert(m =~= Multiset::<MethodView>::empty());
}

proof fn lemma_collected_step(entries: Seq<(String, Procedure)>, bucket: Bucket, class: Seq<char>)
    requires
        entries.len() > 0,
    ensures
        collected(entries, bucket, class).to_multiset() == if lands_in(
            procedure_role(entries.last().0@),
            bucket,
            class,
        ) {
            collected(entries.drop_last(), bucket, class).to_multiset().insert(
                role_record(procedure_role(entries.last().0@), entries.last().1),
            )
        } else {
            collected(entries.drop_last(), bucket, class).to_multiset()
        },
{
    vstd::seq_lib::to_multiset_build(
        collected(entries.drop_last(), bucket, class),
        role_record(procedure_role(entries.last().0@), entries.last().1),
    );
}

proof fn lemma_class_landed_step(entries: Seq<(String, Procedure)>, names: Seq<Seq<char>>)
    requires
        entries.len() > 0,
        names.no_duplicates(),
    ensures
        ({
            let role = procedure_role(entries.last().0@);
            let x = role_record(role, entries.last().1);
            class_landed(entries, names) == if role_class(role) is Some && names.contains(
                role_class(role)->0,
            ) && !(role is Unknown) {
                class_landed(entries.drop_last(), names).insert(x)
            } else {
                class_landed(entries.drop_last(), names)
            }
        }),
    decreases names.len(),
{
    let role = procedure_role(entries.last().0@);
    let x = role_record(role, entries.last().1);
    let rest = entries.drop_last();
    if names.len() > 0 {
        let front = names.drop_last();
        let n = names.len() - 1;
        let last = names.last();
        assert forall|a: int, b: int| 0 <= a < front.len() && 0 <= b < front.len() && a != b implies front[a]
            != front[b] by {
            assert(names[a] != names[b]);
        }
        lemma_class_landed_step(entries, front);
        lemma_collected_step(entries, Bucket::ClassMethods, last);
        lemma_collected_step(entries, Bucket::ClassAccessors, last);
        lemma_collected_step(entries, Bucket::ClassStatics, last);
        let m1 = collected(rest, Bucket::ClassMethods, last).to_multiset();
        let m2 = collected(rest, Bucket::ClassAccessors, last).to_multiset();
        let m3 = collected(rest, Bucket::ClassStatics, last).to_multiset();
        let base = class_landed(rest, front);
        if role_class(role) is Some {
            let c = role_class(role)->0;
            if last == c {
                if front.contains(c) {
                    let h = choose|h: int| 0 <= h < front.len() && front[h] == c;
                    assert(names[h] == names[n]);
                }
                assert(names[n] == c);
                assert(base.add(m1.insert(x)).add(m2).add(m3) =~= base.add(m1).add(m2).add(m3).insert(
                    x,
                ));
                assert(base.add(m1).add(m2.insert(x)).add(m3) =~= base.add(m1).add(m2).add(m3).insert(
                    x,
                ));
                assert(base.add(m1).add(m2).add(m3.insert(x)) =~= base.add(m1).add(m2).add(m3).insert(
                    x,
                ));
            } else {
                if names.contains(c) {
                    let h = choose|h: int| 0 <= h < names.len() && names[h] == c;
                    assert(front[h] == c);
                }
                if front.contains(c) {
                    let h = choose|h: int| 0 <= h < front.len() && front[h] == c;
                    assert(names[h] == c);
                }
                assert(base.insert(x).add(m1).add(m2).add(m3) =~= base.add(m1).add(m2).add(m3).insert(
                    x,
                ));
            }
        }
    }
}

proof fn lemma_landed(entries: Seq<(String, Procedure)>, names: Seq<Seq<char>>)
    requires
        names.no_duplicates(),
        forall|i: int|
            0 <= i < entries.len() ==> {
                let role = procedure_role((#[trigger] entries[i]).0@);
                &&& !(role is Unknown)
                &&& role_class(role) matches Some(c) ==> names.contains(c)
            },
    ensures
        collected(entries, Bucket::ServiceMethods, Seq::empty()).to_multiset().add(
            collected(entries, Bucket::ServiceAccessors, Seq::empty()).to_multiset(),
        ).add(class_landed(entries, names)) == procedure_records(entries).to_multiset(),
    decreases entries.len(),
{
    let empty = Seq::<char>::empty();
    if entries.len() == 0 {
        lemma_class_landed_of_none(entries, names);
        lemma_no_records();
        assert(procedure_records(entries) =~= Seq::empty());
        assert(collected(entries, Bucket::ServiceMethods, empty) =~= Seq::empty());
        assert(collected(entries, Bucket::ServiceAccessors, empty) =~= Seq::empty());
        assert(collected(entries, Bucket::ServiceMethods, empty).to_multiset().add(
            collected(entries, Bucket::ServiceAccessors, empty).to_multiset(),
        ).add(class_landed(entries, names)) =~= procedure_records(entries).to_multiset());
    } else {
        let front = entries.drop_last();
        assert forall|i: int| 0 <= i < front.len() implies {
            let role = procedure_role((#[trigger] front[i]).0@);
            &&& !(role is Unknown)
            &&& role_class(role) matches Some(c) ==> names.contains(c)
        } by {
            assert(front[i] == entries[i]);
        }
        lemma_landed(front, names);
        let last = entries[entries.len() - 1];
        let role = procedure_role(last.0@);
        let x = role_record(role, last.1);
        lemma_collected_step(entries, Bucket::ServiceMethods, empty);
        lemma_collected_step(entries, Bucket::ServiceAccessors, empty);
        lemma_class_landed_step(entries, names);
        assert(procedure_records(entries) =~= procedure_records(front).push(x));
        vstd::seq_lib::to_multiset_build(procedure_records(front), x);
        let m1 = collected(front, Bucket::ServiceMethods, empty).to_multiset();
        let m2 = collected(front, Bucket::ServiceAccessors, empty).to_multiset();
        let m3 = class_landed(front, names);
        assert(m1.insert(x).add(m2).add(m3) =~= m1.add(m2).add(m3).insert(x));
        assert(m1.add(m2.insert(x)).add(m3) =~= m1.add(m2).add(m3).insert(x));
        assert(m1.add(m2).add(m3.insert(x)) =~= m1.add(m2).add(m3).insert(x));
    }
}

proof fn lemma_class_landed_of_none(entries: Seq<(String, Procedure)>, names: Seq<Seq<char>>)
    requires
        entries.len() == 0,
    ensures
        class_landed(entries, names) == Multiset::<MethodView>::empty(),
    decreases names.len(),
{
    if names.len() > 0 {
        lemma_class_landed_of_none(entries, names.drop_last());
        let e = Multiset::<MethodView>::empty();
        lemma_no_records();
        assert(e.add(Seq::<MethodView>::empty().to_multiset()) =~= e);
        assert(class_landed(entries, names) =~= e);
    }
}

proof fn lemma_class_records(
    entries: Seq<(String, Procedure)>,
    classes: Seq<ClassView>,
    names: Seq<Seq<char>>,
)
    requires
        classes.len() == names.len(),
        forall|i: int| 0 <= i < names.len() ==> #[trigger] classes[i] == class_record(entries, names[i]),
    ensures
        class_records(classes).to_multiset() == class_landed(entries, names),
    decreases names.len(),
{
    if names.len() > 0 {
        let n = names.len() - 1;
        assert(classes[n] == class_record(entries, names[n]));
        assert forall|i: int| 0 <= i < names.drop_last().len() implies #[trigger] classes.drop_last()[i]
            == class_record(entries, names.drop_last()[i]) by {
            assert(classes[i] == class_record(entries, names[i]));
        }
        lemma_class_records(entries, classes.drop_last(), names.drop_last());
        lemma_ordered(collected(entries, Bucket::ClassMethods, names.last()));
        lemma_ordered(collected(entries, Bucket::ClassAccessors, names.last()));
        lemma_ordered(collected(entries, Bucket::ClassStatics, names.last()));
        let a = class_records(classes.drop_last());
        let last = classes.last();
        vstd::seq_lib::lemma_multiset_commutative(a, last.methods);
        vstd::seq_lib::lemma_multiset_commutative(a + last.methods, last.getters_setters);
        vstd::seq_lib::lemma_multiset_commutative(
            a + last.methods + last.getters_setters,
            last.static_methods,
        );
    } else {
        lemma_no_records();
    }
}

/// Every procedure has exactly one record: in a sound description whose
/// procedure names stand on one line each, the records on all lists
/// together are the records of the procedures, each once, so there are as
/// many records as procedures. The record of a procedure keeps its id and
/// carries its name, and no two procedures have the same record.
pub proof fn lemma_one_record_for_each_procedure(input: Content)
    requires
        schema_sound(input),
        names_on_one_line(input),
    ensures
        all_records(output_of(input)).to_multiset() == procedure_records(
            input.procedures@,
        ).to_multiset(),
        all_records(output_of(input)).len() == input.procedures@.len(),
        procedure_records(input.procedures@).len() == input.procedures@.len(),
        forall|i: int|
            0 <= i < input.procedures@.len() ==> {
                let record = #[trigger] procedure_records(input.procedures@)[i];
                &&& record.id == input.procedures@[i].1.id
                &&& record.procedure == input.procedures@[i].0@
            },
        forall|i: int, j: int|
            0 <= i < j < input.procedures@.len() ==> procedure_records(input.procedures@)[i]
                != procedure_records(input.procedures@)[j],
{
    let entries = input.procedures@;
    let names = entry_names(input.classes@);
    let out = output_of(input);
    assert forall|i: int| 0 <= i < entries.len() implies {
        let role = procedure_role((#[trigger] entries[i]).0@);
        &&& !(role is Unknown)
        &&& role_class(role) matches Some(c) ==> names.contains(c)
    } by {
        lemma_role_is_known(entries[i].0@);
        assert(fault_at(input, i) is None);
        let role = procedure_role(entries[i].0@);
        if role_class(role) is Some {
            let c = role_class(role)->0;
            let j = choose|j: int|
                0 <= j < input.classes@.len() && (#[trigger] input.classes@[j]).0@ == c;
            assert(names[j] == c);
        }
    }
    lemma_landed(entries, names);
    lemma_class_records(entries, out.classes, names);
    vstd::seq_lib::to_multiset_len(all_records(out));
    vstd::seq_lib::to_multiset_len(procedure_records(entries));
    lemma_ordered(collected(entries, Bucket::ServiceMethods, Seq::empty()));
    lemma_ordered(collected(entries, Bucket::ServiceAccessors, Seq::empty()));
    vstd::seq_lib::lemma_multiset_commutative(out.methods, out.getters_setters);
    vstd::seq_lib::lemma_multiset_commutative(
        out.methods + out.getters_setters,
        class_records(out.classes),
    );
    assert forall|i: int| 0 <= i < entries.len() implies {
        let record = #[trigger] procedure_records(entries)[i];
        &&& record.id == entries[i].1.id
        &&& record.procedure == entries[i].0@
    } by {
        lemma_role_is_known(entries[i].0@);
        lemma_role_keeps_the_name(entries[i].0@);
    }
    assert forall|i: int, j: int| 0 <= i < j < entries.len() implies procedure_records(entries)[i]
        != procedure_records(entries)[j] by {
        let pn = entry_names(entries);
        assert(pn[i] != pn[j]);
        assert(procedure_records(entries)[i].procedure == entries[i].0@);
        assert(procedure_records(entries)[j].procedure == entries[j].0@);
    }
}

/// No procedure is lost: in a sound description the record of every
/// procedure with a known role stands on the list of its role, for a role
/// of a class on that list of a record of the class.
pub proof fn lemma_every_record_is_listed(input: Content, i: int)
    requires
        0 <= i < input.procedures@.len(),
        schema_sound(input),
    ensures
        ({
            let role = procedure_role(input.procedures@[i].0@);
            let record = role_record(role, input.procedures@[i].1);
            let out = output_of(input);
            match role_bucket(role) {
                None => true,
                Some(Bucket::ServiceMethods) => out.methods.contains(record),
                Some(Bucket::ServiceAccessors) => out.getters_setters.contains(record),
                Some(Bucket::ClassMethods) => exists|j: int|
                    0 <= j < out.classes.len() && (#[trigger] out.classes[j]).name == role_class(
                        role,
                    )->0 && out.classes[j].methods.contains(record),
                Some(Bucket::ClassAccessors) => exists|j: int|
                    0 <= j < out.classes.len() && (#[trigger] out.classes[j]).name == role_class(
                        role,
                    )->0 && out.classes[j].getters_setters.contains(record),
                Some(Bucket::ClassStatics) => exists|j: int|
                    0 <= j < out.classes.len() && (#[trigger] out.classes[j]).name == role_class(
                        role,
                    )->0 && out.classes[j].static_methods.contains(record),
            }
        }),
{
    let entries = input.procedures@;
    let role = procedure_role(entries[i].0@);
    let record = role_record(role, entries[i].1);
    let out = output_of(input);
    assert(fault_at(input, i) is None);
    match role_bucket(role) {
        None => {},
        Some(bucket) => {
            match role_class(role) {
                None => {
                    lemma_collected_contains(entries, i, bucket, Seq::empty());
                    lemma_ordered_contains(collected(entries, bucket, Seq::empty()), record);
                },
                Some(class) => {
                    lemma_collected_contains(entries, i, bucket, class);
                    lemma_ordered_contains(collected(entries, bucket, class), record);
                    assert(class_declared(input.classes@, class));
                    let j = choose|j: int|
                        0 <= j < input.classes@.len() && (#[trigger] input.classes@[j]).0@ == class;
                    assert(out.classes[j] == class_record(entries, class));
                },
            }
        },
    }
}

/// Every declared class has its record, under its name and at its place,
/// and no other class has one.
pub proof fn lemma_classes_are_the_declared(input: Content)
    ensures
        output_of(input).classes.len() == input.classes@.len(),
        forall|i: int|
            0 <= i < input.classes@.len() ==> (#[trigger] output_of(input).classes[i]).name
                == input.classes@[i].0@,
{
}

/// Builds the record of a procedure under the names that its role gives.
pub fn convert_method<P: ParsedMethod>(property: &P, procedure: &Procedure, is_static: bool) -> (r:
    Method)
    requires
        procedure_well_formed(*procedure),
    ensures
        r@ == record_of(
            property.procedure_text(),
            property.function_text(),
            *procedure,
            is_static,
        ),
{
    Method {
        id: procedure.id,
        procedure: property.original_procedure_name(),
        name: property.function_name(),
        arguments_signature: arguments_signature(procedure, is_static),
        arguments: convert_arguments(procedure),
        decoder_function: decoder_function(
            &procedure.return_type,
            String::from_str("result.value"),
        ),
        before_return: before_return(&procedure.return_type),
        return_type_signature: return_type_signature(&procedure.return_type),
        return_value: return_value(procedure, is_static),
    }
}

/// Builds the record of a procedure with the given role; none for an unknown
/// role.
pub fn convert_role(role: &ProcedureType, procedure: &Procedure) -> (r: Option<Method>)
    requires
        procedure_well_formed(*procedure),
    ensures
        r is None <==> role@ is Unknown,
        r matches Some(m) ==> m@ == role_record(role@, *procedure),
{
    match role {
        ProcedureType::Standard(x) => Some(convert_method(x, procedure, false)),
        ProcedureType::PropertyGetter(x) => Some(convert_method(x, procedure, false)),
        ProcedureType::PropertySetter(x) => Some(convert_method(x, procedure, false)),
        ProcedureType::ClassMethod(x) => Some(convert_method(x, procedure, false)),
        ProcedureType::ClassPropertyGetter(x) => Some(convert_method(x, procedure, false)),
        ProcedureType::ClassPropertySetter(x) => Some(convert_method(x, procedure, false)),
        ProcedureType::StaticClassMethod(x) => Some(convert_method(x, procedure, true)),
        ProcedureType::Unknown => None,
    }
}

/// Decides `lands_in`.
pub fn role_lands_in(role: &ProcedureType, bucket: Bucket, class: &str) -> (r: bool)
    ensures
        r == lands_in(role@, bucket, class@),
{
    match role {
        ProcedureType::Standard(_) => bucket == Bucket::ServiceMethods,
        ProcedureType::PropertyGetter(_) => bucket == Bucket::ServiceAccessors,
        ProcedureType::PropertySetter(_) => bucket == Bucket::ServiceAccessors,
        ProcedureType::ClassMethod(x) => bucket == Bucket::ClassMethods && same_text(
            &x.class,
            class,
        ),
        ProcedureType::StaticClassMethod(x) => bucket == Bucket::ClassStatics && same_text(
            &x.class,
            class,
        ),
        ProcedureType::ClassPropertyGetter(x) => bucket == Bucket::ClassAccessors && same_text(
            &x.class,
            class,
        ),
        ProcedureType::ClassPropertySetter(x) => bucket == Bucket::ClassAccessors && same_text(
            &x.class,
            class,
        ),
        ProcedureType::Unknown => false,
    }
}

/// Whether every role is the role of the procedure at its place.
pub open spec fn roles_match(input: Content, roles: Vec<ProcedureType>) -> bool {
    &&& roles@.len() == input.procedures@.len()
    &&& forall|i: int|
        0 <= i < roles@.len() ==> (#[trigger] roles@[i])@ == procedure_role(input.procedures@[i].0@)
}

/// Classifies the name of every procedure.
pub fn classify_all(input: &Content) -> (roles: Vec<ProcedureType>)
    ensures
        roles_match(*input, roles),
{
    let mut roles: Vec<ProcedureType> = Vec::new();
    let mut i: usize = 0;
    while i < input.procedures.len()
        invariant
            i <= input.procedures@.len(),
            roles@.len() == i,
            forall|j: int|
                0 <= j < i ==> (#[trigger] roles@[j])@ == procedure_role(input.procedures@[j].0@),
        decreases input.procedures@.len() - i,
    {
        roles.push(get_procedure_type(input.procedures[i].0.as_str()));
        i = i + 1;
    }
    roles
}

/// The records of the procedures that land on one list, in the order of the
/// procedures.
pub fn collect(input: &Content, roles: &Vec<ProcedureType>, bucket: Bucket, class: &str) -> (r: Vec<
    Method,
>)
    requires
        roles_match(*input, *roles),
        procedures_well_formed(*input),
    ensures
        method_views(r) == collected(input.procedures@, bucket, class@),
{
    let mut out: Vec<Method> = Vec::new();
    let mut i: usize = 0;
    assert(method_views(out) =~= Seq::empty());
    assert(input.procedures@.take(0) =~= Seq::empty());
    while i < input.procedures.len()
        invariant
            i <= input.procedures@.len(),
            roles_match(*input, *roles),
            procedures_well_formed(*input),
            method_views(out) == collected(input.procedures@.take(i as int), bucket, class@),
        decreases input.procedures@.len() - i,
    {
        proof {
            let es = input.procedures@;
            assert(es.take(i + 1).drop_last() =~= es.take(i as int));
            assert(es.take(i + 1).last() == es[i as int]);
        }
        if role_lands_in(&roles[i], bucket, class) {
            let ghost before = method_views(out);
            match convert_role(&roles[i], &input.procedures[i].1) {
                Some(m) => {
                    out.push(m);
                    assert(method_views(out) =~= before.push(m@));
                },
                None => {},
            }
        }
        i = i + 1;
    }
    proof {
        assert(input.procedures@.take(input.procedures@.len() as int) =~= input.procedures@);
    }
    out
}

/// The record of one enumeration.
pub fn convert_enumeration(name: &String, e: &schema::Enumeration) -> (r: Enumeration)
    ensures
        r@ == enumeration_record(name@, *e),
{
    let mut values: Vec<EnumerationValue> = Vec::new();
    let mut i: usize = 0;
    while i < e.values.len()
        invariant
            i <= e.values@.len(),
            values@.len() == i,
            forall|j: int|
                0 <= j < i ==> (#[trigger] values@[j])@ == (EnumerationValueView {
                    id: e.values@[j].value,
                    name: e.values@[j].name@,
                }),
        decreases e.values@.len() - i,
    {
        values.push(EnumerationValue { id: e.values[i].value, name: e.values[i].name.clone() });
        i = i + 1;
    }
    let r = Enumeration { name: name.clone(), values };
    assert(value_views(r.values) =~= enumeration_record(name@, *e).values);
    r
}

/// Builds the records of a service from its description. The description
/// must be sound: every name listed once, every type well formed, and every
/// class that a procedure name refers to declared. Where the procedure
/// names stand on one line each, every procedure has exactly one record.
pub fn create_output_structure(input_structure: &Content) -> (r: OutputStructure)
    requires
        schema_sound(*input_structure),
    ensures
        r@ == output_of(*input_structure),
        names_on_one_line(*input_structure) ==> all_records(r@).to_multiset() == procedure_records(
            input_structure.procedures@,
        ).to_multiset() && all_records(r@).len() == input_structure.procedures@.len(),
{
    proof {
        if names_on_one_line(*input_structure) {
            lemma_one_record_for_each_procedure(*input_structure);
        }
        reveal_strlit("");
        assert(""@ =~= Seq::<char>::empty());
        assert forall|i: int| 0 <= i < input_structure.procedures@.len() implies procedure_well_formed(
            (#[trigger] input_structure.procedures@[i]).1,
        ) by {
            assert(fault_at(*input_structure, i) is None);
        }
    }
    let roles = classify_all(input_structure);
    let service_methods = sort_methods(collect(input_structure, &roles, Bucket::ServiceMethods, ""));
    let service_getters_setters = sort_methods(
        collect(input_structure, &roles, Bucket::ServiceAccessors, ""),
    );
    let mut classes: Vec<Class> = Vec::new();
    let mut i: usize = 0;
    while i < input_structure.classes.len()
        invariant
            i <= input_structure.classes@.len(),
            procedures_well_formed(*input_structure),
            roles_match(*input_structure, roles),
            classes@.len() == i,
            forall|j: int|
                0 <= j < i ==> (#[trigger] classes@[j])@ == class_record(
                    input_structure.procedures@,
                    input_structure.classes@[j].0@,
                ),
        decreases input_structure.classes@.len() - i,
    {
        let name = &input_structure.classes[i].0;
        classes.push(
            Class {
                name: name.clone(),
                methods: sort_methods(
                    collect(input_structure, &roles, Bucket::ClassMethods, name.as_str()),
                ),
                getters_setters: sort_methods(
                    collect(input_structure, &roles, Bucket::ClassAccessors, name.as_str()),
                ),
                static_methods: sort_methods(
                    collect(input_structure, &roles, Bucket::ClassStatics, name.as_str()),
                ),
            },
        );
        i = i + 1;
    }
    let mut enumerations: Vec<Enumeration> = Vec::new();
    let mut k: usize = 0;
    while k < input_structure.enumerations.len()
        invariant
            k <= input_structure.enumerations@.len(),
            enumerations@.len() == k,
            forall|j: int|
                0 <= j < k ==> (#[trigger] enumerations@[j])@ == enumeration_record(
                    input_structure.enumerations@[j].0@,
                    input_structure.enumerations@[j].1,
                ),
        decreases input_structure.enumerations@.len() - k,
    {
        enumerations.push(
            convert_enumeration(
                &input_structure.enumerations[k].0,
                &input_structure.enumerations[k].1,
            ),
        );
        k = k + 1;
    }
    let r = OutputStructure {
        methods: service_methods,
        getters_setters: service_getters_setters,
        classes,
        enumerations,
    };
    proof {
        assert(class_views(r.classes) =~= output_of(*input_structure).classes);
        assert(enumeration_views(r.enumerations) =~= output_of(*input_structure).enumerations);
    }
    r
}

/// The class that a role belongs to, none for a role of the service.
pub fn class_of(role: &ProcedureType) -> (r: Option<String>)
    ensures
        match r {
            Some(c) => role_class(role@) == Some(c@),
            None => role_class(role@) is None,
        },
{
    match role {
        ProcedureType::ClassMethod(x) => Some(x.class.clone()),
        ProcedureType::StaticClassMethod(x) => Some(x.class.clone()),
        ProcedureType::ClassPropertyGetter(x) => Some(x.class.clone()),
        ProcedureType::ClassPropertySetter(x) => Some(x.class.clone()),
        _ => None,
    }
}

/// Whether a class of this name is declared.
pub fn declares(classes: &Vec<(String, schema::Class)>, name: &str) -> (r: bool)
    ensures
        r == class_declared(classes@, name@),
{
    let mut j: usize = 0;
    while j < classes.len()
        invariant
            j <= classes@.len(),
            forall|k: int| 0 <= k < j ==> (#[trigger] classes@[k]).0@ != name@,
        decreases classes@.len() - j,
    {
        if same_text(&classes[j].0, name) {
            return true;
        }
        j = j + 1;
    }
    false
}

/// Looks for a fault in the procedure at `i`.
pub fn check_procedure(input: &Content, i: usize) -> (r: Result<(), SchemaError>)
    requires
        i < input.procedures@.len(),
    ensures
        match r {
            Ok(_) => fault_at(*input, i as int) is None,
            Err(e) => fault_at(*input, i as int) == Some(e@),
        },
{
    let name = &input.procedures[i].0;
    if !is_procedure_well_formed(&input.procedures[i].1) {
        return Err(SchemaError::MalformedType { procedure: name.clone() });
    }
    let role = get_procedure_type(name.as_str());
    match class_of(&role) {
        Some(class) => {
            if declares(&input.classes, class.as_str()) {
                Ok(())
            } else {
                Err(SchemaError::UnknownClass { procedure: name.clone(), class })
            }
        },
        None => Ok(()),
    }
}

/// Looks for the fault that stands first: a name that is listed twice,
/// then the first procedure with a fault.
pub fn validate(input: &Content) -> (r: Result<(), SchemaError>)
    ensures
        match r {
            Ok(_) => schema_sound(*input),
            Err(e) => is_first_fault(*input, e@),
        },
{
    match first_repeated(&input.procedures) {
        Some(j) => {
            assert(entry_names(input.procedures@)[j as int] == input.procedures@[j as int].0@);
            return Err(SchemaError::RepeatedProcedure { name: input.procedures[j].0.clone() });
        },
        None => {},
    }
    match first_repeated(&input.classes) {
        Some(j) => {
            assert(entry_names(input.classes@)[j as int] == input.classes@[j as int].0@);
            return Err(SchemaError::RepeatedClass { name: input.classes[j].0.clone() });
        },
        None => {},
    }
    match first_repeated(&input.enumerations) {
        Some(j) => {
            assert(entry_names(input.enumerations@)[j as int] == input.enumerations@[j as int].0@);
            return Err(SchemaError::RepeatedEnumeration { name: input.enumerations[j].0.clone() });
        },
        None => {},
    }
    let mut i: usize = 0;
    while i < input.procedures.len()
        invariant
            i <= input.procedures@.len(),
            input.names_distinct(),
            forall|j: int| 0 <= j < i ==> fault_at(*input, j) is None,
        decreases input.procedures@.len() - i,
    {
        match check_procedure(input, i) {
            Ok(_) => {},
            Err(e) => {
                assert(fault_at(*input, i as int) == Some(e@));
                return Err(e);
            },
        }
        i = i + 1;
    }
    Ok(())
}

/// Builds the records of a service from its description, or names the
/// first procedure that stands in the way.
pub fn build_output_structure(input: &Content) -> (r: Result<OutputStructure, SchemaError>)
    ensures
        built(*input, r),
{
    match validate(input) {
        Ok(_) => Ok(create_output_structure(input)),
        Err(e) => Err(e),
    }
}

/// Builds the records of every service, each under the name of its service
/// and at its place, so that services listed under names of their own stay
/// so. A service whose description is not sound has its fault in place of
/// its records; the other services are built all the same.
pub fn generate_for(services: &Vec<(String, Content)>) -> (r: Vec<
    (String, Result<OutputStructure, SchemaError>),
>)
    ensures
        r@.len() == services@.len(),
        entry_names(r@) == entry_names(services@),
        forall|i: int|
            0 <= i < r@.len() ==> (#[trigger] r@[i]).0@ == services@[i].0@ && built(
                services@[i].1,
                r@[i].1,
            ),
{
    let mut out: Vec<(String, Result<OutputStructure, SchemaError>)> = Vec::new();
    let mut i: usize = 0;
    while i < services.len()
        invariant
            i <= services@.len(),
            out@.len() == i,
            forall|j: int|
                0 <= j < i ==> (#[trigger] out@[j]).0@ == services@[j].0@ && built(
                    services@[j].1,
                    out@[j].1,
                ),
        decreases services@.len() - i,
    {
        let built = build_output_structure(&services[i].1);
        out.push((services[i].0.clone(), built));
        i = i + 1;
    }
    assert(entry_names(out@) =~= entry_names(services@));
    out
}

} // verus!
