//! The role of a procedure, read off its name: `Class_get_Property`,
//! `Class_set_Property`, `Class_static_Method`, `get_Property`,
//! `set_Property`, `Class_Method`, or a plain method name.

use crate::shape::framed;
use crate::shape::has_line_break;
use crate::shape::keyword_at;
use crate::shape::keyword_groups;
use crate::shape::keyword_pattern;
use crate::shape::last_keyword_up_to;
use crate::shape::last_separator_up_to;
use crate::shape::lemma_keyword_frame;
use crate::shape::lemma_last_keyword;
use crate::shape::lemma_last_separator;
use crate::shape::pair_groups;
use crate::shape::pair_pattern;
use crate::shape::stands_at;
use crate::text::captures;
use crate::text::regex_captures;
use crate::text::groups_view;
use crate::text::recased;
use crate::text::same_text;
use crate::text::to_case;
use vstd::prelude::*;
use vstd::string::StrSliceExecFns;
use vstd::string::StringExecFns;

verus! {

/// A procedure of the service itself.
#[derive(PartialEq, Debug)]
pub struct StandardMethod {
    pub procedure: String,
    pub name: String,
}

/// A getter or setter of the service itself.
#[derive(PartialEq, Debug)]
pub struct ServiceProperty {
    pub procedure: String,
    pub name: String,
    pub prefix: String,
}

/// A method of a class, static or not.
#[derive(PartialEq, Debug)]
pub struct ClassMethod {
    pub procedure: String,
    pub class: String,
    pub method: String,
}

/// A getter or setter of a class.
#[derive(PartialEq, Debug)]
pub struct ClassProperty {
    pub procedure: String,
    pub class: String,
    pub property: String,
    pub prefix: String,
}

/// The role that a procedure name stands for.
#[derive(PartialEq, Debug)]
pub enum ProcedureType {
    Standard(StandardMethod),
    PropertyGetter(ServiceProperty),
    PropertySetter(ServiceProperty),
    ClassMethod(ClassMethod),
    StaticClassMethod(ClassMethod),
    ClassPropertyGetter(ClassProperty),
    ClassPropertySetter(ClassProperty),
    Unknown,
}

/// A plain method as plain values.
pub struct StandardMethodView {
    pub procedure: Seq<char>,
    pub name: Seq<char>,
}

/// A service property as plain values.
pub struct ServicePropertyView {
    pub procedure: Seq<char>,
    pub name: Seq<char>,
    pub prefix: Seq<char>,
}

/// A class method as plain values.
pub struct ClassMethodView {
    pub procedure: Seq<char>,
    pub class: Seq<char>,
    pub method: Seq<char>,
}

/// A class property as plain values.
pub struct ClassPropertyView {
    pub procedure: Seq<char>,
    pub class: Seq<char>,
    pub property: Seq<char>,
    pub prefix: Seq<char>,
}

/// A role as plain values.
pub enum ProcedureTypeView {
    Standard(StandardMethodView),
    PropertyGetter(ServicePropertyView),
    PropertySetter(ServicePropertyView),
    ClassMethod(ClassMethodView),
    StaticClassMethod(ClassMethodView),
    ClassPropertyGetter(ClassPropertyView),
    ClassPropertySetter(ClassPropertyView),
    Unknown,
}

impl View for StandardMethod {
    type V = StandardMethodView;

    open spec fn view(&self) -> StandardMethodView {
        StandardMethodView { procedure: self.procedure@, name: self.name@ }
    }
}

impl View for ServiceProperty {
    type V = ServicePropertyView;

    open spec fn view(&self) -> ServicePropertyView {
        ServicePropertyView { procedure: self.procedure@, name: self.name@, prefix: self.prefix@ }
    }
}

impl View for ClassMethod {
    type V = ClassMethodView;

    open spec fn view(&self) -> ClassMethodView {
        ClassMethodView { procedure: self.procedure@, class: self.class@, method: self.method@ }
    }
}

impl View for ClassProperty {
    type V = ClassPropertyView;

    open spec fn view(&self) -> ClassPropertyView {
        ClassPropertyView {
            procedure: self.procedure@,
            class: self.class@,
            property: self.property@,
            prefix: self.prefix@,
        }
    }
}

impl View for ProcedureType {
    type V = ProcedureTypeView;

    open spec fn view(&self) -> ProcedureTypeView {
        match *self {
            ProcedureType::Standard(x) => ProcedureTypeView::Standard(x@),
            ProcedureType::PropertyGetter(x) => ProcedureTypeView::PropertyGetter(x@),
            ProcedureType::PropertySetter(x) => ProcedureTypeView::PropertySetter(x@),
            ProcedureType::ClassMethod(x) => ProcedureTypeView::ClassMethod(x@),
            ProcedureType::StaticClassMethod(x) => ProcedureTypeView::StaticClassMethod(x@),
            ProcedureType::ClassPropertyGetter(x) => ProcedureTypeView::ClassPropertyGetter(x@),
            ProcedureType::ClassPropertySetter(x) => ProcedureTypeView::ClassPropertySetter(x@),
            ProcedureType::Unknown => ProcedureTypeView::Unknown,
        }
    }
}

/// What a role hands to the record that is built for it: the procedure it
/// came from and the name of the generated function.
pub trait ParsedMethod {
    spec fn procedure_text(&self) -> Seq<char>;

    spec fn function_text(&self) -> Seq<char>;

    fn original_procedure_name(&self) -> (r: String)
        ensures
            r@ == self.procedure_text(),
    ;

    fn function_name(&self) -> (r: String)
        ensures
            r@ == self.function_text(),
    ;
}

impl ParsedMethod for StandardMethod {
    open spec fn procedure_text(&self) -> Seq<char> {
        self.procedure@
    }

    open spec fn function_text(&self) -> Seq<char> {
        recased(self.name@, false)
    }

    fn original_procedure_name(&self) -> (r: String) {
        self.procedure.clone()
    }

    fn function_name(&self) -> (r: String) {
        to_case(self.name.as_str(), false)
    }
}

impl ParsedMethod for ServiceProperty {
    open spec fn procedure_text(&self) -> Seq<char> {
        self.procedure@
    }

    open spec fn function_text(&self) -> Seq<char> {
        self.prefix@ + recased(self.name@, true)
    }

    fn original_procedure_name(&self) -> (r: String) {
        self.procedure.clone()
    }

    fn function_name(&self) -> (r: String) {
        self.prefix.clone().concat(to_case(self.name.as_str(), true).as_str())
    }
}

impl ParsedMethod for ClassMethod {
    open spec fn procedure_text(&self) -> Seq<char> {
        self.procedure@
    }

    open spec fn function_text(&self) -> Seq<char> {
        recased(self.method@, false)
    }

    fn original_procedure_name(&self) -> (r: String) {
        self.procedure.clone()
    }

    fn function_name(&self) -> (r: String) {
        to_case(self.method.as_str(), false)
    }
}

impl ParsedMethod for ClassProperty {
    open spec fn procedure_text(&self) -> Seq<char> {
        self.procedure@
    }

    open spec fn function_text(&self) -> Seq<char> {
        self.prefix@ + recased(self.property@, true)
    }

    fn original_procedure_name(&self) -> (r: String) {
        self.procedure.clone()
    }

    fn function_name(&self) -> (r: String) {
        self.prefix.clone().concat(to_case(self.property.as_str(), true).as_str())
    }
}

/// The text of the group at `i`, where the group is there and took part.
pub open spec fn group_text(groups: Seq<Option<Seq<char>>>, i: int) -> Option<Seq<char>> {
    if 0 <= i < groups.len() {
        groups[i]
    } else {
        None
    }
}

/// The role of `name` where the keyword pattern matched with `groups`: the
/// keyword in the second group decides between getter, setter and static
/// method of the class in the first group. Groups that are missing, or a
/// keyword that is none of the three, give `Unknown`.
pub open spec fn keyword_role(name: Seq<char>, groups: Seq<Option<Seq<char>>>) -> ProcedureTypeView {
    match (group_text(groups, 1), group_text(groups, 2), group_text(groups, 3)) {
        (Some(class), Some(keyword), Some(member)) => {
            if keyword == "get"@ {
                ProcedureTypeView::ClassPropertyGetter(
                    ClassPropertyView { procedure: name, class, property: member, prefix: "get"@ },
                )
            } else if keyword == "set"@ {
                ProcedureTypeView::ClassPropertySetter(
                    ClassPropertyView { procedure: name, class, property: member, prefix: "set"@ },
                )
            } else if keyword == "static"@ {
                ProcedureTypeView::StaticClassMethod(
                    ClassMethodView { procedure: name, class, method: member },
                )
            } else {
                ProcedureTypeView::Unknown
            }
        },
        _ => ProcedureTypeView::Unknown,
    }
}

/// The role of `name` where the pair pattern matched with `groups`: a first
/// group `get` or `set` makes a getter or setter of the service, any other
/// first group is a class and the second group its method. Groups that are
/// missing give `Unknown`.
pub open spec fn pair_role(name: Seq<char>, groups: Seq<Option<Seq<char>>>) -> ProcedureTypeView {
    match (group_text(groups, 1), group_text(groups, 2)) {
        (Some(head), Some(tail)) => {
            if head == "get"@ {
                ProcedureTypeView::PropertyGetter(
                    ServicePropertyView { procedure: name, name: tail, prefix: "get"@ },
                )
            } else if head == "set"@ {
                ProcedureTypeView::PropertySetter(
                    ServicePropertyView { procedure: name, name: tail, prefix: "set"@ },
                )
            } else {
                ProcedureTypeView::ClassMethod(
                    ClassMethodView { procedure: name, class: head, method: tail },
                )
            }
        },
        _ => ProcedureTypeView::Unknown,
    }
}

/// The role of a name that neither pattern matched.
pub open spec fn standard_role(name: Seq<char>) -> ProcedureTypeView {
    ProcedureTypeView::Standard(StandardMethodView { procedure: name, name })
}

/// Whether the name holds the separator `_`.
pub open spec fn has_separator(name: Seq<char>) -> bool {
    name.contains('_')
}

/// The role of `name` by what the matcher finds in it. A name without a
/// separator is a plain method. In any other name the keyword pattern is
/// tried first; where it does not match, the pair pattern; where neither
/// matches, the name is a plain method too.
pub open spec fn matched_role(name: Seq<char>) -> ProcedureTypeView {
    if !has_separator(name) {
        standard_role(name)
    } else {
        match regex_captures(keyword_pattern(), name) {
            Some(groups) => keyword_role(name, groups),
            None => match regex_captures(pair_pattern(), name) {
                Some(groups) => pair_role(name, groups),
                None => standard_role(name),
            },
        }
    }
}

/// The role of `name` by its characters. A name without a separator is a
/// plain method. A name in which a keyword stands between two separators is
/// split at the last such keyword, into class and member. Any other name is
/// a property of the service where it begins with `get_` or `set_`, and
/// else is split at its last separator, into class and method.
pub open spec fn shape_role(name: Seq<char>) -> ProcedureTypeView {
    if !has_separator(name) {
        standard_role(name)
    } else {
        match keyword_groups(name) {
            Some(groups) => keyword_role(name, groups),
            None => match pair_groups(name) {
                Some(groups) => pair_role(name, groups),
                None => standard_role(name),
            },
        }
    }
}

/// The role of `name`: by its characters where it holds no line break, and
/// by what the matcher finds in it where it does.
pub open spec fn procedure_role(name: Seq<char>) -> ProcedureTypeView {
    if has_line_break(name) {
        matched_role(name)
    } else {
        shape_role(name)
    }
}

/// Where the text is known place by place, a part is known to stand in it.
proof fn lemma_stands(t: Seq<char>, q: int, part: Seq<char>)
    requires
        0 <= q,
        q + part.len() <= t.len(),
        forall|i: int| 0 <= i < part.len() ==> t[q + i] == #[trigger] part[i],
    ensures
        stands_at(t, q, part),
{
    assert(t.subrange(q, q + part.len()) =~= part);
}

/// Every name without line break has a known role, and is a plain method
/// exactly where it holds no separator.
pub proof fn lemma_role_is_known(name: Seq<char>)
    requires
        !has_line_break(name),
    ensures
        !(procedure_role(name) is Unknown),
        procedure_role(name) is Standard <==> !has_separator(name),
{
    if has_separator(name) {
        lemma_last_keyword(name, name.len() as int);
        match last_keyword_up_to(name, name.len() as int) {
            Some(q) => {
                lemma_keyword_frame(name, q);
            },
            None => {
                let i = choose|i: int| 0 <= i < name.len() && name[i] == '_';
                lemma_last_separator(name, name.len() - 1);
            },
        }
    }
}

/// A name made of a class, a framed keyword and a member, with no separator
/// in class and member, is the getter, the setter or the static method
/// `member` of `class`.
pub proof fn lemma_class_member_shape(class: Seq<char>, keyword: Seq<char>, member: Seq<char>)
    requires
        keyword == "get"@ || keyword == "set"@ || keyword == "static"@,
        !class.contains('_'),
        !member.contains('_'),
        !has_line_break(class),
        !has_line_break(member),
    ensures
        ({
            let name = class + framed(keyword) + member;
            &&& keyword == "get"@ ==> procedure_role(name)
                == ProcedureTypeView::ClassPropertyGetter(
                ClassPropertyView { procedure: name, class, property: member, prefix: "get"@ },
            )
            &&& keyword == "set"@ ==> procedure_role(name)
                == ProcedureTypeView::ClassPropertySetter(
                ClassPropertyView { procedure: name, class, property: member, prefix: "set"@ },
            )
            &&& keyword == "static"@ ==> procedure_role(name)
                == ProcedureTypeView::StaticClassMethod(
                ClassMethodView { procedure: name, class, method: member },
            )
        }),
{
    reveal_strlit("get");
    reveal_strlit("set");
    reveal_strlit("static");
    let frame = framed(keyword);
    let name = class + frame + member;
    let a = class.len() as int;
    let n = keyword.len() as int;
    assert forall|i: int| 0 <= i < name.len() implies (name[i] == '_' <==> i == a || i == a + n + 1) by {
        if i < a {
            assert(class.contains(name[i]));
        } else if i >= a + n + 2 {
            assert(member[i - a - n - 2] == name[i]);
            assert(member.contains(name[i]));
        } else {
            assert(name[i] == frame[i - a]);
        }
    }
    assert forall|i: int| 0 <= i < name.len() implies name[i] != '\n' by {
        if i < a {
            assert(class.contains(name[i]));
        } else if i >= a + n + 2 {
            assert(member[i - a - n - 2] == name[i]);
            assert(member.contains(name[i]));
        } else {
            assert(name[i] == frame[i - a]);
        }
    }
    assert(name[a] == '_');
    lemma_stands(name, a, frame);
    assert(name[a + 1] == keyword[0]);
    assert(name[a + 2] == keyword[1]);
    if !(keyword == "get"@) {
        if stands_at(name, a, framed("get"@)) {
            assert(name.subrange(a, a + 5)[1] == framed("get"@)[1]);
        }
    }
    if keyword == "static"@ {
        if stands_at(name, a, framed("set"@)) {
            assert(name.subrange(a, a + 5)[2] == framed("set"@)[2]);
        }
    }
    assert(keyword_at(name, a) == Some(keyword));
    lemma_last_keyword(name, name.len() as int);
    let q = last_keyword_up_to(name, name.len() as int)->0;
    if q > a {
        lemma_keyword_frame(name, q);
    }
    assert(q == a);
    assert(name.take(a) =~= class);
    assert(name.skip(a + n + 2) =~= member);
}

/// A name that begins with `get_` or `set_` and holds no framed keyword is
/// the getter or the setter of the service property that follows, whatever
/// separators the property holds.
pub proof fn lemma_service_property_shape(prefix: Seq<char>, property: Seq<char>)
    requires
        prefix == "get"@ || prefix == "set"@,
        !has_line_break(property),
        forall|p: int| (#[trigger] keyword_at(prefix + seq!['_'] + property, p)) is None,
    ensures
        ({
            let name = prefix + seq!['_'] + property;
            &&& prefix == "get"@ ==> procedure_role(name) == ProcedureTypeView::PropertyGetter(
                ServicePropertyView { procedure: name, name: property, prefix: "get"@ },
            )
            &&& prefix == "set"@ ==> procedure_role(name) == ProcedureTypeView::PropertySetter(
                ServicePropertyView { procedure: name, name: property, prefix: "set"@ },
            )
        }),
{
    reveal_strlit("get");
    reveal_strlit("set");
    let head = prefix + seq!['_'];
    let name = head + property;
    assert(name =~= prefix + seq!['_'] + property);
    assert(name[3] == '_');
    assert forall|i: int| 0 <= i < name.len() implies name[i] != '\n' by {
        if i >= 4 {
            assert(property[i - 4] == name[i]);
            assert(property.contains(name[i]));
        } else if i < 3 {
            assert(name[i] == prefix[i]);
        }
    }
    lemma_last_keyword(name, name.len() as int);
    assert(keyword_groups(name) is None);
    lemma_stands(name, 0, head);
    if prefix == "set"@ {
        if stands_at(name, 0, "get"@ + seq!['_']) {
            assert(name.subrange(0, 4)[0] == ("get"@ + seq!['_'])[0]);
        }
    }
    assert(name.skip(4) =~= property);
}

/// A name that holds a separator, but no framed keyword and neither `get_`
/// nor `set_` at its beginning, is a method of a class: the class is what
/// stands before the last separator, the method what stands behind it.
pub proof fn lemma_class_method_shape(name: Seq<char>) -> (q: int)
    requires
        has_separator(name),
        !has_line_break(name),
        forall|p: int| (#[trigger] keyword_at(name, p)) is None,
        !stands_at(name, 0, "get"@ + seq!['_']),
        !stands_at(name, 0, "set"@ + seq!['_']),
    ensures
        0 <= q < name.len(),
        name[q] == '_',
        forall|p: int| q < p < name.len() ==> name[p] != '_',
        procedure_role(name) == ProcedureTypeView::ClassMethod(
            ClassMethodView { procedure: name, class: name.take(q), method: name.skip(q + 1) },
        ),
{
    reveal_strlit("get");
    reveal_strlit("set");
    lemma_last_keyword(name, name.len() as int);
    lemma_last_separator(name, name.len() - 1);
    let i = choose|i: int| 0 <= i < name.len() && name[i] == '_';
    let q = last_separator_up_to(name, name.len() - 1)->0;
    let head = name.take(q);
    if head == "get"@ {
        lemma_stands(name, 0, "get"@ + seq!['_']);
    }
    if head == "set"@ {
        lemma_stands(name, 0, "set"@ + seq!['_']);
    }
    q
}

/// A name made of a class and a method with one separator between them,
/// the class being neither `get` nor `set`, is that method of that class.
pub proof fn lemma_two_part_shape(class: Seq<char>, method: Seq<char>)
    requires
        !class.contains('_'),
        !method.contains('_'),
        !has_line_break(class),
        !has_line_break(method),
        class != "get"@,
        class != "set"@,
    ensures
        procedure_role(class + seq!['_'] + method) == ProcedureTypeView::ClassMethod(
            ClassMethodView { procedure: class + seq!['_'] + method, class, method },
        ),
{
    reveal_strlit("get");
    reveal_strlit("set");
    let name = class + seq!['_'] + method;
    let a = class.len() as int;
    assert forall|i: int| 0 <= i < name.len() implies (name[i] == '_' <==> i == a) && name[i]
        != '\n' by {
        if i < a {
            assert(class.contains(name[i]));
        } else if i > a {
            assert(method[i - a - 1] == name[i]);
            assert(method.contains(name[i]));
        }
    }
    assert(name[a] == '_');
    assert forall|p: int| (#[trigger] keyword_at(name, p)) is None by {
        if keyword_at(name, p) is Some {
            lemma_keyword_frame(name, p);
        }
    }
    if stands_at(name, 0, "get"@ + seq!['_']) {
        let part = name.subrange(0, 4);
        assert(part[3] == ("get"@ + seq!['_'])[3]);
        assert(a == 3);
        assert(class =~= name.subrange(0, 4).subrange(0, 3));
        assert(("get"@ + seq!['_']).subrange(0, 3) =~= "get"@);
    }
    if stands_at(name, 0, "set"@ + seq!['_']) {
        let part = name.subrange(0, 4);
        assert(part[3] == ("set"@ + seq!['_'])[3]);
        assert(a == 3);
        assert(class =~= name.subrange(0, 4).subrange(0, 3));
        assert(("set"@ + seq!['_']).subrange(0, 3) =~= "set"@);
    }
    let q = lemma_class_method_shape(name);
    assert(q == a);
    assert(name.take(a) =~= class);
    assert(name.skip(a + 1) =~= method);
}

/// A name without a separator is a plain method under its own name.
pub proof fn lemma_plain_name_is_standard(name: Seq<char>)
    requires
        !name.contains('_'),
    ensures
        procedure_role(name) == ProcedureTypeView::Standard(
            StandardMethodView { procedure: name, name },
        ),
{
}

/// Every role but `Unknown` carries the name it was read from.
pub proof fn lemma_role_keeps_the_name(name: Seq<char>)
    ensures
        match procedure_role(name) {
            ProcedureTypeView::Standard(x) => x.procedure == name && x.name == name,
            ProcedureTypeView::PropertyGetter(x) => x.procedure == name && x.prefix == "get"@,
            ProcedureTypeView::PropertySetter(x) => x.procedure == name && x.prefix == "set"@,
            ProcedureTypeView::ClassMethod(x) => x.procedure == name,
            ProcedureTypeView::StaticClassMethod(x) => x.procedure == name,
            ProcedureTypeView::ClassPropertyGetter(x) => x.procedure == name && x.prefix == "get"@,
            ProcedureTypeView::ClassPropertySetter(x) => x.procedure == name && x.prefix == "set"@,
            ProcedureTypeView::Unknown => true,
        },
{
}

fn group_at(groups: &Vec<Option<String>>, i: usize) -> (r: Option<String>)
    ensures
        match r {
            Some(s) => group_text(groups_view(*groups), i as int) == Some(s@),
            None => group_text(groups_view(*groups), i as int) is None,
        },
{
    if i < groups.len() {
        match &groups[i] {
            Some(s) => Some(s.clone()),
            None => None,
        }
    } else {
        None
    }
}

/// The role of `procedure_name` where the keyword pattern matched with
/// `groups`.
pub fn role_of_keyword_match(procedure_name: &str, groups: &Vec<Option<String>>) -> (r:
    ProcedureType)
    ensures
        r@ == keyword_role(procedure_name@, groups_view(*groups)),
{
    match (group_at(groups, 1), group_at(groups, 2), group_at(groups, 3)) {
        (Some(class), Some(keyword), Some(member)) => {
            if same_text(&keyword, "get") {
                ProcedureType::ClassPropertyGetter(
                    ClassProperty {
                        procedure: String::from_str(procedure_name),
                        class,
                        property: member,
                        prefix: String::from_str("get"),
                    },
                )
            } else if same_text(&keyword, "set") {
                ProcedureType::ClassPropertySetter(
                    ClassProperty {
                        procedure: String::from_str(procedure_name),
                        class,
                        property: member,
                        prefix: String::from_str("set"),
                    },
                )
            } else if same_text(&keyword, "static") {
                ProcedureType::StaticClassMethod(
                    ClassMethod {
                        procedure: String::from_str(procedure_name),
                        class,
                        method: member,
                    },
                )
            } else {
                ProcedureType::Unknown
            }
        },
        _ => ProcedureType::Unknown,
    }
}

/// The role of `procedure_name` where the pair pattern matched with `groups`.
pub fn role_of_pair_match(procedure_name: &str, groups: &Vec<Option<String>>) -> (r: ProcedureType)
    ensures
        r@ == pair_role(procedure_name@, groups_view(*groups)),
{
    match (group_at(groups, 1), group_at(groups, 2)) {
        (Some(head), Some(tail)) => {
            if same_text(&head, "get") {
                ProcedureType::PropertyGetter(
                    ServiceProperty {
                        procedure: String::from_str(procedure_name),
                        name: tail,
                        prefix: String::from_str("get"),
                    },
                )
            } else if same_text(&head, "set") {
                ProcedureType::PropertySetter(
                    ServiceProperty {
                        procedure: String::from_str(procedure_name),
                        name: tail,
                        prefix: String::from_str("set"),
                    },
                )
            } else {
                ProcedureType::ClassMethod(
                    ClassMethod {
                        procedure: String::from_str(procedure_name),
                        class: head,
                        method: tail,
                    },
                )
            }
        },
        _ => ProcedureType::Unknown,
    }
}

/// Whether the name holds the separator `_`.
pub fn holds_separator(name: &str) -> (r: bool)
    ensures
        r == has_separator(name@),
{
    let n = name.unicode_len();
    let mut i: usize = 0;
    while i < n
        invariant
            n == name@.len(),
            i <= n,
            forall|j: int| 0 <= j < i ==> name@[j] != '_',
        decreases n - i,
    {
        if name.get_char(i) == '_' {
            return true;
        }
        i = i + 1;
    }
    false
}

/// Classifies a procedure name. Total: every name has exactly one role. A
/// name without line break has a known role, and is a plain method exactly
/// where it holds no separator.
pub fn get_procedure_type(procedure_name: &str) -> (r: ProcedureType)
    ensures
        r@ == procedure_role(procedure_name@),
        !has_line_break(procedure_name@) ==> !(r@ is Unknown) && (r@ is Standard <==> !has_separator(
            procedure_name@,
        )),
{
    proof {
        if !has_line_break(procedure_name@) {
            lemma_role_is_known(procedure_name@);
        }
    }
    if !holds_separator(procedure_name) {
        return ProcedureType::Standard(
            StandardMethod {
                procedure: String::from_str(procedure_name),
                name: String::from_str(procedure_name),
            },
        );
    }
    match captures("(.*)_(get|set|static)_(.*)", procedure_name) {
        Err(_) => ProcedureType::Unknown,
        Ok(Some(groups)) => role_of_keyword_match(procedure_name, &groups),
        Ok(None) => match captures("(get|set|.*)_(.*)", procedure_name) {
            Err(_) => ProcedureType::Unknown,
            Ok(Some(groups)) => role_of_pair_match(procedure_name, &groups),
            Ok(None) => ProcedureType::Standard(
                StandardMethod {
                    procedure: String::from_str(procedure_name),
                    name: String::from_str(procedure_name),
                },
            ),
        },
    }
}

} // verus!
