//! The service description as it is read: procedures, classes, enumerations
//! and the closed algebra of types that parameters and results are made of.

use vstd::prelude::*;

verus! {

broadcast use vstd::std_specs::vec::group_vec_axioms;

/// The tag of a schema type.
#[derive(Debug, Clone, Copy, PartialEq, Eq)]
pub enum Code {
    String,
    Bool,
    Float,
    Double,
    Sint32,
    Uint32,
    Enumeration,
    List,
    Dictionary,
    SetOf,
    Tuple,
    Class,
}

/// The type of a parameter.
#[derive(Debug)]
pub struct Type {
    pub code: Code,
    pub types: Option<Vec<Type>>,
    pub service: Option<String>,
    pub name: Option<String>,
}

/// The type of a result.
#[derive(Debug)]
pub struct ReturnType {
    pub code: Code,
    pub types: Option<Vec<ReturnType>>,
    pub service: Option<String>,
    pub name: Option<String>,
}

impl Code {
    /// A tag whose type is built from nested types.
    pub open spec fn is_composite(self) -> bool {
        self is List || self is Dictionary || self is SetOf || self is Tuple
    }

    /// A tag whose type refers to a declaration by name.
    pub open spec fn is_named(self) -> bool {
        self is Enumeration || self is Class
    }
}

/// One member of an enumeration.
#[derive(Debug, Clone)]
pub struct EnumerationValue {
    pub name: String,
    pub value: u64,
}

/// A declared enumeration: its members in declared order.
#[derive(Debug, Clone)]
pub struct Enumeration {
    pub values: Vec<EnumerationValue>,
}

/// A declared class. The declaration carries nothing but its name, which is
/// the key it is listed under.
#[derive(Debug, Clone)]
pub struct Class {
}

/// One parameter of a procedure. The parameter named `this` is the receiver.
#[derive(Debug)]
pub struct Parameter {
    pub name: String,
    pub ty: Type,
    pub default_value: Option<String>,
}

/// One callable procedure.
#[derive(Debug)]
pub struct Procedure {
    pub id: u64,
    pub parameters: Vec<Parameter>,
    pub return_type: Option<ReturnType>,
}

/// The description of one service. Each list holds its entries under their
/// names, in the order in which they were read. A description that is built
/// lists every name once: see `names_distinct`.
#[derive(Debug)]
pub struct Content {
    pub id: u64,
    pub procedures: Vec<(String, Procedure)>,
    pub classes: Vec<(String, Class)>,
    pub enumerations: Vec<(String, Enumeration)>,
}

/// The text of an optional name, empty where it is absent.
pub open spec fn name_text(name: Option<String>) -> Seq<char> {
    match name {
        Some(s) => s@,
        None => Seq::empty(),
    }
}

impl Type {
    /// The nested types, none where the list is absent.
    pub open spec fn nested(self) -> Seq<Type> {
        match self.types {
            Some(v) => v@,
            None => Seq::empty(),
        }
    }

    /// The tag decides what the type carries: a list or a set one nested
    /// type, a dictionary two, a tuple a list of any length, an enumeration
    /// or a class a name; and every nested type is well formed in turn.
    pub open spec fn well_formed(self) -> bool
        decreases self,
    {
        &&& self.code.is_named() ==> self.name is Some
        &&& self.code.is_composite() ==> self.types is Some
        &&& (self.code is List || self.code is SetOf) ==> self.nested().len() == 1
        &&& self.code is Dictionary ==> self.nested().len() == 2
        &&& self.code.is_composite() ==> match self.types {
            Some(v) => forall|i: int| 0 <= i < v@.len() ==> (#[trigger] v@[i]).well_formed(),
            None => false,
        }
    }

    /// Decides `well_formed`.
    pub fn is_well_formed(&self) -> (r: bool)
        ensures
            r == self.well_formed(),
        decreases self,
    {
        if is_named(self.code) && self.name.is_none() {
            return false;
        }
        if !is_composite(self.code) {
            return true;
        }
        match &self.types {
            None => false,
            Some(v) => {
                if (matches!(self.code, Code::List) || matches!(self.code, Code::SetOf)) && v.len()
                    != 1 {
                    return false;
                }
                if matches!(self.code, Code::Dictionary) && v.len() != 2 {
                    return false;
                }
                let mut i: usize = 0;
                while i < v.len()
                    invariant
                        i <= v@.len(),
                        self.types == Some(*v),
                        self.code.is_composite(),
                        forall|j: int| 0 <= j < i ==> (#[trigger] v@[j]).well_formed(),
                    decreases v@.len() - i,
                {
                    proof {
                        vstd::std_specs::vec::axiom_vec_index_decreases(*v, i as int);
                        assert(self.types->0 == *v);
                    }
                    if !v[i].is_well_formed() {
                        return false;
                    }
                    i = i + 1;
                }
                true
            },
        }
    }
}

impl ReturnType {
    /// The nested types, none where the list is absent.
    pub open spec fn nested(self) -> Seq<ReturnType> {
        match self.types {
            Some(v) => v@,
            None => Seq::empty(),
        }
    }

    /// The tag decides what the type carries: a list or a set one nested
    /// type, a dictionary two, a tuple a list of any length, an enumeration
    /// or a class a name; and every nested type is well formed in turn.
    pub open spec fn well_formed(self) -> bool
        decreases self,
    {
        &&& self.code.is_named() ==> self.name is Some
        &&& self.code.is_composite() ==> self.types is Some
        &&& (self.code is List || self.code is SetOf) ==> self.nested().len() == 1
        &&& self.code is Dictionary ==> self.nested().len() == 2
        &&& self.code.is_composite() ==> match self.types {
            Some(v) => forall|i: int| 0 <= i < v@.len() ==> (#[trigger] v@[i]).well_formed(),
            None => false,
        }
    }

    /// Decides `well_formed`.
    pub fn is_well_formed(&self) -> (r: bool)
        ensures
            r == self.well_formed(),
        decreases self,
    {
        if is_named(self.code) && self.name.is_none() {
            return false;
        }
        if !is_composite(self.code) {
            return true;
        }
        match &self.types {
            None => false,
            Some(v) => {
                if (matches!(self.code, Code::List) || matches!(self.code, Code::SetOf)) && v.len()
                    != 1 {
                    return false;
                }
                if matches!(self.code, Code::Dictionary) && v.len() != 2 {
                    return false;
                }
                let mut i: usize = 0;
                while i < v.len()
                    invariant
                        i <= v@.len(),
                        self.types == Some(*v),
                        self.code.is_composite(),
                        forall|j: int| 0 <= j < i ==> (#[trigger] v@[j]).well_formed(),
                    decreases v@.len() - i,
                {
                    proof {
                        vstd::std_specs::vec::axiom_vec_index_decreases(*v, i as int);
                        assert(self.types->0 == *v);
                    }
                    if !v[i].is_well_formed() {
                        return false;
                    }
                    i = i + 1;
                }
                true
            },
        }
    }
}

impl ReturnType {
    /// The type that is reached from this one by going into the nested type
    /// at each place of `path` in turn; none where a place is not there.
    pub open spec fn at_path(self, path: Seq<int>) -> Option<ReturnType>
        decreases path.len(),
    {
        if path.len() == 0 {
            Some(self)
        } else if self.code.is_composite() && 0 <= path[0] < self.nested().len() {
            self.nested()[path[0]].at_path(path.skip(1))
        } else {
            None
        }
    }

    /// Whether the type itself lacks what its tag calls for: the name, the
    /// list of nested types, or the right number of them.
    pub open spec fn lacks_parts(self) -> bool {
        ||| self.code.is_named() && self.name is None
        ||| self.code.is_composite() && self.types is None
        ||| (self.code is List || self.code is SetOf) && self.nested().len() != 1
        ||| self.code is Dictionary && self.nested().len() != 2
    }
}

/// Nothing stands in for a missing part: a type is well formed only where
/// every type in it, at whatever depth, is well formed and lacks nothing.
pub proof fn lemma_well_formed_at_every_depth(t: ReturnType, path: Seq<int>)
    requires
        t.well_formed(),
        t.at_path(path) is Some,
    ensures
        t.at_path(path)->0.well_formed(),
        !t.at_path(path)->0.lacks_parts(),
    decreases path.len(),
{
    if path.len() > 0 {
        lemma_well_formed_at_every_depth(t.nested()[path[0]], path.skip(1));
    }
}

impl Type {
    /// The type that is reached from this one by going into the nested type
    /// at each place of `path` in turn; none where a place is not there.
    pub open spec fn at_path(self, path: Seq<int>) -> Option<Type>
        decreases path.len(),
    {
        if path.len() == 0 {
            Some(self)
        } else if self.code.is_composite() && 0 <= path[0] < self.nested().len() {
            self.nested()[path[0]].at_path(path.skip(1))
        } else {
            None
        }
    }

    /// Whether the type itself lacks what its tag calls for: the name, the
    /// list of nested types, or the right number of them.
    pub open spec fn lacks_parts(self) -> bool {
        ||| self.code.is_named() && self.name is None
        ||| self.code.is_composite() && self.types is None
        ||| (self.code is List || self.code is SetOf) && self.nested().len() != 1
        ||| self.code is Dictionary && self.nested().len() != 2
    }
}

/// The same of the type of a parameter: it is well formed only where every
/// type in it, at whatever depth, is well formed and lacks nothing.
pub proof fn lemma_parameter_type_well_formed_at_every_depth(t: Type, path: Seq<int>)
    requires
        t.well_formed(),
        t.at_path(path) is Some,
    ensures
        t.at_path(path)->0.well_formed(),
        !t.at_path(path)->0.lacks_parts(),
    decreases path.len(),
{
    if path.len() > 0 {
        lemma_parameter_type_well_formed_at_every_depth(t.nested()[path[0]], path.skip(1));
    }
}

/// The names that the entries are listed under, in order.
pub open spec fn entry_names<T>(entries: Seq<(String, T)>) -> Seq<Seq<char>> {
    Seq::new(entries.len(), |i: int| entries[i].0@)
}

/// Whether the name at `j` is the first that has occurred before.
pub open spec fn is_first_repeat(names: Seq<Seq<char>>, j: int) -> bool {
    &&& 0 <= j < names.len()
    &&& names.take(j).no_duplicates()
    &&& exists|i: int| 0 <= i < j && #[trigger] names[i] == names[j]
}

/// There is at most one first repeat, and none where no name occurs twice.
pub proof fn lemma_first_repeat_is_unique(names: Seq<Seq<char>>, j: int, k: int)
    requires
        is_first_repeat(names, j),
    ensures
        !names.no_duplicates(),
        is_first_repeat(names, k) ==> j == k,
{
    let i = choose|i: int| 0 <= i < j && #[trigger] names[i] == names[j];
    if is_first_repeat(names, k) && j < k {
        assert(names.take(k)[i] == names.take(k)[j]);
    }
    if is_first_repeat(names, k) && k < j {
        let h = choose|h: int| 0 <= h < k && #[trigger] names[h] == names[k];
        assert(names.take(j)[h] == names.take(j)[k]);
    }
}

impl Content {
    /// Every procedure, every class and every enumeration is listed under a
    /// name of its own.
    pub open spec fn names_distinct(self) -> bool {
        &&& entry_names(self.procedures@).no_duplicates()
        &&& entry_names(self.classes@).no_duplicates()
        &&& entry_names(self.enumerations@).no_duplicates()
    }
}

/// Looks for the first entry whose name has occurred before.
pub fn first_repeated<T>(entries: &Vec<(String, T)>) -> (r: Option<usize>)
    ensures
        match r {
            None => entry_names(entries@).no_duplicates(),
            Some(j) => is_first_repeat(entry_names(entries@), j as int),
        },
{
    let ghost names = entry_names(entries@);
    let mut j: usize = 0;
    while j < entries.len()
        invariant
            j <= entries@.len(),
            names == entry_names(entries@),
            names.take(j as int).no_duplicates(),
        decreases entries@.len() - j,
    {
        let mut i: usize = 0;
        while i < j
            invariant
                i <= j < entries@.len(),
                names == entry_names(entries@),
                names.take(j as int).no_duplicates(),
                forall|h: int| 0 <= h < i ==> names[h] != names[j as int],
            decreases j - i,
        {
            if entries[i].0 == entries[j].0 {
                assert(names[i as int] == names[j as int]);
                return Some(j);
            }
            i = i + 1;
        }
        proof {
            let prior = names.take(j as int);
            let next = names.take(j as int + 1);
            assert forall|a: int, b: int|
                0 <= a < next.len() && 0 <= b < next.len() && a != b implies next[a] != next[b] by {
                if a < j && b < j {
                    assert(prior[a] != prior[b]);
                }
            }
        }
        j = j + 1;
    }
    assert(names.take(entries@.len() as int) =~= names);
    None
}

/// Decides `Code::is_composite`.
pub fn is_composite(code: Code) -> (r: bool)
    ensures
        r == code.is_composite(),
{
    match code {
        Code::List | Code::Dictionary | Code::SetOf | Code::Tuple => true,
        _ => false,
    }
}

/// Decides `Code::is_named`.
pub fn is_named(code: Code) -> (r: bool)
    ensures
        r == code.is_named(),
{
    match code {
        Code::Enumeration | Code::Class => true,
        _ => false,
    }
}

} // verus!
