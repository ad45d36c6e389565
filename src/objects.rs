//! The records the extractor produces, and their mathematical models.
use vstd::prelude::*;
use crate::text::{chars_of, string_of};

verus! {

/// A parameter as the library reasons about it.
pub struct ParameterModel {
    pub name: Seq<char>,
    pub static_type: Seq<char>,
}

/// A method as the library reasons about it.
pub struct MethodModel {
    pub name: Seq<char>,
    pub parameters: Seq<ParameterModel>,
    pub output: Seq<char>,
}

/// A class summary as the library reasons about it.
pub struct ClassModel {
    pub name: Seq<char>,
    pub methods: Seq<MethodModel>,
    pub inheritance: Seq<Seq<char>>,
    pub docstring: Option<Seq<char>>,
}

/// The type recorded when a parameter or a method carries no annotation.
pub open spec fn default_type() -> Seq<char> {
    seq!['N', 'o', 'n', 'e']
}

/// The type recorded for a receiver parameter.
pub open spec fn self_type() -> Seq<char> {
    seq!['S', 'e', 'l', 'f']
}

/// `self` and `cls`, the receiver-parameter names.
pub open spec fn is_receiver(name: Seq<char>) -> bool {
    name == seq!['s', 'e', 'l', 'f'] || name == seq!['c', 'l', 's']
}

/// The parameter built from a name and its declared type: receivers are typed `Self`.
pub open spec fn parameter_model(name: Seq<char>, static_type: Seq<char>) -> ParameterModel {
    ParameterModel {
        name,
        static_type: if is_receiver(name) {
            self_type()
        } else {
            static_type
        },
    }
}

#[derive(Debug, PartialEq)]
pub struct Parameter {
    pub name: String,
    pub static_type: String,
}

impl View for Parameter {
    type V = ParameterModel;

    open spec fn view(&self) -> ParameterModel {
        ParameterModel { name: self.name@, static_type: self.static_type@ }
    }
}

#[derive(Debug, PartialEq)]
pub struct Method {
    pub name: String,
    pub parameters: Vec<Parameter>,
    pub output: String,
}

impl View for Method {
    type V = MethodModel;

    open spec fn view(&self) -> MethodModel {
        MethodModel {
            name: self.name@,
            parameters: self.parameters@.map_values(|p: Parameter| p@),
            output: self.output@,
        }
    }
}

pub open spec fn option_view(o: Option<String>) -> Option<Seq<char>> {
    match o {
        Some(s) => Some(s@),
        None => None,
    }
}

#[derive(Debug, PartialEq)]
pub struct PythonClass {
    pub name: String,
    pub methods: Vec<Method>,
    pub inheritance: Vec<String>,
    pub docstring: Option<String>,
}

impl View for PythonClass {
    type V = ClassModel;

    open spec fn view(&self) -> ClassModel {
        ClassModel {
            name: self.name@,
            methods: self.methods@.map_values(|m: Method| m@),
            inheritance: self.inheritance@.map_values(|b: String| b@),
            docstring: option_view(self.docstring),
        }
    }
}

/// What a run of the finder is asked for: the class name, the directory to
/// search, and whether to list every class whose declaration mentions the name
/// instead of summarising the one class.
pub struct CLI {
    pub grep: bool,
    pub class_name: String,
    pub path: String,
}

/// Whether two character sequences are equal.
pub fn chars_eq(a: &Vec<char>, b: &Vec<char>) -> (r: bool)
    ensures
        r == (a@ == b@),
{
    if a.len() != b.len() {
        return false;
    }
    let mut i: usize = 0;
    while i < a.len()
        invariant
            a.len() == b.len(),
            i <= a.len(),
            forall|k: int| 0 <= k < i ==> a@[k] == b@[k],
        decreases a.len() - i,
    {
        if a[i] != b[i] {
            return false;
        }
        i = i + 1;
    }
    assert(a@ =~= b@);
    true
}

impl Parameter {
    /// A parameter named `name` of type `static_type`; `self` and `cls` are
    /// typed `Self` whatever the annotation says.
    pub fn new(name: String, static_type: String) -> (r: Self)
        ensures
            r@ == parameter_model(name@, static_type@),
    {
        let n = chars_of(name.as_str());
        let receiver = chars_eq(&n, &vec!['s', 'e', 'l', 'f']) || chars_eq(&n, &vec!['c', 'l', 's']);
        if receiver {
            let t = vec!['S', 'e', 'l', 'f'];
            Parameter { name, static_type: string_of(t.as_slice()) }
        } else {
            Parameter { name, static_type }
        }
    }
}

} // verus!
