//! Builds class summaries from the records an exact parser backend reports:
//! a method as (name, parameters, return type), where the parameters are
//! `name||type` entries separated by commas.
use vstd::prelude::*;
use crate::text::string_views;
use crate::objects::{
    chars_eq, default_type, parameter_model, ClassModel, Method, MethodModel,
    Parameter, ParameterModel, PythonClass,
};
use crate::text::{chars_of, occurs_at, occurs_at_exec, slice_chars, string_of, views_of};

verus! {

/// The separator between a parameter's name and its type in a record.
pub open spec fn bars() -> Seq<char> {
    seq!['|', '|']
}

/// The pieces of `s` between the occurrences of `sep`, read from the left;
/// the piece being read starts at `start` and the scan stands at `i`.
pub open spec fn split_from(s: Seq<char>, sep: Seq<char>, start: int, i: int) -> Seq<Seq<char>>
    decreases s.len() - i,
{
    if i < 0 || sep.len() == 0 || i + sep.len() > s.len() {
        seq![s.subrange(start, s.len() as int)]
    } else if occurs_at(s, sep, i) {
        seq![s.subrange(start, i)] + split_from(s, sep, i + sep.len(), i + sep.len())
    } else {
        split_from(s, sep, start, i + 1)
    }
}

/// `s` split at every occurrence of `sep`, as `str::split` does.
pub open spec fn split_on(s: Seq<char>, sep: Seq<char>) -> Seq<Seq<char>> {
    split_from(s, sep, 0, 0)
}

/// The non-empty pieces, in order.
pub open spec fn drop_empty(v: Seq<Seq<char>>) -> Seq<Seq<char>>
    decreases v.len(),
{
    if v.len() == 0 {
        Seq::empty()
    } else if v.last().len() == 0 {
        drop_empty(v.drop_last())
    } else {
        drop_empty(v.drop_last()).push(v.last())
    }
}

/// A `name||type` record as a parameter; a record without exactly two
/// non-empty parts gives none.
pub open spec fn record_parameter(r: Seq<char>) -> Option<ParameterModel> {
    let v = drop_empty(split_on(r, bars()));
    if v.len() == 2 {
        Some(parameter_model(v[0], v[1]))
    } else {
        None
    }
}

/// The parameters of a sequence of records, in order.
pub open spec fn record_parameters(rs: Seq<Seq<char>>) -> Seq<ParameterModel>
    decreases rs.len(),
{
    if rs.len() == 0 {
        Seq::empty()
    } else {
        match record_parameter(rs.last()) {
            Some(p) => record_parameters(rs.drop_last()).push(p),
            None => record_parameters(rs.drop_last()),
        }
    }
}

/// A method record as a method: its parameter text is split at commas.
pub open spec fn record_method(name: Seq<char>, params: Seq<char>, output: Seq<char>) -> MethodModel {
    MethodModel {
        name,
        parameters: record_parameters(drop_empty(split_on(params, seq![',']))),
        output,
    }
}

pub open spec fn record_views(v: Seq<(String, String, String)>) -> Seq<MethodModel> {
    v.map_values(|m: (String, String, String)| record_method(m.0@, m.1@, m.2@))
}

/// A reported docstring: the backend reports `None` for a class without one.
pub open spec fn reported_docstring(d: Seq<char>) -> Option<Seq<char>> {
    if d == default_type() {
        None
    } else {
        Some(d)
    }
}

/// `str::split` on character vectors.
fn split_exec(s: &Vec<char>, sep: &Vec<char>) -> (r: Vec<Vec<char>>)
    requires
        sep.len() > 0,
    ensures
        views_of(r@) == split_on(s@, sep@),
{
    let mut out: Vec<Vec<char>> = Vec::new();
    let mut start: usize = 0;
    let mut i: usize = 0;
    assert(views_of(out@) + split_on(s@, sep@) =~= split_on(s@, sep@));
    while i <= s.len() && sep.len() <= s.len() - i
        invariant
            start <= i,
            sep.len() > 0,
            i <= s.len() || start <= s.len(),
            start <= s.len(),
            split_on(s@, sep@) == views_of(out@) + split_from(s@, sep@, start as int, i as int),
        decreases s.len() + 1 - i,
    {
        if occurs_at_exec(s, sep, i) {
            let ghost before = views_of(out@);
            let piece = slice_chars(s, start, i);
            out.push(piece);
            assert(views_of(out@) =~= before.push(s@.subrange(start as int, i as int)));
            assert(before + (seq![s@.subrange(start as int, i as int)] + split_from(
                s@,
                sep@,
                i + sep.len(),
                i + sep.len(),
            )) =~= views_of(out@) + split_from(s@, sep@, i + sep.len(), i + sep.len()));
            i = i + sep.len();
            start = i;
        } else {
            i = i + 1;
        }
    }
    let ghost before = views_of(out@);
    let piece = slice_chars(s, start, s.len());
    out.push(piece);
    assert(views_of(out@) =~= before.push(s@.subrange(start as int, s.len() as int)));
    assert(before + seq![s@.subrange(start as int, s.len() as int)] =~= views_of(out@));
    out
}

fn drop_empty_exec(v: Vec<Vec<char>>) -> (r: Vec<Vec<char>>)
    ensures
        views_of(r@) == drop_empty(views_of(v@)),
{
    let mut out: Vec<Vec<char>> = Vec::new();
    let mut i: usize = 0;
    while i < v.len()
        invariant
            i <= v.len(),
            views_of(out@) == drop_empty(views_of(v@).subrange(0, i as int)),
        decreases v.len() - i,
    {
        let ghost pre = views_of(v@).subrange(0, i as int);
        let ghost next = views_of(v@).subrange(0, i + 1);
        assert(next.drop_last() =~= pre);
        assert(next.last() == v@[i as int]@);
        if v[i].len() > 0 {
            let ghost before = views_of(out@);
            out.push(slice_chars(&v[i], 0, v[i].len()));
            assert(views_of(out@) =~= before.push(v@[i as int]@)) by {
                assert(v@[i as int]@.subrange(0, v@[i as int]@.len() as int) =~= v@[i as int]@);
            }
        }
        i = i + 1;
    }
    assert(views_of(v@).subrange(0, v.len() as int) =~= views_of(v@));
    out
}

/// The parameters of `name||type` records, in order; a record without
/// exactly two non-empty parts is left out.
pub fn parse_method_parameter(parameters: Vec<String>) -> (r: Vec<Parameter>)
    ensures
        r@.map_values(|p: Parameter| p@) == record_parameters(string_views(parameters@)),
{
    let sep = vec!['|', '|'];
    assert(sep@ =~= bars());
    let mut out: Vec<Parameter> = Vec::new();
    let mut i: usize = 0;
    while i < parameters.len()
        invariant
            i <= parameters.len(),
            sep@ == bars(),
            out@.map_values(|p: Parameter| p@) == record_parameters(
                string_views(parameters@).subrange(0, i as int),
            ),
        decreases parameters.len() - i,
    {
        let ghost pre = string_views(parameters@).subrange(0, i as int);
        let ghost next = string_views(parameters@).subrange(0, i + 1);
        assert(next.drop_last() =~= pre);
        assert(next.last() == parameters@[i as int]@);
        let parts = drop_empty_exec(split_exec(&chars_of(parameters[i].as_str()), &sep));
        if parts.len() == 2 {
            let ghost before = out@;
            out.push(Parameter::new(string_of(parts[0].as_slice()), string_of(parts[1].as_slice())));
            assert(out@.map_values(|p: Parameter| p@) =~= before.map_values(|p: Parameter| p@).push(
                out@.last()@,
            ));
        }
        i = i + 1;
    }
    assert(string_views(parameters@).subrange(0, parameters.len() as int) =~= string_views(
        parameters@,
    ));
    out
}

/// The methods of the reported method records, in order.
pub fn parse_method(methods_data: Vec<(String, String, String)>) -> (r: Vec<Method>)
    ensures
        r@.map_values(|m: Method| m@) == record_views(methods_data@),
{
    let comma = vec![','];
    assert(comma@ =~= seq![',']);
    let mut out: Vec<Method> = Vec::new();
    let mut i: usize = 0;
    while i < methods_data.len()
        invariant
            i <= methods_data.len(),
            comma@ == seq![','],
            out@.map_values(|m: Method| m@) == record_views(methods_data@).subrange(0, i as int),
        decreases methods_data.len() - i,
    {
        let name = methods_data[i].0.clone();
        let output = methods_data[i].2.clone();
        let raw = drop_empty_exec(split_exec(&chars_of(methods_data[i].1.as_str()), &comma));
        let mut texts: Vec<String> = Vec::new();
        let mut k: usize = 0;
        while k < raw.len()
            invariant
                k <= raw.len(),
                string_views(texts@) == views_of(raw@).subrange(0, k as int),
            decreases raw.len() - k,
        {
            let ghost before = texts@;
            texts.push(string_of(raw[k].as_slice()));
            assert(string_views(texts@) =~= string_views(before).push(raw@[k as int]@));
            assert(views_of(raw@).subrange(0, k + 1) =~= views_of(raw@).subrange(0, k as int).push(
                raw@[k as int]@,
            ));
            k = k + 1;
        }
        assert(views_of(raw@).subrange(0, raw.len() as int) =~= views_of(raw@));
        let parameters = parse_method_parameter(texts);
        let ghost before = out@;
        out.push(Method { name, parameters, output });
        assert(out@.map_values(|m: Method| m@) =~= before.map_values(|m: Method| m@).push(
            out@.last()@,
        ));
        assert(record_views(methods_data@).subrange(0, i + 1) =~= record_views(methods_data@).subrange(
            0,
            i as int,
        ).push(out@.last()@));
        i = i + 1;
    }
    assert(record_views(methods_data@).subrange(0, methods_data.len() as int) =~= record_views(
        methods_data@,
    ));
    out
}

/// The summary of a class from the records the backend reports for it. A
/// reported docstring of `None` stands for a class without one.
pub fn parse_class(
    name: String,
    methods: Vec<(String, String, String)>,
    docstring: String,
    inheritance: Vec<String>,
) -> (r: PythonClass)
    ensures
        r@ == (ClassModel {
            name: name@,
            methods: record_views(methods@),
            inheritance: string_views(inheritance@),
            docstring: reported_docstring(docstring@),
        }),
{
    let methods = parse_method(methods);
    let d = chars_of(docstring.as_str());
    let docstring = if chars_eq(&d, &vec!['N', 'o', 'n', 'e']) {
        None
    } else {
        Some(docstring)
    };
    PythonClass { name, methods, inheritance, docstring }
}

/// The lines of a file's text: the pieces between its `\n` characters.
pub fn split_lines(content: &str) -> (r: Vec<String>)
    ensures
        string_views(r@) == split_on(content@, seq!['\n']),
{
    let nl = vec!['\n'];
    assert(nl@ =~= seq!['\n']);
    let pieces = split_exec(&chars_of(content), &nl);
    let mut out: Vec<String> = Vec::new();
    let mut k: usize = 0;
    while k < pieces.len()
        invariant
            k <= pieces.len(),
            string_views(out@) == views_of(pieces@).subrange(0, k as int),
        decreases pieces.len() - k,
    {
        let ghost before = out@;
        out.push(string_of(pieces[k].as_slice()));
        assert(string_views(out@) =~= string_views(before).push(pieces@[k as int]@));
        assert(views_of(pieces@).subrange(0, k + 1) =~= views_of(pieces@).subrange(0, k as int).push(
            pieces@[k as int]@,
        ));
        k = k + 1;
    }
    assert(views_of(pieces@).subrange(0, pieces.len() as int) =~= views_of(pieces@));
    out
}

} // verus!
