//! The method assembler: joins method headers that wrap over several physical
//! lines and turns each complete header into a method.
use vstd::prelude::*;
use crate::header::{extract_method_name, method_name_of, method_of};
use crate::objects::{Method, MethodModel};
use crate::text::{chars_of, contains, contains_exec, string_of, string_views, trim, trim_chars};

verus! {

/// The text that marks a line as opening a method header.
pub open spec fn def_marker() -> Seq<char> {
    seq![' ', 'd', 'e', 'f', ' ']
}

/// A header fragment added to the header read so far: trimmed, after one
/// space when something was read before it.
pub open spec fn add_fragment(buf: Seq<char>, line: Seq<char>) -> Seq<char> {
    if buf.len() == 0 {
        trim(line)
    } else {
        buf + seq![' '] + trim(line)
    }
}

/// The methods found in `lines`. `started` says that a header is being
/// accumulated in `buf`; it is complete once it ends with `:`.
pub open spec fn assemble(lines: Seq<Seq<char>>, started: bool, buf: Seq<char>) -> Seq<MethodModel>
    decreases lines.len(),
{
    if lines.len() == 0 {
        Seq::empty()
    } else if !started && !contains(lines[0], def_marker()) {
        assemble(lines.drop_first(), false, buf)
    } else {
        let b = add_fragment(buf, lines[0]);
        if b.len() > 0 && b.last() == ':' {
            let here = if method_name_of(b) is Some {
                seq![method_of(b)]
            } else {
                Seq::empty()
            };
            here + assemble(lines.drop_first(), false, Seq::empty())
        } else {
            assemble(lines.drop_first(), true, b)
        }
    }
}

/// The methods of a class body, in source order.
pub open spec fn methods_of(lines: Seq<Seq<char>>) -> Seq<MethodModel> {
    assemble(lines, false, Seq::empty())
}

pub open spec fn method_views(v: Seq<Method>) -> Seq<MethodModel> {
    v.map_values(|m: Method| m@)
}

/// The methods declared in a class body, in source order. A header that
/// wraps over several lines is joined, one space between its trimmed lines,
/// until it ends with `:`; one that never
/// ends, or whose first word is not `def`, gives no method.
pub fn extract_methods(class_code: Vec<String>) -> (r: Vec<Method>)
    ensures
        method_views(r@) == methods_of(string_views(class_code@)),
{
    let ghost lines = string_views(class_code@);
    let marker = vec![' ', 'd', 'e', 'f', ' '];
    assert(marker@ =~= def_marker());
    let mut methods: Vec<Method> = Vec::new();
    let mut buf: Vec<char> = Vec::new();
    let mut started = false;
    let mut i: usize = 0;
    assert(lines.subrange(0, lines.len() as int) =~= lines);
    assert(method_views(methods@) + methods_of(lines) =~= methods_of(lines));
    while i < class_code.len()
        invariant
            i <= class_code.len(),
            lines == string_views(class_code@),
            marker@ == def_marker(),
            methods_of(lines) == method_views(methods@) + assemble(
                lines.subrange(i as int, lines.len() as int),
                started,
                buf@,
            ),
        decreases class_code.len() - i,
    {
        let ghost rest = lines.subrange(i as int, lines.len() as int);
        assert(rest.drop_first() =~= lines.subrange(i + 1, lines.len() as int));
        assert(rest[0] == class_code@[i as int]@);
        let line = chars_of(class_code[i].as_str());
        if started || contains_exec(&line, &marker) {
            let mut t = trim_chars(&line);
            let ghost before = buf@;
            if buf.len() > 0 {
                buf.push(' ');
            }
            buf.append(&mut t);
            assert(buf@ =~= add_fragment(before, rest[0]));
            if buf.len() > 0 && buf[buf.len() - 1] == ':' {
                let header = string_of(buf.as_slice());
                let ghost before = methods@;
                match extract_method_name(&header) {
                    Ok(_) => {
                        methods.push(Method::new(&header));
                        assert(method_views(methods@) =~= method_views(before) + seq![
                            method_of(header@),
                        ]);
                    },
                    Err(_) => {
                        assert(method_views(methods@) =~= method_views(before) + Seq::empty());
                    },
                }
                buf = Vec::new();
                started = false;
            } else {
                started = true;
            }
        }
        i = i + 1;
    }
    assert(lines.subrange(lines.len() as int, lines.len() as int) =~= Seq::<Seq<char>>::empty());
    assert(method_views(methods@) + Seq::<MethodModel>::empty() =~= method_views(methods@));
    methods
}

} // verus!
