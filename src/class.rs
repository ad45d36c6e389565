//! The class block isolator and the inheritance extractor, and the class
//! summary built from them.
use vstd::prelude::*;
use crate::docstrings::{docstring_of, extract_docstring};
use crate::markers::{split_outside, split_outside_brackets};
use crate::methods::{extract_methods, methods_of};
use crate::text::string_views;
use crate::objects::{ClassModel, PythonClass};
use crate::text::{
    chars_of, contains, contains_exec, find_char_exec, find_char_from, lemma_find_char_from,
    slice_chars, string_of, trim, trim_chars, views_of,
};

verus! {

pub open spec fn class_word() -> Seq<char> {
    seq!['c', 'l', 'a', 's', 's', ' ']
}

/// `class Name:`, the declaration of a class without bases.
pub open spec fn decl_plain(name: Seq<char>) -> Seq<char> {
    class_word() + name + seq![':']
}

/// `class Name(`, the declaration of a class with bases.
pub open spec fn decl_bases(name: Seq<char>) -> Seq<char> {
    class_word() + name + seq!['(']
}

pub open spec fn is_decl_line(line: Seq<char>, name: Seq<char>) -> bool {
    contains(line, decl_plain(name)) || contains(line, decl_bases(name))
}

/// The first index `j >= i` of a line that declares the class, or -1.
pub open spec fn decl_from(lines: Seq<Seq<char>>, name: Seq<char>, i: int) -> int
    decreases lines.len() - i,
{
    if i < 0 || i >= lines.len() {
        -1
    } else if is_decl_line(lines[i], name) {
        i
    } else {
        decl_from(lines, name, i + 1)
    }
}

/// The end (exclusive) of a block whose lines from `j` on are still read: the
/// block stops after the first empty line that follows an empty line.
pub open spec fn block_end(lines: Seq<Seq<char>>, j: int) -> int
    decreases lines.len() - j,
{
    if j < 1 || j >= lines.len() {
        lines.len() as int
    } else if lines[j].len() == 0 && lines[j - 1].len() == 0 {
        j + 1
    } else {
        block_end(lines, j + 1)
    }
}

/// The lines of the class's block: from its declaration up to and including
/// the second of the first two consecutive empty lines; empty when no line
/// declares it.
pub open spec fn class_block_of(lines: Seq<Seq<char>>, name: Seq<char>) -> Seq<Seq<char>> {
    let k = decl_from(lines, name, 0);
    if k == -1 {
        Seq::empty()
    } else {
        lines.subrange(k, block_end(lines, k + 1))
    }
}

/// The trimmed, non-empty segments, in order.
pub open spec fn names_of(segs: Seq<Seq<char>>) -> Seq<Seq<char>>
    decreases segs.len(),
{
    if segs.len() == 0 {
        Seq::empty()
    } else if trim(segs.last()).len() == 0 {
        names_of(segs.drop_last())
    } else {
        names_of(segs.drop_last()).push(trim(segs.last()))
    }
}

/// The bases a class header lists between its parentheses; none when it has
/// no parenthesis.
pub open spec fn bases_of(line: Seq<char>) -> Option<Seq<Seq<char>>> {
    let t = trim(line);
    let o = find_char_from(t, '(', 0);
    if o == -1 {
        None
    } else {
        let c = find_char_from(t, ')', o + 1);
        let end = if c == -1 {
            t.len() as int
        } else {
            c
        };
        Some(names_of(split_outside(t.subrange(o + 1, end), ',')))
    }
}

/// The summary of a class from its block.
pub open spec fn summary_of(block: Seq<Seq<char>>, name: Seq<char>) -> ClassModel {
    ClassModel {
        name,
        methods: methods_of(block),
        inheritance: if block.len() > 0 {
            match bases_of(block[0]) {
                Some(b) => b,
                None => Seq::empty(),
            }
        } else {
            Seq::empty()
        },
        docstring: docstring_of(block),
    }
}

pub open spec fn str_views(v: Seq<&str>) -> Seq<Seq<char>> {
    v.map_values(|s: &str| s@)
}

fn decl_pattern(name: &Vec<char>, last: char) -> (r: Vec<char>)
    ensures
        r@ == class_word() + name@ + seq![last],
{
    let mut r = vec!['c', 'l', 'a', 's', 's', ' '];
    let mut n = name.clone();
    r.append(&mut n);
    r.push(last);
    assert(r@ =~= class_word() + name@ + seq![last]);
    r
}

/// Whether a line declares the class `name`.
pub fn declares_class(line: &str, class_name: &str) -> (r: bool)
    ensures
        r == is_decl_line(line@, class_name@),
{
    let l = chars_of(line);
    let n = chars_of(class_name);
    contains_exec(&l, &decl_pattern(&n, ':')) || contains_exec(&l, &decl_pattern(&n, '('))
}

fn block_end_exec(lines: &Vec<&str>, j: usize) -> (r: usize)
    requires
        1 <= j <= lines.len(),
    ensures
        r == block_end(str_views(lines@), j as int),
        j <= r <= lines.len(),
{
    let ghost ls = str_views(lines@);
    let mut i: usize = j;
    while i < lines.len()
        invariant
            1 <= j <= i <= lines.len(),
            ls == str_views(lines@),
            block_end(ls, j as int) == block_end(ls, i as int),
        decreases lines.len() - i,
    {
        if lines[i].is_empty() && lines[i - 1].is_empty() {
            return i + 1;
        }
        i = i + 1;
    }
    i
}

/// The lines of a class's block within a file: from the line that declares
/// `class_name` up to the first two consecutive empty lines; empty when no
/// line declares it.
pub fn class_block(code_lines: &Vec<&str>, class_name: &str) -> (r: Vec<String>)
    ensures
        string_views(r@) == class_block_of(str_views(code_lines@), class_name@),
{
    let ghost ls = str_views(code_lines@);
    let mut k: usize = 0;
    while k < code_lines.len() && !declares_class(code_lines[k], class_name)
        invariant
            k <= code_lines.len(),
            ls == str_views(code_lines@),
            decl_from(ls, class_name@, 0) == decl_from(ls, class_name@, k as int),
        decreases code_lines.len() - k,
    {
        k = k + 1;
    }
    let mut out: Vec<String> = Vec::new();
    if k == code_lines.len() {
        return out;
    }
    let end = block_end_exec(code_lines, k + 1);
    let mut i: usize = k;
    while i < end
        invariant
            k <= i <= end <= code_lines.len(),
            ls == str_views(code_lines@),
            string_views(out@) == ls.subrange(k as int, i as int),
        decreases end - i,
    {
        let ghost before = out@;
        assert(ls[i as int] == code_lines@[i as int]@);
        let line = string_of(chars_of(code_lines[i]).as_slice());
        out.push(line);
        assert(string_views(out@) =~= string_views(before).push(ls[i as int]));
        assert(ls.subrange(k as int, i + 1) =~= ls.subrange(k as int, i as int).push(ls[i as int]));
        i = i + 1;
    }
    out
}

/// The trimmed, non-empty segments, as `names_of` states it.
fn names_exec(segs: &Vec<Vec<char>>) -> (r: Vec<String>)
    ensures
        string_views(r@) == names_of(views_of(segs@)),
{
    let mut out: Vec<String> = Vec::new();
    let mut i: usize = 0;
    while i < segs.len()
        invariant
            i <= segs.len(),
            string_views(out@) == names_of(views_of(segs@).subrange(0, i as int)),
        decreases segs.len() - i,
    {
        let ghost pre = views_of(segs@).subrange(0, i as int);
        let ghost next = views_of(segs@).subrange(0, i + 1);
        assert(next.drop_last() =~= pre);
        assert(next.last() == segs@[i as int]@);
        let t = trim_chars(&segs[i]);
        if t.len() > 0 {
            let ghost before = out@;
            out.push(string_of(t.as_slice()));
            assert(string_views(out@) =~= string_views(before).push(t@));
        }
        i = i + 1;
    }
    assert(views_of(segs@).subrange(0, segs.len() as int) =~= views_of(segs@));
    out
}

/// The bases a class header lists between its parentheses, in declared
/// order; none when the header has no parenthesis.
pub fn extract_class_inheritance(line: &String) -> (r: Option<Vec<String>>)
    ensures
        match r {
            Some(v) => bases_of(line@) == Some(string_views(v@)),
            None => bases_of(line@) is None,
        },
{
    let t = trim_chars(&chars_of(line.as_str()));
    proof {
        lemma_find_char_from(t@, '(', 0);
    }
    match find_char_exec(&t, '(', 0) {
        Some(o) => {
            proof {
                lemma_find_char_from(t@, ')', o + 1);
            }
            let end = match find_char_exec(&t, ')', o + 1) {
                Some(c) => c,
                None => t.len(),
            };
            let inner = slice_chars(&t, o + 1, end);
            let segs = split_outside_brackets(&inner, ',');
            Some(names_exec(&segs))
        },
        None => None,
    }
}

impl PythonClass {
    /// The summary of the class `name` from the lines of its block: its
    /// methods, the bases on its declaration line, and its docstring.
    pub fn new(class_code: Vec<String>, name: String) -> (r: Self)
        ensures
            r@ == summary_of(string_views(class_code@), name@),
    {
        let docstring = extract_docstring(&class_code);
        let inheritance = if class_code.len() > 0 {
            match extract_class_inheritance(&class_code[0]) {
                Some(v) => v,
                None => Vec::new(),
            }
        } else {
            Vec::new()
        };
        let methods = extract_methods(class_code);
        let r = PythonClass { name, methods, inheritance, docstring };
        assert(r@.inheritance =~= summary_of(string_views(class_code@), name@).inheritance);
        r
    }
}

/// The summary of the class `class_name` from the lines of a file.
pub fn extract_python_class(code_lines: Vec<&str>, class_name: &str) -> (r: PythonClass)
    ensures
        r@ == summary_of(class_block_of(str_views(code_lines@), class_name@), class_name@),
{
    let block = class_block(&code_lines, class_name);
    PythonClass::new(block, string_of(chars_of(class_name).as_slice()))
}

} // verus!
