//! The header extractor and the parameter classifier: from one logical method
//! header to its name, its declared return type and its typed parameters.
use vstd::prelude::*;
use crate::markers::{marked, mark_commas_for_split, split_outside, split_outside_brackets};
use crate::objects::{
    chars_eq, default_type, option_view, parameter_model, Method, MethodModel, Parameter, ParameterModel,
};
use crate::text::{
    chars_of, occurs_at, find_char_exec, find_char_from, find_exec, find_from, is_word, is_word_char, is_ws,
    is_ws_char, lemma_find_char_from, lemma_find_from, slice_chars, string_of, trim, trim_chars,
    views_of,
};

verus! {

pub open spec fn def_word() -> Seq<char> {
    seq!['d', 'e', 'f']
}

/// The marker between a parameter list and the declared return type.
pub open spec fn arrow() -> Seq<char> {
    seq![' ', '-', '>', ' ']
}

/// The end of the run of word characters that starts at `i`.
pub open spec fn word_end(s: Seq<char>, i: int) -> int
    decreases s.len() - i,
{
    if i < 0 || i >= s.len() || !is_word_char(s[i]) {
        i
    } else {
        word_end(s, i + 1)
    }
}

/// The first word character at or after `i`, or the length of `s`.
pub open spec fn word_start(s: Seq<char>, i: int) -> int
    decreases s.len() - i,
{
    if i < 0 || i >= s.len() || is_word_char(s[i]) {
        i
    } else {
        word_start(s, i + 1)
    }
}

/// The method name a header declares: the trimmed header's first word must be
/// `def`, and the name is the next word.
pub open spec fn method_name_of(h: Seq<char>) -> Option<Seq<char>> {
    let t = trim(h);
    let e = word_end(t, 0);
    let b = word_start(t, e);
    if t.subrange(0, e) == def_word() && b < t.len() {
        Some(t.subrange(b, word_end(t, b)))
    } else {
        None
    }
}

/// A type text without its trailing `:` terminator.
pub open spec fn strip_terminator(s: Seq<char>) -> Seq<char> {
    if s.len() > 0 && s.last() == ':' {
        trim(s.drop_last())
    } else {
        s
    }
}

/// The declared return type: what follows the first ` -> `, trimmed, without
/// the terminator; none when the header has no arrow.
pub open spec fn output_of(h: Seq<char>) -> Option<Seq<char>> {
    let t = trim(h);
    let a = find_from(t, arrow(), 0);
    if a == -1 {
        None
    } else {
        Some(strip_terminator(trim(t.subrange(a + 4, t.len() as int))))
    }
}

/// The index of the `)` that closes the parentheses open at depth `depth`
/// when the scan reaches `i`, or -1.
pub open spec fn close_paren(s: Seq<char>, i: int, depth: nat) -> int
    decreases s.len() - i,
{
    if i < 0 || i >= s.len() {
        -1
    } else if s[i] == ')' {
        if depth <= 1 {
            i
        } else {
            close_paren(s, i + 1, (depth - 1) as nat)
        }
    } else if s[i] == '(' {
        close_paren(s, i + 1, depth + 1)
    } else {
        close_paren(s, i + 1, depth)
    }
}

/// The raw parameter text: strictly between the first `(` and its matching
/// `)`; where that `)` is missing, up to the terminator or the end.
pub open spec fn args_of(h: Seq<char>) -> Option<Seq<char>> {
    let t = trim(h);
    let o = find_char_from(t, '(', 0);
    if o == -1 {
        None
    } else {
        let c = close_paren(t, o + 1, 1);
        let end = if c != -1 {
            c
        } else if t.last() == ':' {
            t.len() - 1
        } else {
            t.len() as int
        };
        Some(t.subrange(o + 1, end))
    }
}

/// The marked parameter text of a header; none when it has no parameter text.
pub open spec fn header_arguments_of(h: Seq<char>) -> Option<Seq<char>> {
    match args_of(h) {
        Some(raw) => if raw.len() > 0 {
            Some(marked(raw))
        } else {
            None
        },
        None => None,
    }
}

/// The first `j >= i` where a `:` is followed by whitespace, or -1.
pub open spec fn colon_ws_from(s: Seq<char>, i: int) -> int
    decreases s.len() - i,
{
    if i < 0 || i + 1 >= s.len() {
        -1
    } else if s[i] == ':' && is_ws(s[i + 1]) {
        i
    } else {
        colon_ws_from(s, i + 1)
    }
}

/// One segment of a parameter list as a parameter: `name` alone takes the
/// default type, `name: type` its annotation; an empty segment, an empty name
/// or a segment with two annotations gives none.
pub open spec fn classify_one(seg: Seq<char>) -> Option<ParameterModel> {
    let t = trim(seg);
    let k = colon_ws_from(seg, 0);
    if t.len() == 0 {
        None
    } else if k == -1 {
        Some(parameter_model(t, default_type()))
    } else if colon_ws_from(seg, k + 2) != -1 {
        None
    } else {
        let n = trim(seg.subrange(0, k));
        if n.len() == 0 {
            None
        } else {
            Some(parameter_model(n, trim(seg.subrange(k + 2, seg.len() as int))))
        }
    }
}

/// The parameters of a sequence of segments, in order.
pub open spec fn classify(segs: Seq<Seq<char>>) -> Seq<ParameterModel>
    decreases segs.len(),
{
    if segs.len() == 0 {
        Seq::empty()
    } else {
        let rest = classify(segs.drop_last());
        match classify_one(segs.last()) {
            Some(p) => rest.push(p),
            None => rest,
        }
    }
}

/// The parameters a header declares.
pub open spec fn params_of(h: Seq<char>) -> Seq<ParameterModel> {
    match args_of(h) {
        Some(a) => classify(split_outside(marked(a), ',')),
        None => Seq::empty(),
    }
}

/// The method a header declares; the return type defaults to `None`.
pub open spec fn method_of(h: Seq<char>) -> MethodModel {
    MethodModel {
        name: match method_name_of(h) {
            Some(n) => n,
            None => Seq::empty(),
        },
        parameters: params_of(h),
        output: match output_of(h) {
            Some(o) => o,
            None => default_type(),
        },
    }
}

fn word_end_exec(s: &Vec<char>, i: usize) -> (r: usize)
    requires
        i <= s.len(),
    ensures
        r == word_end(s@, i as int),
        i <= r <= s.len(),
{
    let mut j: usize = i;
    while j < s.len() && is_word(s[j])
        invariant
            i <= j <= s.len(),
            word_end(s@, i as int) == word_end(s@, j as int),
        decreases s.len() - j,
    {
        j = j + 1;
    }
    j
}

fn word_start_exec(s: &Vec<char>, i: usize) -> (r: usize)
    requires
        i <= s.len(),
    ensures
        r == word_start(s@, i as int),
        i <= r <= s.len(),
{
    let mut j: usize = i;
    while j < s.len() && !is_word(s[j])
        invariant
            i <= j <= s.len(),
            word_start(s@, i as int) == word_start(s@, j as int),
        decreases s.len() - j,
    {
        j = j + 1;
    }
    j
}

/// The name a method header declares, or an error when its first word is not `def`.
pub fn extract_method_name(method_header: &String) -> (r: Result<String, &str>)
    ensures
        match r {
            Ok(n) => method_name_of(method_header@) == Some(n@),
            Err(_) => method_name_of(method_header@) is None,
        },
{
    let t = trim_chars(&chars_of(method_header.as_str()));
    let e = word_end_exec(&t, 0);
    let b = word_start_exec(&t, e);
    if b < t.len() && chars_eq(&slice_chars(&t, 0, e), &vec!['d', 'e', 'f']) {
        let w = word_end_exec(&t, b);
        Ok(string_of(slice_chars(&t, b, w).as_slice()))
    } else {
        Err("This is not a method header")
    }
}

fn strip_terminator_exec(s: Vec<char>) -> (r: Vec<char>)
    ensures
        r@ == strip_terminator(s@),
{
    if s.len() > 0 && s[s.len() - 1] == ':' {
        let d = slice_chars(&s, 0, s.len() - 1);
        assert(d@ =~= s@.drop_last());
        trim_chars(&d)
    } else {
        s
    }
}

/// The return type a method header declares after ` -> `, or an error when it has none.
pub fn extract_method_output(header: &String) -> (r: Result<String, &str>)
    ensures
        match r {
            Ok(o) => output_of(header@) == Some(o@),
            Err(_) => output_of(header@) is None,
        },
{
    let t = trim_chars(&chars_of(header.as_str()));
    proof {
        lemma_find_from(t@, arrow(), 0);
    }
    let arr = vec![' ', '-', '>', ' '];
    assert(arr@ =~= arrow());
    match find_exec(&t, &arr, 0) {
        Some(a) => {
            assert(arrow().len() == 4);
            assert(occurs_at(t@, arrow(), a as int));
            assert(a + 4 <= t.len());
            let rest = trim_chars(&slice_chars(&t, a + 4, t.len()));
            Ok(string_of(strip_terminator_exec(rest).as_slice()))
        },
        None => Err("Output type not found"),
    }
}

fn close_paren_exec(s: &Vec<char>, i: usize) -> (r: Option<usize>)
    requires
        1 <= i <= s.len(),
    ensures
        match r {
            Some(c) => close_paren(s@, i as int, 1) == c && i <= c < s.len(),
            None => close_paren(s@, i as int, 1) == -1,
        },
{
    let mut j: usize = i;
    let mut depth: usize = 1;
    while j < s.len()
        invariant
            1 <= i <= j <= s.len(),
            1 <= depth <= j - i + 1,
            close_paren(s@, i as int, 1) == close_paren(s@, j as int, depth as nat),
        decreases s.len() - j,
    {
        if s[j] == ')' {
            if depth <= 1 {
                return Some(j);
            }
            depth = depth - 1;
        } else if s[j] == '(' {
            depth = depth + 1;
        }
        j = j + 1;
    }
    None
}

/// The raw parameter text of a header, as `args_of` states it.
fn args_exec(header: &String) -> (r: Option<Vec<char>>)
    ensures
        match r {
            Some(a) => args_of(header@) == Some(a@),
            None => args_of(header@) is None,
        },
{
    let t = trim_chars(&chars_of(header.as_str()));
    proof {
        lemma_find_char_from(t@, '(', 0);
    }
    match find_char_exec(&t, '(', 0) {
        Some(o) => {
            let end = match close_paren_exec(&t, o + 1) {
                Some(c) => c,
                None => {
                    if t[t.len() - 1] == ':' {
                        t.len() - 1
                    } else {
                        t.len()
                    }
                },
            };
            Some(slice_chars(&t, o + 1, end))
        },
        None => None,
    }
}

/// The parameter text between a header's parentheses, with in-bracket commas
/// marked; none when the header declares no parameters.
pub fn get_header_arguments(header: &String) -> (r: Option<String>)
    ensures
        option_view(r) == header_arguments_of(header@),
{
    match args_exec(header) {
        Some(a) => {
            if a.len() == 0 {
                None
            } else {
                let s = string_of(a.as_slice());
                Some(mark_commas_for_split(s.as_str()))
            }
        },
        None => None,
    }
}

fn colon_ws_exec(s: &Vec<char>, i: usize) -> (r: Option<usize>)
    ensures
        match r {
            Some(k) => colon_ws_from(s@, i as int) == k && k + 1 < s.len(),
            None => colon_ws_from(s@, i as int) == -1,
        },
{
    let mut j: usize = i;
    while j < s.len() && j + 1 < s.len()
        invariant
            i <= j,
            colon_ws_from(s@, i as int) == colon_ws_from(s@, j as int),
        decreases s.len() - j,
    {
        if s[j] == ':' && is_ws_char(s[j + 1]) {
            return Some(j);
        }
        j = j + 1;
    }
    None
}

/// One segment of a parameter list as a parameter, as `classify_one` states it.
fn classify_one_exec(seg: &Vec<char>) -> (r: Option<Parameter>)
    ensures
        match r {
            Some(p) => classify_one(seg@) == Some(p@),
            None => classify_one(seg@) is None,
        },
{
    let t = trim_chars(seg);
    if t.len() == 0 {
        return None;
    }
    match colon_ws_exec(seg, 0) {
        None => {
            let n = string_of(t.as_slice());
            Some(Parameter::new(n, string_of(vec!['N', 'o', 'n', 'e'].as_slice())))
        },
        Some(k) => {
            match colon_ws_exec(seg, k + 2) {
                Some(_) => None,
                None => {
                    let n = trim_chars(&slice_chars(seg, 0, k));
                    if n.len() == 0 {
                        None
                    } else {
                        let ty = trim_chars(&slice_chars(seg, k + 2, seg.len()));
                        Some(Parameter::new(string_of(n.as_slice()), string_of(ty.as_slice())))
                    }
                },
            }
        },
    }
}

/// The parameters of the given segments, in order.
fn classify_exec(segs: &Vec<Vec<char>>) -> (r: Vec<Parameter>)
    ensures
        r@.map_values(|p: Parameter| p@) == classify(views_of(segs@)),
{
    let mut out: Vec<Parameter> = Vec::new();
    let mut i: usize = 0;
    while i < segs.len()
        invariant
            i <= segs.len(),
            out@.map_values(|p: Parameter| p@) == classify(views_of(segs@).subrange(0, i as int)),
        decreases segs.len() - i,
    {
        let ghost pre = views_of(segs@).subrange(0, i as int);
        let ghost next = views_of(segs@).subrange(0, i + 1);
        assert(next.drop_last() =~= pre);
        assert(next.last() == segs@[i as int]@);
        let ghost before = out@;
        match classify_one_exec(&segs[i]) {
            Some(p) => {
                out.push(p);
                assert(out@.map_values(|p: Parameter| p@) =~= before.map_values(
                    |p: Parameter| p@,
                ).push(out@.last()@));
            },
            None => {},
        }
        i = i + 1;
    }
    assert(views_of(segs@).subrange(0, segs.len() as int) =~= views_of(segs@));
    out
}

/// The typed parameters a method header declares, in declaration order.
pub fn extract_parameters(header: &String) -> (r: Vec<Parameter>)
    ensures
        r@.map_values(|p: Parameter| p@) == params_of(header@),
{
    match args_exec(header) {
        Some(a) => {
            let s = string_of(a.as_slice());
            let m = mark_commas_for_split(s.as_str());
            let mc = chars_of(m.as_str());
            let segs = split_outside_brackets(&mc, ',');
            classify_exec(&segs)
        },
        None => Vec::new(),
    }
}

impl Method {
    /// The method that a header declares: its name, its typed parameters and
    /// its return type (`None` when the header gives none).
    pub fn new(method_header: &String) -> (r: Self)
        requires
            method_name_of(method_header@) is Some,
        ensures
            r@ == method_of(method_header@),
    {
        let name = match extract_method_name(method_header) {
            Ok(n) => n,
            Err(_) => String::new(),
        };
        let parameters = extract_parameters(method_header);
        let output = match extract_method_output(method_header) {
            Ok(o) => o,
            Err(_) => string_of(vec!['N', 'o', 'n', 'e'].as_slice()),
        };
        Method { name, parameters, output }
    }
}

} // verus!
