//! The docstring extractor: the first triple-quoted block of a class.
use vstd::prelude::*;
use crate::text::{
    chars_of, contains, contains_exec, find_exec, find_from, lemma_find_from, occurs_at,
    occurs_at_exec, starts_with, string_of, trim, trim_chars,
};
use crate::text::string_views;

verus! {

/// The docstring delimiter, three double quotes.
pub open spec fn quotes() -> Seq<char> {
    seq!['"', '"', '"']
}

pub open spec fn newline() -> Seq<char> {
    seq!['\n']
}

/// `s` with every delimiter, read from the left, taken out.
pub open spec fn strip_quotes(s: Seq<char>) -> Seq<char>
    decreases s.len(),
{
    if s.len() == 0 {
        s
    } else if starts_with(s, quotes()) {
        strip_quotes(s.subrange(3, s.len() as int))
    } else {
        seq![s[0]] + strip_quotes(s.drop_first())
    }
}

/// A docstring line as it is kept: trimmed, without delimiters.
pub open spec fn formatted(line: Seq<char>) -> Seq<char> {
    strip_quotes(trim(line))
}

/// The line holds two delimiters, one after the other.
pub open spec fn has_two_quotes(line: Seq<char>) -> bool {
    let i = find_from(line, quotes(), 0);
    i != -1 && find_from(line, quotes(), i + 3) != -1
}

/// The docstring lines of `lines`. Before the docstring (`started` false) a
/// line with a delimiter opens it, and closes it too if it holds two; inside,
/// every line is kept and the first with a delimiter closes it.
pub open spec fn doc_rec(lines: Seq<Seq<char>>, started: bool) -> Seq<Seq<char>>
    decreases lines.len(),
{
    if lines.len() == 0 {
        Seq::empty()
    } else {
        let l = lines[0];
        if !started && !contains(l, quotes()) {
            doc_rec(lines.drop_first(), false)
        } else if (!started && has_two_quotes(l)) || (started && contains(l, quotes())) {
            seq![formatted(l)]
        } else {
            seq![formatted(l)] + doc_rec(lines.drop_first(), true)
        }
    }
}

pub open spec fn doc_lines(block: Seq<Seq<char>>) -> Seq<Seq<char>> {
    doc_rec(block, false)
}

/// `parts` joined with `sep` between each two.
pub open spec fn join(parts: Seq<Seq<char>>, sep: Seq<char>) -> Seq<char>
    decreases parts.len(),
{
    if parts.len() == 0 {
        Seq::empty()
    } else if parts.len() == 1 {
        parts[0]
    } else {
        join(parts.drop_last(), sep) + sep + parts.last()
    }
}

/// The docstring of a class block: its lines joined by newlines, or none
/// when the block holds no delimiter.
pub open spec fn docstring_of(block: Seq<Seq<char>>) -> Option<Seq<char>> {
    if doc_lines(block).len() == 0 {
        None
    } else {
        Some(join(doc_lines(block), newline()))
    }
}

/// A docstring line trimmed and stripped of its delimiters.
pub fn format_line(line: &str) -> (r: String)
    ensures
        r@ == formatted(line@),
{
    let t = trim_chars(&chars_of(line));
    let q = vec!['"', '"', '"'];
    assert(q@ =~= quotes());
    let mut out: Vec<char> = Vec::new();
    let mut i: usize = 0;
    assert(t@.subrange(0, t.len() as int) =~= t@);
    assert(out@ + strip_quotes(t@) =~= strip_quotes(t@));
    while i < t.len()
        invariant
            i <= t.len(),
            q@ == quotes(),
            formatted(line@) == strip_quotes(t@),
            strip_quotes(t@) == out@ + strip_quotes(t@.subrange(i as int, t.len() as int)),
        decreases t.len() - i,
    {
        let ghost rest = t@.subrange(i as int, t.len() as int);
        if occurs_at_exec(&t, &q, i) {
            assert(rest.subrange(0, 3) =~= t@.subrange(i as int, i + 3));
            assert(rest.subrange(3, rest.len() as int) =~= t@.subrange(i + 3, t.len() as int));
            i = i + 3;
        } else {
            assert(!starts_with(rest, quotes())) by {
                if starts_with(rest, quotes()) {
                    assert(rest.subrange(0, 3) =~= t@.subrange(i as int, i + 3));
                }
            }
            assert(rest.drop_first() =~= t@.subrange(i + 1, t.len() as int));
            let ghost before = out@;
            out.push(t[i]);
            assert(before + (seq![t@[i as int]] + strip_quotes(rest.drop_first())) =~= out@
                + strip_quotes(rest.drop_first()));
            i = i + 1;
        }
    }
    assert(t@.subrange(t.len() as int, t.len() as int) =~= Seq::<char>::empty());
    assert(out@ + Seq::<char>::empty() =~= out@);
    string_of(out.as_slice())
}

fn has_two_quotes_exec(line: &Vec<char>) -> (r: bool)
    ensures
        r == has_two_quotes(line@),
{
    let q = vec!['"', '"', '"'];
    assert(q@ =~= quotes());
    proof {
        lemma_find_from(line@, quotes(), 0);
    }
    match find_exec(line, &q, 0) {
        Some(i) => {
            assert(occurs_at(line@, quotes(), i as int));
            assert(i + 3 <= line.len());
            match find_exec(line, &q, i + 3) {
                Some(_) => true,
                None => false,
            }
        },
        None => false,
    }
}

/// The lines of the first docstring of a class block, each trimmed and
/// stripped of its delimiters; none when the block holds no delimiter.
pub fn get_docstring(code_block: &Vec<String>) -> (r: Option<Vec<String>>)
    ensures
        match r {
            Some(v) => doc_lines(string_views(code_block@)) == string_views(v@) && v.len() > 0,
            None => doc_lines(string_views(code_block@)).len() == 0,
        },
{
    let ghost lines = string_views(code_block@);
    let q = vec!['"', '"', '"'];
    assert(q@ =~= quotes());
    let mut out: Vec<String> = Vec::new();
    let mut started = false;
    let mut i: usize = 0;
    assert(lines.subrange(0, lines.len() as int) =~= lines);
    assert(string_views(out@) + doc_lines(lines) =~= doc_lines(lines));
    while i < code_block.len()
        invariant
            i <= code_block.len(),
            lines == string_views(code_block@),
            q@ == quotes(),
            started ==> out.len() > 0,
            doc_lines(lines) == string_views(out@) + doc_rec(
                lines.subrange(i as int, lines.len() as int),
                started,
            ),
        decreases code_block.len() - i,
    {
        let ghost rest = lines.subrange(i as int, lines.len() as int);
        assert(rest.drop_first() =~= lines.subrange(i + 1, lines.len() as int));
        assert(rest[0] == code_block@[i as int]@);
        let line = chars_of(code_block[i].as_str());
        let has = contains_exec(&line, &q);
        if started || has {
            let ghost before = out@;
            out.push(format_line(code_block[i].as_str()));
            assert(string_views(out@) =~= string_views(before) + seq![formatted(rest[0])]);
            if (!started && has_two_quotes_exec(&line)) || (started && has) {
                assert(string_views(out@) + Seq::empty() =~= string_views(out@));
                return Some(out);
            }
            assert(string_views(before) + (seq![formatted(rest[0])] + doc_rec(
                rest.drop_first(),
                true,
            )) =~= string_views(out@) + doc_rec(rest.drop_first(), true));
            started = true;
        }
        i = i + 1;
    }
    assert(lines.subrange(lines.len() as int, lines.len() as int) =~= Seq::<Seq<char>>::empty());
    assert(string_views(out@) + Seq::<Seq<char>>::empty() =~= string_views(out@));
    if out.len() == 0 {
        None
    } else {
        Some(out)
    }
}

/// The docstring lines joined by newlines.
fn join_lines(parts: &Vec<String>) -> (r: String)
    ensures
        r@ == join(string_views(parts@), newline()),
{
    let ghost ps = string_views(parts@);
    let mut out: Vec<char> = Vec::new();
    let mut i: usize = 0;
    while i < parts.len()
        invariant
            i <= parts.len(),
            ps == string_views(parts@),
            out@ == join(ps.subrange(0, i as int), newline()),
        decreases parts.len() - i,
    {
        let ghost pre = ps.subrange(0, i as int);
        let ghost next = ps.subrange(0, i + 1);
        assert(next.drop_last() =~= pre);
        assert(next.last() == parts@[i as int]@);
        let mut piece = chars_of(parts[i].as_str());
        if i > 0 {
            out.push('\n');
        } else {
            assert(next.len() == 1);
            assert(out@ =~= Seq::<char>::empty());
        }
        out.append(&mut piece);
        assert(i == 0 ==> out@ =~= next[0]);
        assert(i > 0 ==> out@ =~= join(pre, newline()) + newline() + next.last());
        i = i + 1;
    }
    assert(ps.subrange(0, parts.len() as int) =~= ps);
    string_of(out.as_slice())
}

/// The docstring of a class block, its lines joined by newlines; none when
/// the block holds no delimiter.
pub fn extract_docstring(code_block: &Vec<String>) -> (r: Option<String>)
    ensures
        crate::objects::option_view(r) == docstring_of(string_views(code_block@)),
{
    match get_docstring(code_block) {
        Some(v) => Some(join_lines(&v)),
        None => None,
    }
}

} // verus!
