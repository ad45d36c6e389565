//! The bracket-aware treatment of separators: inside `[...]` a comma belongs
//! to a type (`Dict[str, int]`), outside it divides one parameter from the next.
use vstd::prelude::*;
use crate::text::{chars_of, string_of, views_of};

verus! {

/// Whether the scan is inside brackets after reading `c`, given the state before it.
pub open spec fn inside_after(c: char, inside: bool) -> bool {
    if c == '[' {
        true
    } else if c == ']' {
        false
    } else {
        inside
    }
}

/// Copies `s`, dropping the whitespace that directly follows a comma read
/// inside brackets. `skipping` says that such a comma was just read.
pub open spec fn mark_rec(s: Seq<char>, inside: bool, skipping: bool) -> Seq<char>
    decreases s.len(),
{
    if s.len() == 0 {
        Seq::empty()
    } else if skipping && crate::text::is_ws(s[0]) {
        mark_rec(s.drop_first(), inside, true)
    } else {
        seq![s[0]] + mark_rec(s.drop_first(), inside_after(s[0], inside), s[0] == ',' && inside)
    }
}

/// The argument text with every in-bracket comma written tight (`Dict[str,int]`).
pub open spec fn marked(s: Seq<char>) -> Seq<char> {
    mark_rec(s, false, false)
}

/// Splits `s` at each `sep` read outside brackets; `cur` is the segment read so far.
pub open spec fn split_rec(s: Seq<char>, sep: char, inside: bool, cur: Seq<char>) -> Seq<Seq<char>>
    decreases s.len(),
{
    if s.len() == 0 {
        seq![cur]
    } else if s[0] == sep && !inside {
        seq![cur] + split_rec(s.drop_first(), sep, inside, Seq::empty())
    } else {
        split_rec(s.drop_first(), sep, inside_after(s[0], inside), cur.push(s[0]))
    }
}

/// The segments of `s` between the separators that stand outside brackets.
pub open spec fn split_outside(s: Seq<char>, sep: char) -> Seq<Seq<char>> {
    split_rec(s, sep, false, Seq::empty())
}

/// Marks the commas that do not divide arguments: inside brackets the
/// whitespace after a comma is dropped, so `Dict[str, int]` reads `Dict[str,int]`.
pub fn mark_commas_for_split(args: &str) -> (r: String)
    ensures
        r@ == marked(args@),
{
    let s = chars_of(args);
    let mut out: Vec<char> = Vec::new();
    let mut inside = false;
    let mut skipping = false;
    let mut i: usize = 0;
    assert(s@.subrange(0, s.len() as int) =~= s@);
    assert(out@ + marked(s@) =~= marked(s@));
    while i < s.len()
        invariant
            i <= s.len(),
            s@ == args@,
            marked(s@) == out@ + mark_rec(s@.subrange(i as int, s.len() as int), inside, skipping),
        decreases s.len() - i,
    {
        let c = s[i];
        let ghost rest = s@.subrange(i as int, s.len() as int);
        assert(rest.drop_first() =~= s@.subrange(i + 1, s.len() as int));
        assert(rest[0] == c);
        if skipping && crate::text::is_ws_char(c) {
        } else {
            let ghost before = out@;
            out.push(c);
            assert(before + rest =~= before + (seq![c] + rest.drop_first())) by {
                assert(rest =~= seq![c] + rest.drop_first());
            }
            let was_inside = inside;
            if c == '[' {
                inside = true;
            } else if c == ']' {
                inside = false;
            }
            skipping = c == ',' && was_inside;
        }
        i = i + 1;
    }
    assert(s@.subrange(s.len() as int, s.len() as int) =~= Seq::<char>::empty());
    assert(out@ + Seq::<char>::empty() =~= out@);
    string_of(out.as_slice())
}

/// Splits `s` at each `sep` that stands outside brackets.
pub fn split_outside_brackets(s: &Vec<char>, sep: char) -> (r: Vec<Vec<char>>)
    ensures
        views_of(r@) == split_outside(s@, sep),
{
    let mut out: Vec<Vec<char>> = Vec::new();
    let mut cur: Vec<char> = Vec::new();
    let mut inside = false;
    let mut i: usize = 0;
    assert(s@.subrange(0, s.len() as int) =~= s@);
    assert(views_of(out@) + split_outside(s@, sep) =~= split_outside(s@, sep));
    while i < s.len()
        invariant
            i <= s.len(),
            split_outside(s@, sep) == views_of(out@) + split_rec(
                s@.subrange(i as int, s.len() as int),
                sep,
                inside,
                cur@,
            ),
        decreases s.len() - i,
    {
        let c = s[i];
        let ghost rest = s@.subrange(i as int, s.len() as int);
        assert(rest.drop_first() =~= s@.subrange(i + 1, s.len() as int));
        assert(rest[0] == c);
        if c == sep && !inside {
            let ghost before = views_of(out@);
            let ghost piece = cur@;
            out.push(cur);
            assert(views_of(out@) =~= before.push(piece));
            cur = Vec::new();
            assert(before + (seq![piece] + split_rec(rest.drop_first(), sep, inside, Seq::empty()))
                =~= before.push(piece) + split_rec(rest.drop_first(), sep, inside, Seq::empty()));
        } else {
            cur.push(c);
            if c == '[' {
                inside = true;
            } else if c == ']' {
                inside = false;
            }
        }
        i = i + 1;
    }
    let ghost before = views_of(out@);
    let ghost piece = cur@;
    out.push(cur);
    assert(views_of(out@) =~= before.push(piece));
    assert(s@.subrange(s.len() as int, s.len() as int) =~= Seq::<char>::empty());
    assert(before + seq![piece] =~= before.push(piece));
    out
}

} // verus!
