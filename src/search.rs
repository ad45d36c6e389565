//! The project search engine. A project is a tree of directories and files
//! in listing order; the exact search returns the first class summary met
//! depth-first, the fuzzy search collects every matching class declaration.
use vstd::prelude::*;
use crate::class::{class_block_of, class_word, declares_class, decl_from, str_views, summary_of};
use crate::text::string_views;
use crate::objects::{ClassModel, PythonClass};
use crate::text::{
    chars_of, contains, contains_exec, occurs_at_exec, starts_with, string_of, trim, trim_chars,
};

verus! {

/// An entry of a project tree: a directory with its entries in listing
/// order, or a file with its lines. Only the lines of source files are ever
/// read, so other files may be given none; so may a file that could not be
/// read, which then contributes nothing.
pub enum ProjectEntry {
    Directory { path: String, entries: Vec<ProjectEntry> },
    File { path: String, lines: Vec<String> },
}

/// A file as the search sees it: its path and its lines.
pub type FileModel = (Seq<char>, Seq<Seq<char>>);

/// A fuzzy-search match: the declaration line and the path of its file.
pub type MatchModel = (Seq<char>, Seq<char>);

/// The files of a tree, in depth-first listing order.
pub open spec fn files_of(e: ProjectEntry) -> Seq<FileModel>
    decreases e,
{
    match e {
        ProjectEntry::File { path, lines } => seq![(path@, string_views(lines@))],
        ProjectEntry::Directory { path, entries } => files_of_seq(entries@),
    }
}

pub open spec fn files_of_seq(es: Seq<ProjectEntry>) -> Seq<FileModel>
    decreases es,
{
    if es.len() == 0 {
        Seq::empty()
    } else {
        files_of(es[0]) + files_of_seq(es.subrange(1, es.len() as int))
    }
}

/// A path whose file name has the `py` extension: it ends in `.py` and the
/// name is more than the bare `.py`.
pub open spec fn is_source_path(path: Seq<char>) -> bool {
    &&& path.len() > 3
    &&& path.subrange(path.len() - 3, path.len() as int) == seq!['.', 'p', 'y']
    &&& path[path.len() - 4] != '/'
}

/// A source file with a line that declares the class.
pub open spec fn file_declares(f: FileModel, name: Seq<char>) -> bool {
    is_source_path(f.0) && decl_from(f.1, name, 0) != -1
}

/// The summary from the first file that declares the class.
pub open spec fn first_match(files: Seq<FileModel>, name: Seq<char>) -> Option<ClassModel>
    decreases files.len(),
{
    if files.len() == 0 {
        None
    } else if file_declares(files[0], name) {
        Some(summary_of(class_block_of(files[0].1, name), name))
    } else {
        first_match(files.drop_first(), name)
    }
}

/// The result of the exact search over a tree.
pub open spec fn find_spec(tree: ProjectEntry, name: Seq<char>) -> Option<ClassModel> {
    first_match(files_of(tree), name)
}

/// A declaration line that mentions the keyword.
pub open spec fn is_class_line(line: Seq<char>, keyword: Seq<char>) -> bool {
    starts_with(trim(line), class_word()) && contains(line, keyword)
}

/// The matching declaration lines of one file, each with the file's path.
pub open spec fn grep_lines(lines: Seq<Seq<char>>, keyword: Seq<char>, file: Seq<char>) -> Seq<
    MatchModel,
>
    decreases lines.len(),
{
    if lines.len() == 0 {
        Seq::empty()
    } else if is_class_line(lines.last(), keyword) {
        grep_lines(lines.drop_last(), keyword, file).push((lines.last(), file))
    } else {
        grep_lines(lines.drop_last(), keyword, file)
    }
}

/// The matches of every source file, in order.
pub open spec fn grep_files(files: Seq<FileModel>, keyword: Seq<char>) -> Seq<MatchModel>
    decreases files.len(),
{
    if files.len() == 0 {
        Seq::empty()
    } else {
        (if is_source_path(files[0].0) {
            grep_lines(files[0].1, keyword, files[0].0)
        } else {
            Seq::empty()
        }) + grep_files(files.drop_first(), keyword)
    }
}

/// The result of the fuzzy search over a tree.
pub open spec fn grep_spec(tree: ProjectEntry, keyword: Seq<char>) -> Seq<MatchModel> {
    grep_files(files_of(tree), keyword)
}

pub open spec fn match_views(v: Seq<(String, String)>) -> Seq<MatchModel> {
    v.map_values(|m: (String, String)| (m.0@, m.1@))
}

pub proof fn lemma_first_match_concat(a: Seq<FileModel>, b: Seq<FileModel>, name: Seq<char>)
    ensures
        first_match(a + b, name) == match first_match(a, name) {
            Some(c) => Some(c),
            None => first_match(b, name),
        },
    decreases a.len(),
{
    if a.len() > 0 {
        assert((a + b).drop_first() =~= a.drop_first() + b);
        lemma_first_match_concat(a.drop_first(), b, name);
    } else {
        assert(a + b =~= b);
    }
}

pub proof fn lemma_grep_files_concat(a: Seq<FileModel>, b: Seq<FileModel>, keyword: Seq<char>)
    ensures
        grep_files(a + b, keyword) == grep_files(a, keyword) + grep_files(b, keyword),
    decreases a.len(),
{
    if a.len() > 0 {
        assert((a + b).drop_first() =~= a.drop_first() + b);
        lemma_grep_files_concat(a.drop_first(), b, keyword);
        assert(grep_files(a + b, keyword) =~= grep_files(a, keyword) + grep_files(b, keyword));
    } else {
        assert(a + b =~= b);
        assert(grep_files(a, keyword) + grep_files(b, keyword) =~= grep_files(b, keyword));
    }
}

/// Whether a path names a source file (extension `py`).
pub fn is_source_file(path: &str) -> (r: bool)
    ensures
        r == is_source_path(path@),
{
    let p = chars_of(path);
    let n = p.len();
    if n <= 3 {
        return false;
    }
    let ext = vec!['.', 'p', 'y'];
    let r = occurs_at_exec(&p, &ext, n - 3) && p[n - 4] != '/';
    assert(r == is_source_path(path@)) by {
        assert(ext@ =~= seq!['.', 'p', 'y']);
    }
    r
}

/// Appends the matching declaration lines of one file to `found`.
fn grep_into(
    lines: &Vec<&str>,
    keyword: &Vec<char>,
    file_name: &str,
    found: &mut Vec<(String, String)>,
)
    ensures
        match_views(final(found)@) == match_views(old(found)@) + grep_lines(
            str_views(lines@),
            keyword@,
            file_name@,
        ),
{
    let ghost ls = str_views(lines@);
    let ghost start = match_views(found@);
    let word = vec!['c', 'l', 'a', 's', 's', ' '];
    assert(word@ =~= class_word());
    let mut i: usize = 0;
    assert(start + grep_lines(ls.subrange(0, 0), keyword@, file_name@) =~= start);
    while i < lines.len()
        invariant
            i <= lines.len(),
            ls == str_views(lines@),
            word@ == class_word(),
            match_views(found@) == start + grep_lines(ls.subrange(0, i as int), keyword@, file_name@),
        decreases lines.len() - i,
    {
        let ghost pre = ls.subrange(0, i as int);
        let ghost next = ls.subrange(0, i + 1);
        assert(next.drop_last() =~= pre);
        assert(next.last() == lines@[i as int]@);
        let l = chars_of(lines[i]);
        let t = trim_chars(&l);
        if occurs_at_exec(&t, &word, 0) && contains_exec(&l, keyword) {
            let ghost before = found@;
            found.push((string_of(l.as_slice()), string_of(chars_of(file_name).as_slice())));
            assert(match_views(found@) =~= match_views(before).push((l@, file_name@)));
        }
        i = i + 1;
    }
    assert(ls.subrange(0, lines.len() as int) =~= ls);
}

/// Every class declaration line of a file that mentions `keyword`, with the
/// file's name, in line order; none when there is no such line.
pub fn grep_class(lines: Vec<&str>, keyword: &String, file_name: &str) -> (r: Option<
    Vec<(String, String)>,
>)
    ensures
        match r {
            Some(v) => match_views(v@) == grep_lines(str_views(lines@), keyword@, file_name@)
                && v.len() > 0,
            None => grep_lines(str_views(lines@), keyword@, file_name@).len() == 0,
        },
{
    let mut found: Vec<(String, String)> = Vec::new();
    let kw = chars_of(keyword.as_str());
    grep_into(&lines, &kw, file_name, &mut found);
    assert(match_views(Seq::<(String, String)>::empty()) + grep_lines(
        str_views(lines@),
        keyword@,
        file_name@,
    ) =~= grep_lines(str_views(lines@), keyword@, file_name@));
    if found.len() > 0 {
        Some(found)
    } else {
        None
    }
}

fn as_strs(lines: &Vec<String>) -> (r: Vec<&str>)
    ensures
        str_views(r@) == string_views(lines@),
{
    let mut r: Vec<&str> = Vec::new();
    let mut i: usize = 0;
    while i < lines.len()
        invariant
            i <= lines.len(),
            str_views(r@) == string_views(lines@).subrange(0, i as int),
        decreases lines.len() - i,
    {
        let ghost before = r@;
        let l = lines[i].as_str();
        r.push(l);
        assert(str_views(r@) =~= str_views(before).push(lines@[i as int]@));
        assert(string_views(lines@).subrange(0, i + 1) =~= string_views(lines@).subrange(0, i as int).push(lines@[i as int]@));
        i = i + 1;
    }
    assert(string_views(lines@).subrange(0, lines.len() as int) =~= string_views(lines@));
    r
}

fn file_declares_exec(lines: &Vec<&str>, class_name: &str) -> (r: bool)
    ensures
        r == (decl_from(str_views(lines@), class_name@, 0) != -1),
{
    let ghost ls = str_views(lines@);
    let mut k: usize = 0;
    while k < lines.len()
        invariant
            k <= lines.len(),
            ls == str_views(lines@),
            decl_from(ls, class_name@, 0) == decl_from(ls, class_name@, k as int),
        decreases lines.len() - k,
    {
        if declares_class(lines[k], class_name) {
            return true;
        }
        k = k + 1;
    }
    false
}

/// The summary of the class `class_name` from the first source file, met
/// depth-first in listing order, that declares it; none when no file does.
pub fn find_class(tree: &ProjectEntry, class_name: &str) -> (r: Option<PythonClass>)
    ensures
        match r {
            Some(c) => find_spec(*tree, class_name@) == Some(c@),
            None => find_spec(*tree, class_name@) is None,
        },
    decreases tree,
{
    match tree {
        ProjectEntry::File { path, lines } => {
            let strs = as_strs(lines);
            assert(files_of(*tree) == seq![(path@, string_views(lines@))]);
            assert(files_of(*tree).drop_first() =~= Seq::<FileModel>::empty());
            assert(first_match(Seq::<FileModel>::empty(), class_name@) is None);
            if is_source_file(path.as_str()) && file_declares_exec(&strs, class_name) {
                Some(crate::class::extract_python_class(strs, class_name))
            } else {
                None
            }
        },
        ProjectEntry::Directory { path, entries } => {
            let ghost es = entries@;
            let mut i: usize = 0;
            assert(es.subrange(0, es.len() as int) =~= es);
            while i < entries.len()
                invariant
                    i <= entries.len(),
                    es == entries@,
                    *tree is Directory,
                    tree->Directory_entries == *entries,
                    find_spec(*tree, class_name@) == first_match(
                        files_of_seq(es.subrange(i as int, es.len() as int)),
                        class_name@,
                    ),
                decreases entries.len() - i,
            {
                let ghost rest = es.subrange(i as int, es.len() as int);
                assert(rest.subrange(1, rest.len() as int) =~= es.subrange(i + 1, es.len() as int));
                proof {
                    lemma_first_match_concat(
                        files_of(es[i as int]),
                        files_of_seq(es.subrange(i + 1, es.len() as int)),
                        class_name@,
                    );
                }
                proof {
                    assert(decreases_to!(*tree => tree->Directory_entries));
                    assert(decreases_to!(*entries => entries[i as int]));
                }
                match find_class(&entries[i], class_name) {
                    Some(c) => {
                        return Some(c);
                    },
                    None => {},
                }
                i = i + 1;
            }
            None
        },
    }
}

fn grep_tree_into(tree: &ProjectEntry, keyword: &Vec<char>, found: &mut Vec<(String, String)>)
    ensures
        match_views(final(found)@) == match_views(old(found)@) + grep_spec(*tree, keyword@),
    decreases tree,
{
    match tree {
        ProjectEntry::File { path, lines } => {
            if is_source_file(path.as_str()) {
                let strs = as_strs(lines);
                grep_into(&strs, keyword, path.as_str(), found);
                assert(files_of(*tree).drop_first() =~= Seq::<FileModel>::empty());
                assert(grep_files(Seq::<FileModel>::empty(), keyword@) =~= Seq::<MatchModel>::empty());
                assert(grep_spec(*tree, keyword@) =~= grep_lines(
                    string_views(lines@),
                    keyword@,
                    path@,
                ));
            } else {
                assert(files_of(*tree).drop_first() =~= Seq::<FileModel>::empty());
                assert(grep_files(Seq::<FileModel>::empty(), keyword@) =~= Seq::<MatchModel>::empty());
                assert(grep_spec(*tree, keyword@) =~= Seq::<MatchModel>::empty());
                assert(match_views(found@) + Seq::<MatchModel>::empty() =~= match_views(found@));
            }
        },
        ProjectEntry::Directory { path, entries } => {
            let ghost es = entries@;
            let ghost start = match_views(found@);
            let mut i: usize = 0;
            assert(es.subrange(0, es.len() as int) =~= es);
            assert(start + grep_spec(*tree, keyword@) =~= start + grep_spec(*tree, keyword@));
            while i < entries.len()
                invariant
                    i <= entries.len(),
                    es == entries@,
                    *tree is Directory,
                    tree->Directory_entries == *entries,
                    start + grep_spec(*tree, keyword@) == match_views(found@) + grep_files(
                        files_of_seq(es.subrange(i as int, es.len() as int)),
                        keyword@,
                    ),
                decreases entries.len() - i,
            {
                let ghost rest = es.subrange(i as int, es.len() as int);
                assert(rest.subrange(1, rest.len() as int) =~= es.subrange(i + 1, es.len() as int));
                proof {
                    lemma_grep_files_concat(
                        files_of(es[i as int]),
                        files_of_seq(es.subrange(i + 1, es.len() as int)),
                        keyword@,
                    );
                }
                let ghost before = match_views(found@);
                proof {
                    assert(decreases_to!(*tree => tree->Directory_entries));
                    assert(decreases_to!(*entries => entries[i as int]));
                }
                grep_tree_into(&entries[i], keyword, found);
                assert(before + (grep_spec(entries@[i as int], keyword@) + grep_files(
                    files_of_seq(es.subrange(i + 1, es.len() as int)),
                    keyword@,
                )) =~= match_views(found@) + grep_files(
                    files_of_seq(es.subrange(i + 1, es.len() as int)),
                    keyword@,
                ));
                i = i + 1;
            }
            assert(es.subrange(es.len() as int, es.len() as int) =~= Seq::<ProjectEntry>::empty());
            assert(match_views(found@) + Seq::<MatchModel>::empty() =~= match_views(found@));
        },
    }
}

/// Every class declaration line that mentions `keyword` in the source files
/// of the tree, each with its file's path, in depth-first listing order;
/// none when there is no such line.
pub fn grep_project(tree: &ProjectEntry, keyword: &String) -> (r: Option<Vec<(String, String)>>)
    ensures
        match r {
            Some(v) => match_views(v@) == grep_spec(*tree, keyword@) && v.len() > 0,
            None => grep_spec(*tree, keyword@).len() == 0,
        },
{
    let mut found: Vec<(String, String)> = Vec::new();
    let kw = chars_of(keyword.as_str());
    grep_tree_into(tree, &kw, &mut found);
    assert(match_views(Seq::<(String, String)>::empty()) + grep_spec(*tree, keyword@) =~= grep_spec(
        *tree,
        keyword@,
    ));
    if found.len() > 0 {
        Some(found)
    } else {
        None
    }
}

} // verus!
