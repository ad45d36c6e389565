//! Properties of the extractor and the search, stated over the models and
//! proved.
use vstd::prelude::*;
use crate::class::{bases_of, class_block_of, class_word, names_of, summary_of};
use crate::docstrings::{
    doc_lines, doc_rec, docstring_of, formatted, has_two_quotes, join, quotes, strip_quotes,
};
use crate::header::{
    arrow, classify, classify_one, close_paren, colon_ws_from, def_word, method_name_of, method_of,
    output_of, word_end, word_start,
};
use crate::markers::{inside_after, mark_rec, marked, split_outside, split_rec};
use crate::methods::{add_fragment, assemble, def_marker, methods_of};
use crate::objects::{parameter_model, ClassModel, MethodModel, ParameterModel, PythonClass};
use crate::search::{
    file_declares, files_of, find_spec, first_match, grep_files, grep_lines, grep_spec,
    is_class_line, is_source_path, FileModel, MatchModel, ProjectEntry,
};
use crate::text::{
    contains, find_char_from, find_from, is_word_char, is_ws, lemma_find_char_from,
    lemma_trim_start_skip, occurs_at, starts_with, trim, trim_end, trim_start,
};

verus! {

// Lemmas on the character vocabulary.

pub proof fn lemma_trim_is_slice(s: Seq<char>)
    ensures
        exists|a: int, b: int| 0 <= a <= b <= s.len() && trim(s) == s.subrange(a, b),
{
    lemma_trim_start_suffix(s);
    let k = choose|k: int| 0 <= k <= s.len() && trim_start(s) == s.subrange(k, s.len() as int);
    let t = trim_start(s);
    lemma_trim_end_prefix(t);
    let m = choose|m: int| 0 <= m <= t.len() && trim_end(t) == t.subrange(0, m);
    assert(trim(s) =~= s.subrange(k, k + m));
}

pub proof fn lemma_trim_start_suffix(s: Seq<char>)
    ensures
        exists|k: int| 0 <= k <= s.len() && trim_start(s) == s.subrange(k, s.len() as int),
    decreases s.len(),
{
    if s.len() > 0 && is_ws(s[0]) {
        lemma_trim_start_suffix(s.drop_first());
        let k = choose|k: int|
            0 <= k <= s.drop_first().len() && trim_start(s.drop_first()) == s.drop_first().subrange(
                k,
                s.drop_first().len() as int,
            );
        assert(s.drop_first().subrange(k, s.drop_first().len() as int) =~= s.subrange(
            k + 1,
            s.len() as int,
        ));
    } else {
        assert(s.subrange(0, s.len() as int) =~= s);
    }
}

pub proof fn lemma_trim_end_prefix(s: Seq<char>)
    ensures
        exists|m: int| 0 <= m <= s.len() && trim_end(s) == s.subrange(0, m),
    decreases s.len(),
{
    if s.len() > 0 && is_ws(s.last()) {
        lemma_trim_end_prefix(s.drop_last());
        let m = choose|m: int|
            0 <= m <= s.drop_last().len() && trim_end(s.drop_last()) == s.drop_last().subrange(0, m);
        assert(s.drop_last().subrange(0, m) =~= s.subrange(0, m));
    } else {
        assert(s.subrange(0, s.len() as int) =~= s);
    }
}

/// Whitespace before a text that starts and ends with a non-space is trimmed away.
pub proof fn lemma_trim_indented(w: Seq<char>, s: Seq<char>)
    requires
        forall|i: int| 0 <= i < w.len() ==> is_ws(w[i]),
        s.len() > 0,
        !is_ws(s[0]),
        !is_ws(s.last()),
    ensures
        trim(w + s) == s,
{
    let ws = w + s;
    lemma_trim_start_skip(ws, w.len() as int);
    assert(ws.subrange(w.len() as int, ws.len() as int) =~= s);
}

/// `find_from` gives the first occurrence at or after `i`.
pub proof fn lemma_find_from_is(s: Seq<char>, p: Seq<char>, i: int, j: int)
    requires
        0 <= i <= j,
        occurs_at(s, p, j),
        forall|k: int| i <= k < j ==> !occurs_at(s, p, k),
    ensures
        find_from(s, p, i) == j,
    decreases j - i,
{
    if i < j {
        lemma_find_from_is(s, p, i + 1, j);
    }
}

// The inheritance extractor.

/// A class whose declaration line holds no parenthesis has no bases.
pub proof fn lemma_no_bases(block: Seq<Seq<char>>, name: Seq<char>)
    requires
        block.len() > 0,
        forall|i: int| 0 <= i < block[0].len() ==> block[0][i] != '(',
    ensures
        bases_of(block[0]) is None,
        summary_of(block, name).inheritance == Seq::<Seq<char>>::empty(),
{
    let t = trim(block[0]);
    lemma_trim_is_slice(block[0]);
    lemma_find_char_from(t, '(', 0);
    if find_char_from(t, '(', 0) != -1 {
        let o = find_char_from(t, '(', 0);
        let (a, b) = choose|a: int, b: int|
            0 <= a <= b <= block[0].len() && t == block[0].subrange(a, b);
        assert(t[o] == block[0][a + o]);
    }
}

// The docstring extractor.

proof fn lemma_doc_rec_none(lines: Seq<Seq<char>>)
    requires
        forall|i: int| 0 <= i < lines.len() ==> !contains(#[trigger] lines[i], quotes()),
    ensures
        doc_rec(lines, false) == Seq::<Seq<char>>::empty(),
    decreases lines.len(),
{
    if lines.len() > 0 {
        assert(!contains(lines[0], quotes()));
        lemma_doc_rec_none(lines.drop_first());
    }
}

/// A class block without a triple quote has no docstring.
pub proof fn lemma_no_docstring(block: Seq<Seq<char>>)
    requires
        forall|i: int| 0 <= i < block.len() ==> !contains(#[trigger] block[i], quotes()),
    ensures
        docstring_of(block) is None,
{
    lemma_doc_rec_none(block);
}

proof fn lemma_strip_quotes_short(u: Seq<char>)
    requires
        u.len() < 3,
    ensures
        strip_quotes(u) == u,
    decreases u.len(),
{
    if u.len() > 0 {
        assert(!starts_with(u, quotes()));
        lemma_strip_quotes_short(u.drop_first());
        assert(seq![u[0]] + u.drop_first() =~= u);
    }
}

proof fn lemma_strip_quotes_free(t: Seq<char>)
    requires
        !contains(t, quotes()),
    ensures
        strip_quotes(t + quotes()) == t,
    decreases t.len(),
{
    let q = quotes();
    let s = t + q;
    assert(q.len() == 3);
    if starts_with(s, q) {
        if t.len() >= 3 {
            assert(t.subrange(0, 3) =~= s.subrange(0, 3));
            assert(occurs_at(t, q, 0));
        }
        assert forall|i: int| 0 <= i < t.len() implies t[i] == '"' by {
            assert(s.subrange(0, 3)[i] == s[i]);
        }
        assert(s.subrange(3, s.len() as int) =~= t) by {
            assert forall|i: int| 0 <= i < t.len() implies s.subrange(3, s.len() as int)[i] == t[i] by {
                if i + 3 < t.len() {
                } else {
                    assert(s[i + 3] == q[i + 3 - t.len()]);
                }
            }
        }
        lemma_strip_quotes_short(t);
    } else {
        assert(t.len() > 0) by {
            if t.len() == 0 {
                assert(s =~= q);
                assert(s.subrange(0, 3) =~= q);
            }
        }
        assert(s.drop_first() =~= t.drop_first() + q);
        assert(!contains(t.drop_first(), q)) by {
            if contains(t.drop_first(), q) {
                let j = choose|j: int| occurs_at(t.drop_first(), q, j);
                assert(t.drop_first().subrange(j, j + 3) =~= t.subrange(j + 1, j + 4));
                assert(occurs_at(t, q, j + 1));
            }
        }
        lemma_strip_quotes_free(t.drop_first());
        assert(seq![s[0]] + t.drop_first() =~= t);
    }
}

proof fn lemma_doc_rec_skip(lines: Seq<Seq<char>>, k: int)
    requires
        0 <= k <= lines.len(),
        forall|i: int| 0 <= i < k ==> !contains(#[trigger] lines[i], quotes()),
    ensures
        doc_rec(lines, false) == doc_rec(lines.subrange(k, lines.len() as int), false),
    decreases k,
{
    if k > 0 {
        assert(!contains(lines[0], quotes()));
        lemma_doc_rec_skip(lines.drop_first(), k - 1);
        assert(lines.drop_first().subrange(k - 1, lines.drop_first().len() as int) =~= lines.subrange(
            k,
            lines.len() as int,
        ));
        assert forall|i: int| 0 <= i < k - 1 implies !contains(
            #[trigger] lines.drop_first()[i],
            quotes(),
        ) by {
            assert(lines.drop_first()[i] == lines[i + 1]);
        }
    } else {
        assert(lines.subrange(0, lines.len() as int) =~= lines);
    }
}

proof fn lemma_quoted_line_has_two(indent: Seq<char>, text: Seq<char>)
    requires
        forall|i: int| 0 <= i < indent.len() ==> is_ws(indent[i]),
    ensures
        contains(indent + quotes() + text + quotes(), quotes()),
        has_two_quotes(indent + quotes() + text + quotes()),
{
    let line = indent + quotes() + text + quotes();
    let n = indent.len() as int;
    let q = quotes();
    assert(occurs_at(line, q, n)) by {
        assert(line.subrange(n, n + 3) =~= q);
    }
    assert forall|j: int| 0 <= j < n implies !occurs_at(line, q, j) by {
        if occurs_at(line, q, j) {
            assert(line.subrange(j, j + 3)[0] == line[j]);
            assert(line[j] == indent[j]);
        }
    }
    lemma_find_from_is(line, q, 0, n);
    let e = n + 3 + text.len();
    assert(occurs_at(line, q, e)) by {
        assert(line.subrange(e, e + 3) =~= q);
    }
    crate::text::lemma_find_from(line, q, n + 3);
}

proof fn lemma_quoted_line_text(indent: Seq<char>, text: Seq<char>)
    requires
        forall|i: int| 0 <= i < indent.len() ==> is_ws(indent[i]),
        !contains(text, quotes()),
    ensures
        formatted(indent + quotes() + text + quotes()) == text,
{
    let q = quotes();
    let core = q + text + q;
    assert(indent + q + text + q =~= indent + core);
    assert(core[0] == '"');
    assert(core.last() == '"');
    lemma_trim_indented(indent, core);
    assert(starts_with(core, q)) by {
        assert(core.subrange(0, 3) =~= q);
    }
    assert(core.subrange(3, core.len() as int) =~= text + q);
    lemma_strip_quotes_free(text);
}

/// A class whose first triple-quoted line is `"""text"""`, indented, has the
/// docstring `text`, for any text without a triple quote of its own.
pub proof fn lemma_single_line_docstring(
    block: Seq<Seq<char>>,
    k: int,
    indent: Seq<char>,
    text: Seq<char>,
)
    requires
        0 <= k < block.len(),
        forall|i: int| 0 <= i < k ==> !contains(#[trigger] block[i], quotes()),
        block[k] == indent + quotes() + text + quotes(),
        forall|i: int| 0 <= i < indent.len() ==> is_ws(indent[i]),
        !contains(text, quotes()),
    ensures
        docstring_of(block) == Some(text),
{
    lemma_doc_rec_skip(block, k);
    let rest = block.subrange(k, block.len() as int);
    assert(rest[0] == block[k]);
    lemma_quoted_line_has_two(indent, text);
    lemma_quoted_line_text(indent, text);
    assert(doc_rec(rest, false) == seq![text]);
    assert(doc_lines(block) == seq![text]);
}

// The project search.

proof fn lemma_first_match_at(files: Seq<FileModel>, name: Seq<char>, j: int)
    requires
        0 <= j < files.len(),
        file_declares(files[j], name),
        forall|i: int| 0 <= i < j ==> !file_declares(#[trigger] files[i], name),
    ensures
        first_match(files, name) == Some(summary_of(class_block_of(files[j].1, name), name)),
    decreases j,
{
    if j > 0 {
        assert(!file_declares(files[0], name));
        assert forall|i: int| 0 <= i < j - 1 implies !file_declares(
            #[trigger] files.drop_first()[i],
            name,
        ) by {
            assert(files.drop_first()[i] == files[i + 1]);
        }
        lemma_first_match_at(files.drop_first(), name, j - 1);
    }
}

proof fn lemma_first_match_none(files: Seq<FileModel>, name: Seq<char>)
    requires
        forall|i: int| 0 <= i < files.len() ==> !file_declares(#[trigger] files[i], name),
    ensures
        first_match(files, name) is None,
    decreases files.len(),
{
    if files.len() > 0 {
        assert(!file_declares(files[0], name));
        assert forall|i: int| 0 <= i < files.len() - 1 implies !file_declares(
            #[trigger] files.drop_first()[i],
            name,
        ) by {
            assert(files.drop_first()[i] == files[i + 1]);
        }
        lemma_first_match_none(files.drop_first(), name);
    }
}

/// When exactly one file of the tree declares the class, the exact search
/// returns the summary of the class's block in that file.
pub proof fn lemma_find_in_single_file(tree: ProjectEntry, name: Seq<char>, j: int)
    requires
        0 <= j < files_of(tree).len(),
        file_declares(files_of(tree)[j], name),
        forall|i: int|
            0 <= i < files_of(tree).len() && i != j ==> !file_declares(
                #[trigger] files_of(tree)[i],
                name,
            ),
    ensures
        find_spec(tree, name) == Some(
            summary_of(class_block_of(files_of(tree)[j].1, name), name),
        ),
{
    lemma_first_match_at(files_of(tree), name, j);
}

/// When no file of the tree declares the class, the exact search finds nothing.
pub proof fn lemma_find_absent(tree: ProjectEntry, name: Seq<char>)
    requires
        forall|i: int|
            0 <= i < files_of(tree).len() ==> !file_declares(#[trigger] files_of(tree)[i], name),
    ensures
        find_spec(tree, name) is None,
{
    lemma_first_match_none(files_of(tree), name);
}

/// The source files of a file list, in order.
pub open spec fn source_files(files: Seq<FileModel>) -> Seq<FileModel>
    decreases files.len(),
{
    if files.len() == 0 {
        Seq::empty()
    } else if is_source_path(files[0].0) {
        seq![files[0]] + source_files(files.drop_first())
    } else {
        source_files(files.drop_first())
    }
}

proof fn lemma_first_match_sources(files: Seq<FileModel>, name: Seq<char>)
    ensures
        first_match(files, name) == first_match(source_files(files), name),
    decreases files.len(),
{
    if files.len() > 0 {
        lemma_first_match_sources(files.drop_first(), name);
        if is_source_path(files[0].0) {
            let sf = seq![files[0]] + source_files(files.drop_first());
            assert(sf[0] == files[0]);
            assert(sf.drop_first() =~= source_files(files.drop_first()));
        }
    }
}

proof fn lemma_grep_files_sources(files: Seq<FileModel>, keyword: Seq<char>)
    ensures
        grep_files(files, keyword) == grep_files(source_files(files), keyword),
    decreases files.len(),
{
    if files.len() > 0 {
        lemma_grep_files_sources(files.drop_first(), keyword);
        if is_source_path(files[0].0) {
            let sf = seq![files[0]] + source_files(files.drop_first());
            assert(sf[0] == files[0]);
            assert(sf.drop_first() =~= source_files(files.drop_first()));
        } else {
            assert(Seq::<MatchModel>::empty() + grep_files(files.drop_first(), keyword)
                =~= grep_files(files.drop_first(), keyword));
        }
    }
}

/// The search never reads a file outside the source extension: trees with
/// the same source files, in the same order, give the same results, exact
/// and fuzzy, whatever other files they add, lack or change.
pub proof fn lemma_search_reads_only_sources(
    t1: ProjectEntry,
    t2: ProjectEntry,
    name: Seq<char>,
    keyword: Seq<char>,
)
    requires
        source_files(files_of(t1)) == source_files(files_of(t2)),
    ensures
        find_spec(t1, name) == find_spec(t2, name),
        grep_spec(t1, keyword) == grep_spec(t2, keyword),
{
    lemma_first_match_sources(files_of(t1), name);
    lemma_first_match_sources(files_of(t2), name);
    lemma_grep_files_sources(files_of(t1), keyword);
    lemma_grep_files_sources(files_of(t2), keyword);
}

/// The view of a search result.
pub open spec fn found_view(r: Option<PythonClass>) -> Option<ClassModel> {
    match r {
        Some(c) => Some(c@),
        None => None,
    }
}

/// Searching an unchanged tree twice gives the same summary both times.
pub proof fn lemma_search_idempotent(
    tree: ProjectEntry,
    name: Seq<char>,
    first: Option<PythonClass>,
    second: Option<PythonClass>,
)
    requires
        found_view(first) == find_spec(tree, name),
        found_view(second) == find_spec(tree, name),
    ensures
        found_view(first) == found_view(second),
{
}

proof fn lemma_grep_lines_none(lines: Seq<Seq<char>>, keyword: Seq<char>, file: Seq<char>)
    requires
        forall|i: int| 0 <= i < lines.len() ==> !is_class_line(#[trigger] lines[i], keyword),
    ensures
        grep_lines(lines, keyword, file) == Seq::<MatchModel>::empty(),
    decreases lines.len(),
{
    if lines.len() > 0 {
        assert(!is_class_line(lines[lines.len() - 1], keyword));
        lemma_grep_lines_none(lines.drop_last(), keyword, file);
    }
}

proof fn lemma_grep_files_none(files: Seq<FileModel>, keyword: Seq<char>)
    requires
        forall|i: int, j: int|
            0 <= i < files.len() && is_source_path(files[i].0) && 0 <= j < files[i].1.len()
                ==> !is_class_line(#[trigger] files[i].1[j], keyword),
    ensures
        grep_files(files, keyword) == Seq::<MatchModel>::empty(),
    decreases files.len(),
{
    if files.len() > 0 {
        if is_source_path(files[0].0) {
            assert forall|j: int| 0 <= j < files[0].1.len() implies !is_class_line(
                #[trigger] files[0].1[j],
                keyword,
            ) by {}
            lemma_grep_lines_none(files[0].1, keyword, files[0].0);
        }
        assert forall|i: int, j: int|
            0 <= i < files.drop_first().len() && is_source_path(files.drop_first()[i].0) && 0 <= j
                < files.drop_first()[i].1.len() implies !is_class_line(
            #[trigger] files.drop_first()[i].1[j],
            keyword,
        ) by {
            assert(files.drop_first()[i] == files[i + 1]);
        }
        lemma_grep_files_none(files.drop_first(), keyword);
        assert(grep_files(files, keyword) =~= Seq::<MatchModel>::empty());
    }
}

/// When no class declaration line of a source file mentions the keyword, the
/// fuzzy search finds nothing.
pub proof fn lemma_grep_absent(tree: ProjectEntry, keyword: Seq<char>)
    requires
        forall|i: int, j: int|
            0 <= i < files_of(tree).len() && is_source_path(files_of(tree)[i].0) && 0 <= j
                < files_of(tree)[i].1.len() ==> !is_class_line(
                #[trigger] files_of(tree)[i].1[j],
                keyword,
            ),
    ensures
        grep_spec(tree, keyword) == Seq::<MatchModel>::empty(),
{
    lemma_grep_files_none(files_of(tree), keyword);
}

/// Match `m` is the declaration line `j` of the source file `i`, which
/// mentions the keyword, paired with that file's path.
pub open spec fn match_from(files: Seq<FileModel>, keyword: Seq<char>, m: MatchModel, i: int, j: int) -> bool {
    &&& 0 <= i < files.len()
    &&& is_source_path(files[i].0)
    &&& 0 <= j < files[i].1.len()
    &&& m == (files[i].1[j], files[i].0)
    &&& is_class_line(files[i].1[j], keyword)
}

/// The index of the line that match `m` of one file comes from.
pub open spec fn line_source(lines: Seq<Seq<char>>, keyword: Seq<char>, file: Seq<char>, m: int) -> int
    decreases lines.len(),
{
    if lines.len() == 0 {
        0
    } else if m < grep_lines(lines.drop_last(), keyword, file).len() {
        line_source(lines.drop_last(), keyword, file, m)
    } else {
        lines.len() - 1
    }
}

/// The file and line indices that match `m` comes from.
pub open spec fn match_source(files: Seq<FileModel>, keyword: Seq<char>, m: int) -> (int, int)
    decreases files.len(),
{
    if files.len() == 0 {
        (0, 0)
    } else {
        let head = if is_source_path(files[0].0) {
            grep_lines(files[0].1, keyword, files[0].0)
        } else {
            Seq::empty()
        };
        if m < head.len() {
            (0, line_source(files[0].1, keyword, files[0].0, m))
        } else {
            let r = match_source(files.drop_first(), keyword, m - head.len());
            (r.0 + 1, r.1)
        }
    }
}

proof fn lemma_grep_lines_pairs(lines: Seq<Seq<char>>, keyword: Seq<char>, file: Seq<char>, m: int)
    requires
        0 <= m < grep_lines(lines, keyword, file).len(),
    ensures
        ({
            let j = line_source(lines, keyword, file, m);
            0 <= j < lines.len() && grep_lines(lines, keyword, file)[m] == (lines[j], file)
                && is_class_line(lines[j], keyword)
        }),
    decreases lines.len(),
{
    let pre = lines.drop_last();
    if m < grep_lines(pre, keyword, file).len() {
        lemma_grep_lines_pairs(pre, keyword, file, m);
        let j = line_source(pre, keyword, file, m);
        assert(pre[j] == lines[j]);
    }
}

proof fn lemma_grep_files_pairs(files: Seq<FileModel>, keyword: Seq<char>, m: int)
    requires
        0 <= m < grep_files(files, keyword).len(),
    ensures
        match_from(
            files,
            keyword,
            grep_files(files, keyword)[m],
            match_source(files, keyword, m).0,
            match_source(files, keyword, m).1,
        ),
    decreases files.len(),
{
    let rest = files.drop_first();
    let head = if is_source_path(files[0].0) {
        grep_lines(files[0].1, keyword, files[0].0)
    } else {
        Seq::empty()
    };
    let g = grep_files(files, keyword);
    assert(g == head + grep_files(rest, keyword));
    if m < head.len() {
        lemma_grep_lines_pairs(files[0].1, keyword, files[0].0, m);
        assert(g[m] == head[m]);
    } else {
        lemma_grep_files_pairs(rest, keyword, m - head.len());
        let r = match_source(rest, keyword, m - head.len());
        assert(g[m] == grep_files(rest, keyword)[m - head.len()]);
        assert(rest[r.0] == files[r.0 + 1]);
    }
}

/// Every match of the fuzzy search is a class declaration line that mentions
/// the keyword, paired with the path of the source file it stands in.
pub proof fn lemma_grep_pairs_with_file(tree: ProjectEntry, keyword: Seq<char>)
    ensures
        forall|m: int|
            0 <= m < grep_spec(tree, keyword).len() ==> match_from(
                files_of(tree),
                keyword,
                #[trigger] grep_spec(tree, keyword)[m],
                match_source(files_of(tree), keyword, m).0,
                match_source(files_of(tree), keyword, m).1,
            ),
{
    assert forall|m: int| 0 <= m < grep_spec(tree, keyword).len() implies match_from(
        files_of(tree),
        keyword,
        #[trigger] grep_spec(tree, keyword)[m],
        match_source(files_of(tree), keyword, m).0,
        match_source(files_of(tree), keyword, m).1,
    ) by {
        lemma_grep_files_pairs(files_of(tree), keyword, m);
    }
}

/// The fuzzy search keeps traversal order: the matches of a list of files are
/// those of its first part followed by those of the rest.
pub proof fn lemma_grep_in_traversal_order(a: Seq<FileModel>, b: Seq<FileModel>, keyword: Seq<char>)
    ensures
        grep_files(a + b, keyword) == grep_files(a, keyword) + grep_files(b, keyword),
{
    crate::search::lemma_grep_files_concat(a, b, keyword);
}

// The bracket-aware splitter.

/// Whether the scan is inside brackets after reading `s` from state `inside`.
pub open spec fn inside_after_all(s: Seq<char>, inside: bool) -> bool
    decreases s.len(),
{
    if s.len() == 0 {
        inside
    } else {
        inside_after_all(s.drop_first(), inside_after(s[0], inside))
    }
}

/// No `sep` of `s` stands outside brackets, reading from state `inside`.
pub open spec fn no_free_sep(s: Seq<char>, sep: char, inside: bool) -> bool
    decreases s.len(),
{
    if s.len() == 0 {
        true
    } else {
        !(s[0] == sep && !inside) && no_free_sep(s.drop_first(), sep, inside_after(s[0], inside))
    }
}

/// A parameter text that keeps its commas inside brackets and closes the
/// brackets it opens.
pub open spec fn closed_segment(s: Seq<char>) -> bool {
    no_free_sep(s, ',', false) && !inside_after_all(s, false)
}

proof fn lemma_split_rec_nonempty(s: Seq<char>, sep: char, inside: bool, cur: Seq<char>)
    ensures
        split_rec(s, sep, inside, cur).len() > 0,
    decreases s.len(),
{
    if s.len() > 0 {
        if s[0] == sep && !inside {
            lemma_split_rec_nonempty(s.drop_first(), sep, inside, Seq::empty());
        } else {
            lemma_split_rec_nonempty(s.drop_first(), sep, inside_after(s[0], inside), cur.push(s[0]));
        }
    }
}

proof fn lemma_split_rec_concat(a: Seq<char>, b: Seq<char>, sep: char, inside: bool, cur: Seq<char>)
    requires
        sep != '[' && sep != ']',
    ensures
        split_rec(a + b, sep, inside, cur) == split_rec(a, sep, inside, cur).drop_last() + split_rec(
            b,
            sep,
            inside_after_all(a, inside),
            split_rec(a, sep, inside, cur).last(),
        ),
    decreases a.len(),
{
    if a.len() == 0 {
        assert(a + b =~= b);
        assert(split_rec(a, sep, inside, cur).drop_last() =~= Seq::<Seq<char>>::empty());
        assert(Seq::<Seq<char>>::empty() + split_rec(b, sep, inside, cur) =~= split_rec(b, sep, inside, cur));
    } else {
        let c = a[0];
        assert((a + b)[0] == c);
        assert((a + b).drop_first() =~= a.drop_first() + b);
        if c == sep && !inside {
            lemma_split_rec_concat(a.drop_first(), b, sep, inside, Seq::empty());
            lemma_split_rec_nonempty(a.drop_first(), sep, inside, Seq::empty());
            let r = split_rec(a.drop_first(), sep, inside, Seq::empty());
            assert(inside_after(c, inside) == inside);
            assert((seq![cur] + r).drop_last() =~= seq![cur] + r.drop_last());
            assert((seq![cur] + r).last() == r.last());
            assert(seq![cur] + (r.drop_last() + split_rec(
                b,
                sep,
                inside_after_all(a.drop_first(), inside),
                r.last(),
            )) =~= (seq![cur] + r.drop_last()) + split_rec(
                b,
                sep,
                inside_after_all(a.drop_first(), inside),
                r.last(),
            ));
        } else {
            lemma_split_rec_concat(a.drop_first(), b, sep, inside_after(c, inside), cur.push(c));
        }
    }
}

proof fn lemma_split_rec_whole(s: Seq<char>, sep: char, inside: bool, cur: Seq<char>)
    requires
        no_free_sep(s, sep, inside),
    ensures
        split_rec(s, sep, inside, cur) == seq![cur + s],
    decreases s.len(),
{
    if s.len() == 0 {
        assert(cur + s =~= cur);
    } else {
        lemma_split_rec_whole(s.drop_first(), sep, inside_after(s[0], inside), cur.push(s[0]));
        assert(cur.push(s[0]) + s.drop_first() =~= cur + s);
    }
}

proof fn lemma_inside_after_concat(a: Seq<char>, b: Seq<char>, inside: bool)
    ensures
        inside_after_all(a + b, inside) == inside_after_all(b, inside_after_all(a, inside)),
    decreases a.len(),
{
    if a.len() == 0 {
        assert(a + b =~= b);
    } else {
        assert((a + b).drop_first() =~= a.drop_first() + b);
        lemma_inside_after_concat(a.drop_first(), b, inside_after(a[0], inside));
    }
}

proof fn lemma_join_outside(segs: Seq<Seq<char>>)
    requires
        segs.len() > 0,
        forall|i: int| 0 <= i < segs.len() ==> closed_segment(#[trigger] segs[i]),
    ensures
        !inside_after_all(join(segs, seq![',']), false),
        split_rec(join(segs, seq![',']), ',', false, Seq::empty()) == segs,
    decreases segs.len(),
{
    let comma = seq![','];
    if segs.len() == 1 {
        assert(closed_segment(segs[0]));
        lemma_split_rec_whole(segs[0], ',', false, Seq::empty());
        assert(Seq::<char>::empty() + segs[0] =~= segs[0]);
        assert(segs =~= seq![segs[0]]);
    } else {
        let pre = segs.drop_last();
        let last = segs.last();
        assert forall|i: int| 0 <= i < pre.len() implies closed_segment(#[trigger] pre[i]) by {
            assert(pre[i] == segs[i]);
        }
        assert(closed_segment(segs[segs.len() - 1]));
        lemma_join_outside(pre);
        let jp = join(pre, comma);
        assert(join(segs, comma) == jp + comma + last);
        assert(jp + comma + last =~= jp + (comma + last));
        lemma_split_rec_concat(jp, comma + last, ',', false, Seq::empty());
        lemma_inside_after_concat(jp, comma + last, false);
        lemma_inside_after_concat(comma, last, false);
        assert((comma + last)[0] == ',');
        assert((comma + last).drop_first() =~= last);
        assert(inside_after_all(comma, false) == false) by {
            assert(comma.len() == 1 && comma[0] == ',');
            assert(comma.drop_first() =~= Seq::<char>::empty());
            assert(inside_after_all(comma.drop_first(), inside_after(',', false)) == false);
        }
        lemma_split_rec_whole(last, ',', false, Seq::empty());
        assert(Seq::<char>::empty() + last =~= last);
        assert(split_rec(comma + last, ',', false, pre.last()) == seq![pre.last()] + seq![last]);
        assert(pre.drop_last() + (seq![pre.last()] + seq![last]) =~= segs);
    }
}

/// Splitting a parameter list at the commas that stand outside brackets gives
/// back its parameters, one segment each, when every parameter keeps its
/// commas inside brackets and closes them: `x: Map[str, int]` stays whole.
pub proof fn lemma_split_keeps_bracketed(segs: Seq<Seq<char>>)
    requires
        segs.len() > 0,
        forall|i: int| 0 <= i < segs.len() ==> closed_segment(#[trigger] segs[i]),
    ensures
        split_outside(join(segs, seq![',']), ',') == segs,
{
    lemma_join_outside(segs);
}

/// Text without commas or brackets.
pub open spec fn plain(s: Seq<char>) -> bool {
    forall|i: int| 0 <= i < s.len() ==> s[i] != ',' && s[i] != '[' && s[i] != ']'
}

proof fn lemma_no_free_sep_concat(a: Seq<char>, b: Seq<char>, sep: char, inside: bool)
    ensures
        no_free_sep(a + b, sep, inside) == (no_free_sep(a, sep, inside) && no_free_sep(
            b,
            sep,
            inside_after_all(a, inside),
        )),
    decreases a.len(),
{
    if a.len() == 0 {
        assert(a + b =~= b);
    } else {
        assert((a + b).drop_first() =~= a.drop_first() + b);
        lemma_no_free_sep_concat(a.drop_first(), b, sep, inside_after(a[0], inside));
    }
}

proof fn lemma_bracket_free(s: Seq<char>, inside: bool)
    requires
        forall|i: int| 0 <= i < s.len() ==> s[i] != '[' && s[i] != ']',
        inside || forall|i: int| 0 <= i < s.len() ==> s[i] != ',',
    ensures
        no_free_sep(s, ',', inside),
        inside_after_all(s, inside) == inside,
    decreases s.len(),
{
    if s.len() > 0 {
        lemma_bracket_free(s.drop_first(), inside);
    }
}

/// A parameter annotated with a bracketed generic type, `x: N[a, b]`, keeps
/// its comma inside the brackets and closes them.
pub proof fn lemma_generic_parameter_closed(
    x: Seq<char>,
    n: Seq<char>,
    a: Seq<char>,
    b: Seq<char>,
)
    requires
        plain(x),
        plain(n),
        plain(a),
        plain(b),
    ensures
        closed_segment(
            x + seq![':', ' '] + n + seq!['['] + a + seq![',', ' '] + b + seq![']'],
        ),
{
    let head = x + seq![':', ' '] + n;
    let body = a + seq![',', ' '] + b;
    let open = seq!['['];
    let close = seq![']'];
    let seg = x + seq![':', ' '] + n + seq!['['] + a + seq![',', ' '] + b + seq![']'];
    assert(seg =~= head + (open + (body + close)));
    assert(plain(head));
    lemma_bracket_free(head, false);
    assert forall|i: int| 0 <= i < body.len() implies body[i] != '[' && body[i] != ']' by {}
    lemma_bracket_free(body, true);
    assert(open[0] == '[' && open.drop_first() =~= Seq::<char>::empty());
    assert(close[0] == ']' && close.drop_first() =~= Seq::<char>::empty());
    assert(open.len() == 1);
    assert(inside_after('[', false));
    assert(inside_after_all(open.drop_first(), true));
    assert(inside_after_all(open, false));
    assert(no_free_sep(open.drop_first(), ',', true));
    assert(no_free_sep(open, ',', false));
    assert(close.len() == 1);
    assert(!inside_after(']', true));
    assert(!inside_after_all(close.drop_first(), false));
    assert(!inside_after_all(close, true));
    assert(no_free_sep(close.drop_first(), ',', false));
    assert(no_free_sep(close, ',', true));
    lemma_no_free_sep_concat(body, close, ',', true);
    lemma_inside_after_concat(body, close, true);
    lemma_no_free_sep_concat(open, body + close, ',', false);
    lemma_inside_after_concat(open, body + close, false);
    lemma_no_free_sep_concat(head, open + (body + close), ',', false);
    lemma_inside_after_concat(head, open + (body + close), false);
}

// The method assembler.

/// The trimmed fragments of a header joined with one space between them,
/// as the assembler joins them.
pub open spec fn joined_trims(frags: Seq<Seq<char>>) -> Seq<char>
    decreases frags.len(),
{
    if frags.len() == 0 {
        Seq::empty()
    } else {
        add_fragment(joined_trims(frags.drop_last()), frags.last())
    }
}

/// Text that completes a header: it ends with the `:` terminator.
pub open spec fn ends_header(b: Seq<char>) -> bool {
    b.len() > 0 && b.last() == ':'
}

proof fn lemma_assemble_tail(frags: Seq<Seq<char>>, rest: Seq<Seq<char>>, i: int)
    requires
        1 <= i < frags.len(),
        forall|k: int| 1 <= k < frags.len() ==> !ends_header(#[trigger] joined_trims(frags.subrange(0, k))),
        ends_header(joined_trims(frags)),
    ensures
        assemble(frags.subrange(i, frags.len() as int) + rest, true, joined_trims(frags.subrange(0, i)))
            == (if method_name_of(joined_trims(frags)) is Some {
            seq![method_of(joined_trims(frags))]
        } else {
            Seq::<MethodModel>::empty()
        }) + methods_of(rest),
    decreases frags.len() - i,
{
    let lines = frags.subrange(i, frags.len() as int) + rest;
    assert(lines[0] == frags[i]);
    assert(lines.drop_first() =~= frags.subrange(i + 1, frags.len() as int) + rest);
    let b = add_fragment(joined_trims(frags.subrange(0, i)), frags[i]);
    assert(frags.subrange(0, i + 1).drop_last() =~= frags.subrange(0, i));
    assert(joined_trims(frags.subrange(0, i + 1)) == b);
    if i + 1 < frags.len() {
        assert(!ends_header(joined_trims(frags.subrange(0, i + 1))));
        lemma_assemble_tail(frags, rest, i + 1);
    } else {
        assert(frags.subrange(0, i + 1) =~= frags);
        assert(frags.subrange(i + 1, frags.len() as int) + rest =~= rest);
    }
}

/// A method header wrapped over several lines, the first holding ` def ` and
/// only the whole ending with `:`, gives the one method of the single-line
/// header that its trimmed lines form when joined with one space between
/// them; the lines after it are read as before.
pub proof fn lemma_multiline_header(frags: Seq<Seq<char>>, rest: Seq<Seq<char>>)
    requires
        frags.len() > 0,
        contains(frags[0], def_marker()),
        forall|k: int| 1 <= k < frags.len() ==> !ends_header(#[trigger] joined_trims(frags.subrange(0, k))),
        ends_header(joined_trims(frags)),
        method_name_of(joined_trims(frags)) is Some,
    ensures
        methods_of(frags + rest) == seq![method_of(joined_trims(frags))] + methods_of(rest),
{
    let lines = frags + rest;
    assert(lines[0] == frags[0]);
    assert(lines.drop_first() =~= frags.subrange(1, frags.len() as int) + rest);
    let one = frags.subrange(0, 1);
    assert(one.drop_last() =~= Seq::<Seq<char>>::empty());
    assert(one.last() == frags[0]);
    assert(joined_trims(one.drop_last()) == Seq::<char>::empty());
    assert(joined_trims(one) == trim(frags[0]));
    if frags.len() == 1 {
        assert(frags =~= one);
        assert(frags.subrange(1, frags.len() as int) + rest =~= rest);
    } else {
        assert(!ends_header(joined_trims(one)));
        lemma_assemble_tail(frags, rest, 1);
    }
}

// The header extractor.

/// A name made of word characters.
pub open spec fn is_identifier(s: Seq<char>) -> bool {
    s.len() > 0 && forall|i: int| 0 <= i < s.len() ==> is_word_char(#[trigger] s[i])
}

/// A type name without whitespace, commas, colons, parentheses or dashes,
/// that closes every bracket it opens (`int`, `List[int]`).
pub open spec fn is_simple_type(t: Seq<char>) -> bool {
    &&& t.len() > 0
    &&& forall|i: int|
        0 <= i < t.len() ==> {
            let c = #[trigger] t[i];
            !is_ws(c) && c != ',' && c != ':' && c != '(' && c != ')' && c != '-'
        }
    &&& !inside_after_all(t, false)
}

/// A return type that starts and ends with a non-space.
pub open spec fn is_return_type(r: Seq<char>) -> bool {
    r.len() > 0 && !is_ws(r[0]) && !is_ws(r.last())
}

/// `def name(pa: ta, pb: tb) -> r:`
pub open spec fn two_parameter_header(
    name: Seq<char>,
    pa: Seq<char>,
    ta: Seq<char>,
    pb: Seq<char>,
    tb: Seq<char>,
    r: Seq<char>,
) -> Seq<char> {
    seq!['d', 'e', 'f', ' '] + name + seq!['('] + two_parameters(pa, ta, pb, tb) + seq![
        ')',
        ' ',
        '-',
        '>',
        ' ',
    ] + r + seq![':']
}

/// `pa: ta, pb: tb`
pub open spec fn two_parameters(pa: Seq<char>, ta: Seq<char>, pb: Seq<char>, tb: Seq<char>) -> Seq<
    char,
> {
    pa + seq![':', ' '] + ta + seq![',', ' '] + pb + seq![':', ' '] + tb
}

proof fn lemma_word_end_run(s: Seq<char>, i: int, j: int)
    requires
        0 <= i <= j <= s.len(),
        forall|k: int| i <= k < j ==> is_word_char(s[k]),
        j == s.len() || !is_word_char(s[j]),
    ensures
        word_end(s, i) == j,
    decreases j - i,
{
    if i < j {
        lemma_word_end_run(s, i + 1, j);
    }
}

proof fn lemma_word_start_run(s: Seq<char>, i: int, j: int)
    requires
        0 <= i <= j <= s.len(),
        forall|k: int| i <= k < j ==> !is_word_char(s[k]),
        j == s.len() || is_word_char(s[j]),
    ensures
        word_start(s, i) == j,
    decreases j - i,
{
    if i < j {
        lemma_word_start_run(s, i + 1, j);
    }
}

proof fn lemma_find_char_is(s: Seq<char>, c: char, i: int, j: int)
    requires
        0 <= i <= j < s.len(),
        s[j] == c,
        forall|k: int| i <= k < j ==> s[k] != c,
    ensures
        find_char_from(s, c, i) == j,
    decreases j - i,
{
    if i < j {
        lemma_find_char_is(s, c, i + 1, j);
    }
}

proof fn lemma_close_paren_run(s: Seq<char>, i: int, j: int, depth: nat)
    requires
        0 <= i <= j < s.len(),
        forall|k: int| i <= k < j ==> s[k] != '(' && s[k] != ')',
        s[j] == ')',
        depth == 1,
    ensures
        close_paren(s, i, depth) == j,
    decreases j - i,
{
    if i < j {
        lemma_close_paren_run(s, i + 1, j, depth);
    }
}

proof fn lemma_colon_ws_is(s: Seq<char>, i: int, j: int)
    requires
        0 <= i <= j,
        j + 1 < s.len(),
        s[j] == ':',
        is_ws(s[j + 1]),
        forall|k: int| i <= k < j ==> s[k] != ':',
    ensures
        colon_ws_from(s, i) == j,
    decreases j - i,
{
    if i < j {
        lemma_colon_ws_is(s, i + 1, j);
    }
}

proof fn lemma_colon_ws_none(s: Seq<char>, i: int)
    requires
        0 <= i,
        forall|k: int| i <= k < s.len() ==> s[k] != ':',
    ensures
        colon_ws_from(s, i) == -1,
    decreases s.len() - i,
{
    if i + 1 < s.len() {
        lemma_colon_ws_none(s, i + 1);
    }
}

/// No comma of `s` stands inside brackets, reading from state `inside`.
pub open spec fn no_inner_comma(s: Seq<char>, inside: bool) -> bool
    decreases s.len(),
{
    if s.len() == 0 {
        true
    } else {
        !(s[0] == ',' && inside) && no_inner_comma(s.drop_first(), inside_after(s[0], inside))
    }
}

proof fn lemma_marked_unchanged(s: Seq<char>, inside: bool)
    requires
        no_inner_comma(s, inside),
    ensures
        mark_rec(s, inside, false) == s,
    decreases s.len(),
{
    if s.len() > 0 {
        lemma_marked_unchanged(s.drop_first(), inside_after(s[0], inside));
        assert(seq![s[0]] + s.drop_first() =~= s);
    }
}

proof fn lemma_no_inner_comma_concat(a: Seq<char>, b: Seq<char>, inside: bool)
    ensures
        no_inner_comma(a + b, inside) == (no_inner_comma(a, inside) && no_inner_comma(
            b,
            inside_after_all(a, inside),
        )),
    decreases a.len(),
{
    if a.len() == 0 {
        assert(a + b =~= b);
    } else {
        assert((a + b).drop_first() =~= a.drop_first() + b);
        lemma_no_inner_comma_concat(a.drop_first(), b, inside_after(a[0], inside));
    }
}

proof fn lemma_comma_free(s: Seq<char>, inside: bool)
    requires
        forall|i: int| 0 <= i < s.len() ==> s[i] != ',',
    ensures
        no_free_sep(s, ',', inside),
        no_inner_comma(s, inside),
    decreases s.len(),
{
    if s.len() > 0 {
        lemma_comma_free(s.drop_first(), inside_after(s[0], inside));
    }
}

/// An annotated parameter `w p: t` keeps no comma and closes its brackets.
proof fn lemma_annotated_closed(w: Seq<char>, p: Seq<char>, t: Seq<char>)
    requires
        forall|i: int| 0 <= i < w.len() ==> is_ws(w[i]),
        is_identifier(p),
        is_simple_type(t),
    ensures
        closed_segment(w + p + seq![':', ' '] + t),
        no_inner_comma(w + p + seq![':', ' '] + t, false),
{
    let head = w + p + seq![':', ' '];
    let g = head + t;
    assert forall|k: int| 0 <= k < head.len() implies head[k] != '[' && head[k] != ']' && head[k]
        != ',' by {
        if w.len() <= k < w.len() + p.len() {
            assert(head[k] == p[k - w.len()]);
            assert(is_word_char(p[k - w.len()]));
        } else if k < w.len() {
            assert(head[k] == w[k]);
        }
    }
    lemma_bracket_free(head, false);
    assert forall|k: int| 0 <= k < g.len() implies g[k] != ',' by {
        if k >= head.len() {
            assert(g[k] == t[k - head.len()]);
        }
    }
    lemma_comma_free(g, false);
    lemma_inside_after_concat(head, t, false);
}

proof fn lemma_trim_plain(s: Seq<char>)
    requires
        s.len() > 0,
        !is_ws(s[0]),
        !is_ws(s.last()),
    ensures
        trim(s) == s,
{
    lemma_trim_indented(Seq::empty(), s);
    assert(Seq::<char>::empty() + s =~= s);
}

/// The parameter of `p: t` with `w` in front.
proof fn lemma_classify_annotated(w: Seq<char>, p: Seq<char>, t: Seq<char>)
    requires
        forall|i: int| 0 <= i < w.len() ==> is_ws(w[i]),
        is_identifier(p),
        is_simple_type(t),
    ensures
        classify_one(w + p + seq![':', ' '] + t) == Some(parameter_model(p, t)),
{
    let seg = w + p + seq![':', ' '] + t;
    let k = (w.len() + p.len()) as int;
    assert(p[0] == p[0] && is_word_char(p[0]));
    assert(is_word_char(p[0]) ==> !is_ws(p[0]));
    assert(is_word_char(p.last()));
    let core = p + seq![':', ' '] + t;
    assert(seg =~= w + core);
    assert(core[0] == p[0]);
    assert(core.last() == t.last());
    assert(t.len() > 0 && !is_ws(t[t.len() - 1]));
    lemma_trim_indented(w, core);
    assert(trim(seg).len() > 0);
    assert forall|i: int| 0 <= i < k implies seg[i] != ':' by {
        if i >= w.len() {
            assert(seg[i] == p[i - w.len()]);
            assert(is_word_char(p[i - w.len()]));
        } else {
            assert(seg[i] == w[i]);
        }
    }
    assert(seg[k] == ':');
    assert(seg[k + 1] == ' ');
    lemma_colon_ws_is(seg, 0, k);
    assert forall|i: int| k + 2 <= i < seg.len() implies seg[i] != ':' by {
        assert(seg[i] == t[i - k - 2]);
    }
    lemma_colon_ws_none(seg, k + 2);
    assert(seg.subrange(0, k) =~= w + p);
    lemma_trim_indented(w, p);
    assert(seg.subrange(k + 2, seg.len() as int) =~= t);
    lemma_trim_plain(t);
}

proof fn lemma_two_parameters(pa: Seq<char>, ta: Seq<char>, pb: Seq<char>, tb: Seq<char>)
    requires
        is_identifier(pa),
        is_simple_type(ta),
        is_identifier(pb),
        is_simple_type(tb),
    ensures
        classify(split_outside(marked(two_parameters(pa, ta, pb, tb)), ',')) == seq![
            parameter_model(pa, ta),
            parameter_model(pb, tb),
        ],
{
    let args = two_parameters(pa, ta, pb, tb);
    let seg1 = pa + seq![':', ' '] + ta;
    let seg2 = seq![' '] + pb + seq![':', ' '] + tb;
    let segs = seq![seg1, seg2];
    assert(segs.drop_last() =~= seq![seg1]);
    assert(join(seq![seg1], seq![',']) == seg1);
    assert(join(segs, seq![',']) =~= args);
    lemma_annotated_closed(Seq::empty(), pa, ta);
    assert(Seq::<char>::empty() + pa + seq![':', ' '] + ta =~= seg1);
    assert(forall|i: int| 0 <= i < 1 ==> is_ws(seq![' '][i]));
    lemma_annotated_closed(seq![' '], pb, tb);
    assert(args =~= seg1 + (seq![','] + seg2));
    lemma_no_inner_comma_concat(seg1, seq![','] + seg2, false);
    lemma_no_inner_comma_concat(seq![','], seg2, false);
    assert(seq![','].drop_first() =~= Seq::<char>::empty());
    assert(!inside_after_all(seq![','], false)) by {
        assert(inside_after_all(seq![','].drop_first(), inside_after(',', false)) == false);
    }
    assert(no_inner_comma(seq![','], false)) by {
        assert(no_inner_comma(seq![','].drop_first(), false));
    }
    lemma_marked_unchanged(args, false);
    assert forall|i: int| 0 <= i < segs.len() implies closed_segment(#[trigger] segs[i]) by {
        if i == 0 {
            assert(segs[i] == seg1);
        } else {
            assert(segs[i] == seg2);
        }
    }
    lemma_split_keeps_bracketed(segs);
    lemma_classify_annotated(Seq::empty(), pa, ta);
    assert(Seq::<char>::empty() + pa + seq![':', ' '] + ta =~= seg1);
    lemma_classify_annotated(seq![' '], pb, tb);
    assert(forall|i: int| 0 <= i < 1 ==> is_ws(seq![' '][i]));
    assert(classify_one(seg1) == Some(parameter_model(pa, ta)));
    assert(classify(segs.drop_last()) == seq![parameter_model(pa, ta)]) by {
        let one = seq![seg1];
        assert(one.drop_last() =~= Seq::<Seq<char>>::empty());
        assert(one.last() == seg1);
        assert(classify(one.drop_last()) == Seq::<ParameterModel>::empty());
        assert(segs.drop_last() == one);
        assert(Seq::<ParameterModel>::empty().push(parameter_model(pa, ta)) =~= seq![
            parameter_model(pa, ta),
        ]);
    }
    assert(seq![parameter_model(pa, ta)].push(parameter_model(pb, tb)) =~= seq![
        parameter_model(pa, ta),
        parameter_model(pb, tb),
    ]);
}

/// Neither a dash nor a parenthesis.
pub open spec fn quiet(s: Seq<char>) -> bool {
    forall|i: int| 0 <= i < s.len() ==> #[trigger] s[i] != '-' && s[i] != '(' && s[i] != ')'
}

proof fn lemma_quiet_concat(a: Seq<char>, b: Seq<char>)
    requires
        quiet(a),
        quiet(b),
    ensures
        quiet(a + b),
{
    assert forall|i: int| 0 <= i < (a + b).len() implies #[trigger] (a + b)[i] != '-' && (a
        + b)[i] != '(' && (a + b)[i] != ')' by {
        if i < a.len() {
            assert((a + b)[i] == a[i]);
        } else {
            assert((a + b)[i] == b[i - a.len()]);
        }
    }
}

proof fn lemma_identifier_quiet(p: Seq<char>)
    requires
        is_identifier(p),
    ensures
        quiet(p),
{
    assert forall|i: int| 0 <= i < p.len() implies #[trigger] p[i] != '-' && p[i] != '(' && p[i]
        != ')' by {
        assert(is_word_char(p[i]));
    }
}

proof fn lemma_parameters_quiet(pa: Seq<char>, ta: Seq<char>, pb: Seq<char>, tb: Seq<char>)
    requires
        is_identifier(pa),
        is_simple_type(ta),
        is_identifier(pb),
        is_simple_type(tb),
    ensures
        quiet(two_parameters(pa, ta, pb, tb)),
{
    let cs = seq![':', ' '];
    let cm = seq![',', ' '];
    assert(quiet(cs));
    assert(quiet(cm));
    assert(quiet(ta)) by {
        assert forall|i: int| 0 <= i < ta.len() implies #[trigger] ta[i] != '-' && ta[i] != '('
            && ta[i] != ')' by {
            let c = ta[i];
        }
    }
    assert(quiet(tb)) by {
        assert forall|i: int| 0 <= i < tb.len() implies #[trigger] tb[i] != '-' && tb[i] != '('
            && tb[i] != ')' by {
            let c = tb[i];
        }
    }
    lemma_identifier_quiet(pa);
    lemma_identifier_quiet(pb);
    lemma_quiet_concat(pa, cs);
    lemma_quiet_concat(pa + cs, ta);
    lemma_quiet_concat(pa + cs + ta, cm);
    lemma_quiet_concat(pa + cs + ta + cm, pb);
    lemma_quiet_concat(pa + cs + ta + cm + pb, cs);
    lemma_quiet_concat(pa + cs + ta + cm + pb + cs, tb);
}

proof fn lemma_header_name(h: Seq<char>, name: Seq<char>, tail: Seq<char>)
    requires
        is_identifier(name),
        h == seq!['d', 'e', 'f', ' '] + name + tail,
        tail.len() > 0,
        !is_word_char(tail[0]),
        !is_ws(h.last()),
    ensures
        method_name_of(h) == Some(name),
{
    let n = name.len() as int;
    assert(h[0] == 'd');
    lemma_trim_plain(h);
    assert forall|k: int| 0 <= k < 3 implies is_word_char(h[k]) by {
        assert(h[k] == seq!['d', 'e', 'f', ' '][k]);
    }
    assert(h[3] == ' ');
    lemma_word_end_run(h, 0, 3);
    assert(h[4] == name[0]);
    assert(is_word_char(name[0]));
    lemma_word_start_run(h, 3, 4);
    assert forall|k: int| 4 <= k < 4 + n implies is_word_char(h[k]) by {
        assert(h[k] == name[k - 4]);
    }
    assert(h[4 + n] == tail[0]);
    lemma_word_end_run(h, 4, 4 + n);
    assert(h.subrange(0, 3) =~= def_word());
    assert(h.subrange(4, 4 + n) =~= name);
}

/// The return type of a header `front -> r:`, where the first ` -> ` is the
/// one before `r`, is `r` itself: only the terminating `:` is dropped, so `r`
/// may hold colons of its own.
pub proof fn lemma_header_output(h: Seq<char>, front: Seq<char>, r: Seq<char>)
    requires
        h == front + arrow() + r + seq![':'],
        forall|j: int| 0 <= j < front.len() ==> !occurs_at(front + arrow(), arrow(), j),
        front.len() > 0,
        !is_ws(front[0]),
        is_return_type(r),
    ensures
        output_of(h) == Some(r),
{
    let f = front.len() as int;
    let fa = front + arrow();
    assert(h[0] == front[0]);
    lemma_trim_plain(h);
    assert(occurs_at(h, arrow(), f)) by {
        assert(h.subrange(f, f + 4) =~= arrow());
    }
    assert forall|j: int| 0 <= j < f implies !occurs_at(h, arrow(), j) by {
        if occurs_at(h, arrow(), j) {
            assert(h.subrange(j, j + 4) =~= fa.subrange(j, j + 4));
            assert(occurs_at(fa, arrow(), j));
        }
    }
    lemma_find_from_is(h, arrow(), 0, f);
    let tail = h.subrange(f + 4, h.len() as int);
    assert(tail =~= r + seq![':']);
    assert(tail[0] == r[0]);
    lemma_trim_plain(tail);
    assert(tail.drop_last() =~= r);
    lemma_trim_plain(r);
}

/// A header `def name(pa: ta, pb: tb) -> r:` is read as the method `name`
/// with the parameters `pa: ta` and `pb: tb`, in order, and the return type
/// `r`.
pub proof fn lemma_two_parameter_header(
    name: Seq<char>,
    pa: Seq<char>,
    ta: Seq<char>,
    pb: Seq<char>,
    tb: Seq<char>,
    r: Seq<char>,
)
    requires
        is_identifier(name),
        is_identifier(pa),
        is_simple_type(ta),
        is_identifier(pb),
        is_simple_type(tb),
        is_return_type(r),
    ensures
        method_of(two_parameter_header(name, pa, ta, pb, tb, r)) == (MethodModel {
            name,
            parameters: seq![parameter_model(pa, ta), parameter_model(pb, tb)],
            output: r,
        }),
{
    let h = two_parameter_header(name, pa, ta, pb, tb, r);
    let args = two_parameters(pa, ta, pb, tb);
    let n = name.len() as int;
    let a0 = n + 5;
    let c = a0 + args.len();
    let close_tail = seq![')', ' ', '-', '>', ' '] + r + seq![':'];
    // the name
    assert(h =~= seq!['d', 'e', 'f', ' '] + name + (seq!['('] + args + close_tail));
    assert((seq!['('] + args + close_tail)[0] == '(');
    lemma_header_name(h, name, seq!['('] + args + close_tail);
    // the return type
    let front = seq!['d', 'e', 'f', ' '] + name + seq!['('] + args + seq![')'];
    assert(h =~= front + arrow() + r + seq![':']);
    lemma_parameters_quiet(pa, ta, pb, tb);
    lemma_identifier_quiet(name);
    assert forall|k: int| 0 <= k < front.len() implies front[k] != '-' by {
        if k < 4 {
            assert(front[k] == seq!['d', 'e', 'f', ' '][k]);
        } else if k < 4 + n {
            assert(front[k] == name[k - 4]);
        } else if k == 4 + n {
            assert(front[k] == '(');
        } else if k < c {
            assert(front[k] == args[k - a0]);
        } else {
            assert(front[k] == ')');
        }
    }
    assert(front[0] == 'd');
    assert(seq![' ', '-', '>', ' '] =~= arrow());
    assert forall|j: int| 0 <= j < front.len() implies !occurs_at(front + arrow(), arrow(), j) by {
        if occurs_at(front + arrow(), arrow(), j) {
            assert((front + arrow()).subrange(j, j + 4)[1] == (front + arrow())[j + 1]);
            if j + 1 < front.len() {
                assert((front + arrow())[j + 1] == front[j + 1]);
            } else {
                assert((front + arrow())[j + 1] == ' ');
            }
        }
    }
    lemma_header_output(h, front, r);
    // the parameters
    lemma_trim_plain(h);
    assert forall|k: int| 0 <= k < 4 + n implies h[k] != '(' by {
        if k < 4 {
            assert(h[k] == seq!['d', 'e', 'f', ' '][k]);
        } else {
            assert(h[k] == name[k - 4]);
        }
    }
    assert(h[4 + n] == '(');
    lemma_find_char_is(h, '(', 0, 4 + n);
    assert forall|k: int| a0 <= k < c implies h[k] != '(' && h[k] != ')' by {
        assert(h[k] == args[k - a0]);
    }
    assert(h[c] == ')');
    lemma_close_paren_run(h, a0, c, 1);
    assert(h.subrange(a0, c) =~= args);
    lemma_two_parameters(pa, ta, pb, tb);
}

/// Every parameter the classifier makes has a non-empty name.
pub proof fn lemma_parameter_names_nonempty(segs: Seq<Seq<char>>)
    ensures
        forall|i: int| 0 <= i < classify(segs).len() ==> (#[trigger] classify(segs)[i]).name.len() > 0,
    decreases segs.len(),
{
    if segs.len() > 0 {
        lemma_parameter_names_nonempty(segs.drop_last());
        let rest = classify(segs.drop_last());
        assert forall|i: int| 0 <= i < classify(segs).len() implies (
        #[trigger] classify(segs)[i]).name.len() > 0 by {
            if i < rest.len() {
                assert(classify(segs)[i] == rest[i]);
            }
        }
    }
}

/// Whitespace in front of a header does not change the method it declares.
pub proof fn lemma_indented_header(w: Seq<char>, h: Seq<char>)
    requires
        forall|i: int| 0 <= i < w.len() ==> is_ws(w[i]),
    ensures
        method_of(w + h) == method_of(h),
{
    let wh = w + h;
    lemma_trim_start_skip(wh, w.len() as int);
    assert(wh.subrange(w.len() as int, wh.len() as int) =~= h);
    assert(trim(wh) == trim(h));
}

// The bases of a class.

/// The segments of a `, `-separated list as a split at commas leaves them:
/// every item after the first keeps its leading space.
pub open spec fn spaced(bs: Seq<Seq<char>>) -> Seq<Seq<char>> {
    Seq::new(bs.len(), |i: int| if i == 0 { bs[0] } else { seq![' '] + bs[i] })
}

proof fn lemma_join_spaced(bs: Seq<Seq<char>>)
    requires
        bs.len() > 0,
    ensures
        join(bs, seq![',', ' ']) == join(spaced(bs), seq![',']),
    decreases bs.len(),
{
    if bs.len() > 1 {
        lemma_join_spaced(bs.drop_last());
        assert(spaced(bs).drop_last() =~= spaced(bs.drop_last()));
        assert(spaced(bs).last() == seq![' '] + bs.last());
        let jp = join(bs.drop_last(), seq![',', ' ']);
        assert(jp + seq![',', ' '] + bs.last() =~= jp + seq![','] + (seq![' '] + bs.last()));
    }
}

proof fn lemma_join_quiet(bs: Seq<Seq<char>>)
    requires
        forall|i: int| 0 <= i < bs.len() ==> is_identifier(#[trigger] bs[i]),
    ensures
        quiet(join(bs, seq![',', ' '])),
    decreases bs.len(),
{
    if bs.len() == 1 {
        lemma_identifier_quiet(bs[0]);
    } else if bs.len() > 1 {
        assert forall|i: int| 0 <= i < bs.drop_last().len() implies is_identifier(
            #[trigger] bs.drop_last()[i],
        ) by {
            assert(bs.drop_last()[i] == bs[i]);
        }
        lemma_join_quiet(bs.drop_last());
        assert(is_identifier(bs[bs.len() - 1]));
        lemma_identifier_quiet(bs.last());
        assert(quiet(seq![',', ' ']));
        lemma_quiet_concat(join(bs.drop_last(), seq![',', ' ']), seq![',', ' ']);
        lemma_quiet_concat(join(bs.drop_last(), seq![',', ' ']) + seq![',', ' '], bs.last());
    }
}

proof fn lemma_identifier_edges(b: Seq<char>)
    requires
        is_identifier(b),
    ensures
        !is_ws(b[0]),
        !is_ws(b.last()),
        plain(b),
{
    assert(is_word_char(b[0]));
    assert(is_word_char(b[b.len() - 1]));
    assert forall|i: int| 0 <= i < b.len() implies b[i] != ',' && b[i] != '[' && b[i] != ']' by {
        assert(is_word_char(b[i]));
    }
}

proof fn lemma_names_spaced(bs: Seq<Seq<char>>)
    requires
        bs.len() > 0,
        forall|i: int| 0 <= i < bs.len() ==> is_identifier(#[trigger] bs[i]),
    ensures
        names_of(spaced(bs)) == bs,
    decreases bs.len(),
{
    let sp = spaced(bs);
    assert(is_identifier(bs[bs.len() - 1]));
    lemma_identifier_edges(bs.last());
    if bs.len() == 1 {
        lemma_trim_plain(bs[0]);
        assert(sp.len() == 1);
        assert(sp.last() == bs[0]);
        assert(trim(sp.last()).len() > 0);
        assert(sp.drop_last() =~= Seq::<Seq<char>>::empty());
        assert(names_of(sp.drop_last()) == Seq::<Seq<char>>::empty());
        assert(names_of(sp) == Seq::<Seq<char>>::empty().push(bs[0]));
        assert(Seq::<Seq<char>>::empty().push(bs[0]) =~= bs);
    } else {
        assert forall|i: int| 0 <= i < bs.drop_last().len() implies is_identifier(
            #[trigger] bs.drop_last()[i],
        ) by {
            assert(bs.drop_last()[i] == bs[i]);
        }
        lemma_names_spaced(bs.drop_last());
        assert(sp.drop_last() =~= spaced(bs.drop_last()));
        assert(forall|i: int| 0 <= i < 1 ==> is_ws(seq![' '][i]));
        lemma_trim_indented(seq![' '], bs.last());
        assert(sp.last() == seq![' '] + bs.last());
        assert(trim(sp.last()) == bs.last());
        assert(names_of(sp) == names_of(sp.drop_last()).push(bs.last()));
        assert(bs.drop_last().push(bs.last()) =~= bs);
    }
}

/// `class c(b1, ..., bn):`
pub open spec fn class_header(c: Seq<char>, bs: Seq<Seq<char>>) -> Seq<char> {
    class_word() + c + seq!['('] + join(bs, seq![',', ' ']) + seq![')', ':']
}

/// A class declared `class C(B1, ..., Bn):` with identifier names has the
/// bases `B1, ..., Bn`, in that order.
pub proof fn lemma_listed_bases(c: Seq<char>, bs: Seq<Seq<char>>)
    requires
        is_identifier(c),
        bs.len() > 0,
        forall|i: int| 0 <= i < bs.len() ==> is_identifier(#[trigger] bs[i]),
    ensures
        bases_of(class_header(c, bs)) == Some(bs),
{
    let line = class_header(c, bs);
    let j = join(bs, seq![',', ' ']);
    let n = c.len() as int;
    let o = 6 + n;
    let e = o + 1 + j.len();
    assert(line[0] == 'c');
    lemma_trim_plain(line);
    lemma_identifier_quiet(c);
    assert forall|k: int| 0 <= k < o implies line[k] != '(' by {
        if k < 6 {
            assert(line[k] == class_word()[k]);
        } else {
            assert(line[k] == c[k - 6]);
        }
    }
    assert(line[o] == '(');
    lemma_find_char_is(line, '(', 0, o);
    lemma_join_quiet(bs);
    assert forall|k: int| o + 1 <= k < e implies line[k] != ')' by {
        assert(line[k] == j[k - o - 1]);
    }
    assert(line[e] == ')');
    lemma_find_char_is(line, ')', o + 1, e);
    assert(line.subrange(o + 1, e) =~= j);
    lemma_join_spaced(bs);
    let sp = spaced(bs);
    assert forall|i: int| 0 <= i < sp.len() implies closed_segment(#[trigger] sp[i]) by {
        let g = sp[i];
        assert(is_identifier(bs[i]));
        lemma_identifier_edges(bs[i]);
        assert forall|k: int| 0 <= k < g.len() implies g[k] != '[' && g[k] != ']' && g[k] != ',' by {
            if i > 0 && k > 0 {
                assert(g[k] == bs[i][k - 1]);
            }
        }
        lemma_bracket_free(g, false);
    }
    lemma_split_keeps_bracketed(sp);
    lemma_names_spaced(bs);
}

/// The summary of a class block whose declaration line is
/// `class C(B1, ..., Bn):` lists the bases `B1, ..., Bn`, in that order.
pub proof fn lemma_class_bases(block: Seq<Seq<char>>, name: Seq<char>, c: Seq<char>, bs: Seq<Seq<char>>)
    requires
        block.len() > 0,
        block[0] == class_header(c, bs),
        is_identifier(c),
        bs.len() > 0,
        forall|i: int| 0 <= i < bs.len() ==> is_identifier(#[trigger] bs[i]),
    ensures
        summary_of(block, name).inheritance == bs,
{
    lemma_listed_bases(c, bs);
}

} // verus!
