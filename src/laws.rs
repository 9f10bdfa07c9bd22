//! Properties of the search results that hold for every input.
use vstd::prelude::*;
use crate::engine::{increasing, match_starts, regex_accepts};
use crate::lines::text_lines;
use crate::search::{
    all_hits, columns_ascending, engine_ordered, error_text, file_hits, hits_ordered, line_hits,
    lines_ascending, lines_hits, results_view, search_outcome, FileInput, Hit, MatchResult,
};

verus! {

/// Line numbers in the results for `lines` start at 1, never go down, and
/// never pass the number of lines.
pub proof fn lemma_line_numbers(
    pattern: Seq<char>,
    case_sensitive: bool,
    path: Seq<char>,
    lines: Seq<Seq<char>>,
)
    ensures
        lines_ascending(lines_hits(pattern, case_sensitive, path, lines), lines.len() as int),
    decreases lines.len(),
{
    if lines.len() > 0 {
        let n = lines.len() as int;
        lemma_line_numbers(pattern, case_sensitive, path, lines.drop_last());
        let h = lines_hits(pattern, case_sensitive, path, lines.drop_last());
        let l = line_hits(path, n, lines.last(), match_starts(pattern, case_sensitive, lines.last()));
        let all = lines_hits(pattern, case_sensitive, path, lines);
        assert(all == h + l);
        assert forall|j: int| 0 <= j < all.len() implies 1 <= #[trigger] all[j].1 <= n by {
            if j >= h.len() {
                assert(all[j] == l[j - h.len()]);
            }
        }
        assert forall|j: int, k: int| 0 <= j < k < all.len() implies all[j].1 <= all[k].1 by {
            if k >= h.len() {
                assert(all[k] == l[k - h.len()]);
                if j >= h.len() {
                    assert(all[j] == l[j - h.len()]);
                }
            }
        }
    }
}

/// Where the engine reports each line's matches left to right, the columns of
/// the results on one line go strictly up.
pub proof fn lemma_columns(
    pattern: Seq<char>,
    case_sensitive: bool,
    path: Seq<char>,
    lines: Seq<Seq<char>>,
)
    requires
        forall|k: int|
            0 <= k < lines.len() ==> increasing(
                #[trigger] match_starts(pattern, case_sensitive, lines[k]),
            ),
    ensures
        columns_ascending(lines_hits(pattern, case_sensitive, path, lines)),
    decreases lines.len(),
{
    if lines.len() > 0 {
        let n = lines.len() as int;
        let prev = lines.drop_last();
        assert forall|k: int| 0 <= k < prev.len() implies increasing(
            #[trigger] match_starts(pattern, case_sensitive, prev[k]),
        ) by {
            assert(prev[k] == lines[k]);
        }
        lemma_columns(pattern, case_sensitive, path, prev);
        lemma_line_numbers(pattern, case_sensitive, path, prev);
        let starts = match_starts(pattern, case_sensitive, lines.last());
        assert(increasing(match_starts(pattern, case_sensitive, lines[n - 1])));
        let h = lines_hits(pattern, case_sensitive, path, prev);
        let l = line_hits(path, n, lines.last(), starts);
        let all = lines_hits(pattern, case_sensitive, path, lines);
        assert(all == h + l);
        assert forall|j: int, k: int|
            0 <= j < k < all.len() && all[j].1 == all[k].1 implies all[j].2 < all[k].2 by {
            if k >= h.len() {
                assert(all[k] == l[k - h.len()]);
                if j >= h.len() {
                    assert(all[j] == l[j - h.len()]);
                } else {
                    assert(all[j] == h[j]);
                }
            } else {
                assert(all[j] == h[j]);
                assert(all[k] == h[k]);
            }
        }
    }
}

/// Within the results for one file, line numbers start at 1 and never go
/// down, and where the engine reports each line's matches left to right, the
/// columns on one line go strictly up.
pub proof fn lemma_file_hits_ordered(
    pattern: Seq<char>,
    case_sensitive: bool,
    file: (Seq<char>, Seq<char>),
)
    requires
        engine_ordered(pattern, case_sensitive, file.1),
    ensures
        hits_ordered(file_hits(pattern, case_sensitive, file)),
{
    let lines = text_lines(file.1);
    lemma_line_numbers(pattern, case_sensitive, file.0, lines);
    lemma_columns(pattern, case_sensitive, file.0, lines);
}

/// Results keep the order of the files: searching the files of `a` followed
/// by those of `b` gives the results for `a` followed by those for `b`.
pub proof fn lemma_file_order(
    pattern: Seq<char>,
    case_sensitive: bool,
    a: Seq<(Seq<char>, Seq<char>)>,
    b: Seq<(Seq<char>, Seq<char>)>,
)
    ensures
        all_hits(pattern, case_sensitive, a + b) == all_hits(pattern, case_sensitive, a)
            + all_hits(pattern, case_sensitive, b),
    decreases b.len(),
{
    if b.len() == 0 {
        assert(a + b =~= a);
        assert(all_hits(pattern, case_sensitive, a) + all_hits(pattern, case_sensitive, b)
            =~= all_hits(pattern, case_sensitive, a));
    } else {
        assert((a + b).drop_last() =~= a + b.drop_last());
        assert((a + b).last() == b.last());
        lemma_file_order(pattern, case_sensitive, a, b.drop_last());
        assert(all_hits(pattern, case_sensitive, a + b) =~= all_hits(pattern, case_sensitive, a)
            + all_hits(pattern, case_sensitive, b));
    }
}

/// Searching a single file gives that file's results, and each of them
/// names the file's path.
pub proof fn lemma_single_file(pattern: Seq<char>, case_sensitive: bool, file: (Seq<char>, Seq<char>))
    ensures
        all_hits(pattern, case_sensitive, seq![file]) == file_hits(pattern, case_sensitive, file),
        forall|j: int|
            0 <= j < file_hits(pattern, case_sensitive, file).len() ==> (#[trigger] file_hits(
                pattern,
                case_sensitive,
                file,
            )[j]).0 == file.0,
{
    let one = seq![file];
    assert(one.drop_last() =~= Seq::<(Seq<char>, Seq<char>)>::empty());
    assert(one.last() == file);
    assert(all_hits(pattern, case_sensitive, one.drop_last()) == Seq::<Hit>::empty());
    assert(all_hits(pattern, case_sensitive, seq![file]) =~= file_hits(pattern, case_sensitive, file));
    lemma_hits_name_path(pattern, case_sensitive, file.0, text_lines(file.1));
}

proof fn lemma_hits_name_path(
    pattern: Seq<char>,
    case_sensitive: bool,
    path: Seq<char>,
    lines: Seq<Seq<char>>,
)
    ensures
        forall|j: int|
            0 <= j < lines_hits(pattern, case_sensitive, path, lines).len() ==> (
            #[trigger] lines_hits(pattern, case_sensitive, path, lines)[j]).0 == path,
    decreases lines.len(),
{
    if lines.len() > 0 {
        lemma_hits_name_path(pattern, case_sensitive, path, lines.drop_last());
        let h = lines_hits(pattern, case_sensitive, path, lines.drop_last());
        let l = line_hits(
            path,
            lines.len() as int,
            lines.last(),
            match_starts(pattern, case_sensitive, lines.last()),
        );
        let all = lines_hits(pattern, case_sensitive, path, lines);
        assert(all == h + l);
        assert forall|j: int| 0 <= j < all.len() implies (#[trigger] all[j]).0 == path by {
            if j >= h.len() {
                assert(all[j] == l[j - h.len()]);
            } else {
                assert(all[j] == h[j]);
            }
        }
    }
}

/// A pattern that does not compile gives an error, and so no results,
/// whatever the files.
pub proof fn lemma_invalid_pattern(
    pattern: Seq<char>,
    case_sensitive: bool,
    files: Seq<FileInput>,
    r: Result<Vec<MatchResult>, String>,
)
    requires
        search_outcome(pattern, case_sensitive, files, r),
        !regex_accepts(pattern, case_sensitive),
    ensures
        r is Err,
{
}

/// Searching twice with the same inputs succeeds or fails alike, and two
/// successes give equal results; two failures name the same pattern.
pub proof fn lemma_search_repeatable(
    pattern: Seq<char>,
    case_sensitive: bool,
    files: Seq<FileInput>,
    r1: Result<Vec<MatchResult>, String>,
    r2: Result<Vec<MatchResult>, String>,
)
    requires
        search_outcome(pattern, case_sensitive, files, r1),
        search_outcome(pattern, case_sensitive, files, r2),
    ensures
        r1 is Ok <==> r2 is Ok,
        r1 is Ok ==> results_view(r1->Ok_0@) == results_view(r2->Ok_0@),
        r1 is Err ==> (exists|d1: Seq<char>, d2: Seq<char>|
            r1->Err_0@ == error_text(pattern, d1) && r2->Err_0@ == error_text(pattern, d2)),
{
}

} // verus!
