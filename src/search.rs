//! Searching a list of files line by line.
use vstd::prelude::*;
use vstd::string::*;
use vstd::utf8::*;
use crate::engine::{increasing, match_starts, regex_accepts, Matcher};
use crate::laws::lemma_file_hits_ordered;
use crate::lines::{
    lemma_chars_within_bytes, lemma_text_lines_len, split_lines, strings_view, text_lines,
};

verus! {

/// One file to search: its path and its whole text.
#[derive(Debug, Clone, PartialEq, Eq)]
pub struct FileInput {
    pub path: String,
    pub content: String,
}

/// One match: the file, the 1-based line, the 1-based byte column at which
/// the match starts, and the whole text of the line.
#[derive(Debug, Clone, PartialEq, Eq)]
pub struct MatchResult {
    pub path: String,
    pub line: u32,
    pub column: u32,
    pub line_text: String,
}

/// A match as a mathematical value: path, line, column, line text.
pub type Hit = (Seq<char>, int, int, Seq<char>);

impl View for FileInput {
    type V = (Seq<char>, Seq<char>);

    open spec fn view(&self) -> (Seq<char>, Seq<char>) {
        (self.path@, self.content@)
    }
}

impl View for MatchResult {
    type V = Hit;

    open spec fn view(&self) -> Hit {
        (self.path@, self.line as int, self.column as int, self.line_text@)
    }
}

pub open spec fn files_view(files: Seq<FileInput>) -> Seq<(Seq<char>, Seq<char>)> {
    files.map_values(|f: FileInput| f@)
}

pub open spec fn results_view(results: Seq<MatchResult>) -> Seq<Hit> {
    results.map_values(|m: MatchResult| m@)
}

/// The matches on one line, given where they start.
pub open spec fn line_hits(path: Seq<char>, line_no: int, line: Seq<char>, starts: Seq<usize>) -> Seq<
    Hit,
> {
    starts.map_values(|s: usize| (path, line_no, s + 1, line))
}

/// The matches on `lines`, numbered from 1, in order.
pub open spec fn lines_hits(
    pattern: Seq<char>,
    case_sensitive: bool,
    path: Seq<char>,
    lines: Seq<Seq<char>>,
) -> Seq<Hit>
    decreases lines.len(),
{
    if lines.len() == 0 {
        Seq::empty()
    } else {
        lines_hits(pattern, case_sensitive, path, lines.drop_last()) + line_hits(
            path,
            lines.len() as int,
            lines.last(),
            match_starts(pattern, case_sensitive, lines.last()),
        )
    }
}

/// The matches in one file.
pub open spec fn file_hits(
    pattern: Seq<char>,
    case_sensitive: bool,
    file: (Seq<char>, Seq<char>),
) -> Seq<Hit> {
    lines_hits(pattern, case_sensitive, file.0, text_lines(file.1))
}

/// The matches in all files, file by file in order.
pub open spec fn all_hits(
    pattern: Seq<char>,
    case_sensitive: bool,
    files: Seq<(Seq<char>, Seq<char>)>,
) -> Seq<Hit>
    decreases files.len(),
{
    if files.len() == 0 {
        Seq::empty()
    } else {
        all_hits(pattern, case_sensitive, files.drop_last()) + file_hits(
            pattern,
            case_sensitive,
            files.last(),
        )
    }
}

/// The engine reports the matches of every line of `text` left to right.
pub open spec fn engine_ordered(pattern: Seq<char>, case_sensitive: bool, text: Seq<char>) -> bool {
    forall|k: int|
        0 <= k < text_lines(text).len() ==> increasing(
            #[trigger] match_starts(pattern, case_sensitive, text_lines(text)[k]),
        )
}

/// The line numbers start at 1, never go down, and stay within `n`.
pub open spec fn lines_ascending(hits: Seq<Hit>, n: int) -> bool {
    &&& forall|j: int| 0 <= j < hits.len() ==> 1 <= #[trigger] hits[j].1 <= n
    &&& forall|j: int, k: int| 0 <= j < k < hits.len() ==> hits[j].1 <= hits[k].1
}

/// The columns on one line go strictly up.
pub open spec fn columns_ascending(hits: Seq<Hit>) -> bool {
    forall|j: int, k: int|
        0 <= j < k < hits.len() && hits[j].1 == hits[k].1 ==> hits[j].2 < hits[k].2
}

/// Within one file the line numbers start at 1 and never go down, and the
/// columns on one line go strictly up.
pub open spec fn hits_ordered(hits: Seq<Hit>) -> bool {
    &&& forall|j: int| 0 <= j < hits.len() ==> 1 <= #[trigger] hits[j].1
    &&& forall|j: int, k: int| 0 <= j < k < hits.len() ==> hits[j].1 <= hits[k].1
    &&& columns_ascending(hits)
}

/// The text of the error for a pattern that does not compile.
pub open spec fn error_text(pattern: Seq<char>, detail: Seq<char>) -> Seq<char> {
    "Invalid regex pattern '"@ + pattern + "': "@ + detail
}

/// Every file is small enough for its line and column numbers to fit in `u32`.
pub open spec fn searchable(files: Seq<FileInput>) -> bool {
    forall|i: int| 0 <= i < files.len() ==> encode_utf8(#[trigger] files[i].content@).len() < u32::MAX
}

/// What `search` returns: an error exactly when the pattern does not compile,
/// and otherwise every match of every line of every file, in order.
pub open spec fn search_outcome(
    pattern: Seq<char>,
    case_sensitive: bool,
    files: Seq<FileInput>,
    r: Result<Vec<MatchResult>, String>,
) -> bool {
    match r {
        Ok(v) => regex_accepts(pattern, case_sensitive) && results_view(v@) == all_hits(
            pattern,
            case_sensitive,
            files_view(files),
        ),
        Err(e) => !regex_accepts(pattern, case_sensitive) && exists|d: Seq<char>|
            e@ == error_text(pattern, d),
    }
}

/// Appends one result for each start in `starts`, in order, to `results`.
pub fn push_line_matches(
    results: &mut Vec<MatchResult>,
    path: &String,
    line_no: u32,
    line: &String,
    starts: &Vec<usize>,
)
    requires
        forall|k: int| 0 <= k < starts.len() ==> starts@[k] < u32::MAX,
    ensures
        results_view(final(results)@) == results_view(old(results)@) + line_hits(
            path@,
            line_no as int,
            line@,
            starts@,
        ),
{
    let ghost base = results_view(results@);
    let mut k: usize = 0;
    while k < starts.len()
        invariant
            0 <= k <= starts.len(),
            forall|j: int| 0 <= j < starts.len() ==> starts@[j] < u32::MAX,
            results_view(results@) == base + line_hits(
                path@,
                line_no as int,
                line@,
                starts@.subrange(0, k as int),
            ),
        decreases starts.len() - k,
    {
        let column = (starts[k] + 1) as u32;
        let ghost before = results_view(results@);
        results.push(
            MatchResult { path: path.clone(), line: line_no, column, line_text: line.clone() },
        );
        assert(results_view(results@) =~= before.push(
            (path@, line_no as int, starts@[k as int] + 1, line@),
        ));
        assert(starts@.subrange(0, k + 1) =~= starts@.subrange(0, k as int).push(starts@[k as int]));
        k = k + 1;
        assert(results_view(results@) =~= base + line_hits(
            path@,
            line_no as int,
            line@,
            starts@.subrange(0, k as int),
        ));
    }
    assert(starts@.subrange(0, k as int) =~= starts@);
}

/// Whether every file is small enough for `search`: under `u32::MAX` bytes.
pub fn within_limits(files: &[FileInput]) -> (r: bool)
    ensures
        r == searchable(files@),
{
    let mut i: usize = 0;
    while i < files.len()
        invariant
            0 <= i <= files@.len(),
            forall|j: int| 0 <= j < i ==> encode_utf8(#[trigger] files@[j].content@).len() < u32::MAX,
        decreases files@.len() - i,
    {
        let bytes = files[i].content.as_str().as_bytes();
        if bytes.len() >= u32::MAX as usize {
            assert(!(encode_utf8(files@[i as int].content@).len() < u32::MAX));
            return false;
        }
        i = i + 1;
    }
    true
}

/// The error for a pattern that the regex crate rejected: it names the
/// pattern and carries the crate's diagnostic.
pub fn pattern_error(pattern: &str, err: &regex::Error) -> (r: String)
    ensures
        exists|d: Seq<char>| r@ == error_text(pattern@, d),
{
    let detail = err.to_string();
    let mut msg = "Invalid regex pattern '".to_owned();
    msg.append(pattern);
    msg.append("': ");
    msg.append(detail.as_str());
    assert(msg@ == error_text(pattern@, detail@));
    msg
}

/// Searches every line of every file for `pattern`, case-insensitively
/// unless `case_sensitive`. Results come file by file, line by line, and left
/// to right within a line; columns are 1-based byte offsets.
pub fn search(pattern: &str, files: &[FileInput], case_sensitive: bool) -> (r: Result<
    Vec<MatchResult>,
    String,
>)
    requires
        searchable(files@),
    ensures
        search_outcome(pattern@, case_sensitive, files@, r),
        r is Ok ==> forall|i: int|
            0 <= i < files@.len() ==> hits_ordered(
                #[trigger] file_hits(pattern@, case_sensitive, files@[i]@),
            ),
{
    let matcher = match Matcher::new(pattern, case_sensitive) {
        Ok(m) => m,
        Err(e) => {
            return Err(pattern_error(pattern, &e));
        },
    };
    let ghost p = pattern@;
    let ghost fv = files_view(files@);
    let mut results: Vec<MatchResult> = Vec::new();
    let mut fi: usize = 0;
    while fi < files.len()
        invariant
            0 <= fi <= files@.len(),
            searchable(files@),
            fv == files_view(files@),
            matcher.pattern() == p,
            matcher.case_sensitive() == case_sensitive,
            results_view(results@) == all_hits(p, case_sensitive, fv.subrange(0, fi as int)),
            forall|g: int| 0 <= g < fi ==> engine_ordered(p, case_sensitive, #[trigger] fv[g].1),
        decreases files@.len() - fi,
    {
        let file = &files[fi];
        let ghost text = file.content@;
        proof {
            assert(encode_utf8(files@[fi as int].content@).len() < u32::MAX);
            lemma_chars_within_bytes(text);
            lemma_text_lines_len(text);
        }
        let lines = split_lines(file.content.as_str());
        let ghost lv = strings_view(lines@);
        let ghost base = results_view(results@);
        let mut li: usize = 0;
        while li < lines.len()
            invariant
                0 <= li <= lines@.len(),
                lv == strings_view(lines@),
                lv == text_lines(text),
                lines@.len() <= text.len() + 1,
                encode_utf8(text).len() < u32::MAX,
                text.len() < u32::MAX,
                forall|k: int|
                    0 <= k < lines.len() ==> encode_utf8(#[trigger] lines@[k]@).len()
                        <= encode_utf8(text).len(),
                matcher.pattern() == p,
                matcher.case_sensitive() == case_sensitive,
                results_view(results@) == base + lines_hits(
                    p,
                    case_sensitive,
                    file.path@,
                    lv.subrange(0, li as int),
                ),
                forall|k: int|
                    0 <= k < li ==> increasing(#[trigger] match_starts(p, case_sensitive, lv[k])),
            decreases lines@.len() - li,
        {
            let line = &lines[li];
            assert(line@ == lv[li as int]);
            let starts = matcher.find_starts(line.as_str());
            push_line_matches(&mut results, &file.path, (li + 1) as u32, line, &starts);
            let ghost next = lv.subrange(0, li + 1);
            assert(next.drop_last() =~= lv.subrange(0, li as int));
            li = li + 1;
            assert(results_view(results@) =~= base + lines_hits(p, case_sensitive, file.path@, next));
        }
        assert(lv.subrange(0, li as int) =~= lv);
        let ghost done = fv.subrange(0, fi + 1);
        assert(done.drop_last() =~= fv.subrange(0, fi as int));
        assert(done.last() == (file.path@, text));
        fi = fi + 1;
    }
    assert(fv.subrange(0, fi as int) =~= fv);
    proof {
        assert forall|i: int| 0 <= i < files@.len() implies hits_ordered(
            #[trigger] file_hits(p, case_sensitive, files@[i]@),
        ) by {
            assert(fv[i] == files@[i]@);
            lemma_file_hits_ordered(p, case_sensitive, files@[i]@);
        }
    }
    Ok(results)
}

} // verus!
