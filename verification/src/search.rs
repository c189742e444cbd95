//! The search over a set of files, in two phases.
//!
//! The first phase is cheap and coarse: a file stays where, for every query,
//! its bytes hold a statement keyword of the query somewhere and a table name
//! of the query somewhere. The second phase reads the statements of each file
//! that stayed: query by query, a file stays only where it holds a statement
//! that matches the query.

use crate::query::{query_views, statement_pattern_of, table_pattern_of, QueryView, SearchQuery};
use crate::split::lines_of;
use crate::statement::{
    find_statements, lemma_statements_sound, sound_record, statement_views, statements_in,
    Statement, StatementView,
};
use vstd::prelude::*;
use vstd::string::StringSliceAdditionalSpecFns;
use vstd::utf8::encode_utf8;

verus! {

/// A file to search: its path and what it holds.
#[derive(Debug)]
pub struct SourceFile {
    pub path: String,
    pub contents: String,
}

/// What a file to search says.
pub struct FileView {
    pub path: Seq<char>,
    pub contents: Seq<char>,
}

impl View for SourceFile {
    type V = FileView;

    open spec fn view(&self) -> FileView {
        FileView { path: self.path@, contents: self.contents@ }
    }
}

/// What each file of a list says.
pub open spec fn file_views(files: Seq<SourceFile>) -> Seq<FileView> {
    files.map_values(|f: SourceFile| f@)
}

/// How the first phase judges one file.
#[derive(Debug, Clone, Copy, PartialEq, Eq, Structural)]
pub enum Verdict {
    /// Every pattern of every query was found.
    Match,
    /// Some pattern was not found.
    NoMatch,
    /// A pattern could not be searched for.
    Failed,
}

/// Whether a line-by-line search of `contents` for the regular expression
/// `pattern` finds a line that matches: `None` where the pattern cannot be
/// compiled or the search ends in an error.
pub uninterp spec fn search_hit(pattern: Seq<char>, contents: Seq<u8>) -> Option<bool>;

/// Compiles `pattern` with `grep_regex::RegexMatcher::new` and searches
/// `contents` with `grep_searcher::Searcher::search_slice` on a fresh
/// searcher, stopping at the first matching line. The contract names the
/// outcome `search_hit`; nothing is claimed about it beyond its being fixed by
/// the two arguments.
#[verifier::external_body]
fn pattern_found(pattern: &str, contents: &[u8]) -> (hit: Option<bool>)
    ensures
        hit == search_hit(pattern@, contents@),
{
    let mut found = false;
    let sink = grep_searcher::sinks::Bytes(|_, _| {
        found = true;
        Ok(false)
    });
    let matcher = match grep_regex::RegexMatcher::new(pattern) {
        Ok(matcher) => matcher,
        Err(_) => return None,
    };
    match grep_searcher::Searcher::new().search_slice(&matcher, contents, sink) {
        Ok(()) => Some(found),
        Err(_) => None,
    }
}

/// What the two searches for one query come to: the keyword pattern is
/// searched first, and the table pattern only where the keyword was found.
pub open spec fn combine_hits(keyword: Option<bool>, table: Option<bool>) -> Verdict {
    match keyword {
        None => Verdict::Failed,
        Some(false) => Verdict::NoMatch,
        Some(true) => match table {
            None => Verdict::Failed,
            Some(false) => Verdict::NoMatch,
            Some(true) => Verdict::Match,
        },
    }
}

/// How the first phase judges `contents` for one query.
pub open spec fn query_verdict(query: QueryView, contents: Seq<u8>) -> Verdict {
    combine_hits(
        search_hit(statement_pattern_of(query.kinds), contents),
        search_hit(table_pattern_of(query.tables), contents),
    )
}

/// How the first phase judges `contents` for a list of queries: the verdict
/// of the first query that is no match, or a match where all are.
pub open spec fn prefilter_verdict(queries: Seq<QueryView>, contents: Seq<u8>) -> Verdict
    decreases queries.len(),
{
    if queries.len() == 0 {
        Verdict::Match
    } else {
        match query_verdict(queries[0], contents) {
            Verdict::Match => prefilter_verdict(queries.drop_first(), contents),
            other => other,
        }
    }
}

/// The indices below `n` of the files that the first phase keeps, ascending.
pub open spec fn prefiltered(files: Seq<FileView>, queries: Seq<QueryView>, n: nat) -> Seq<usize>
    decreases n,
{
    if n == 0 {
        Seq::empty()
    } else {
        let before = prefiltered(files, queries, (n - 1) as nat);
        if prefilter_verdict(queries, encode_utf8(files[n - 1].contents)) == Verdict::Match {
            before.push((n - 1) as usize)
        } else {
            before
        }
    }
}

/// The indices below `n` of the files that the first phase could not judge,
/// ascending.
pub open spec fn unsearchable(files: Seq<FileView>, queries: Seq<QueryView>, n: nat) -> Seq<usize>
    decreases n,
{
    if n == 0 {
        Seq::empty()
    } else {
        let before = unsearchable(files, queries, (n - 1) as nat);
        if prefilter_verdict(queries, encode_utf8(files[n - 1].contents)) == Verdict::Failed {
            before.push((n - 1) as usize)
        } else {
            before
        }
    }
}

/// The records of the statements of one file that match `query`.
pub open spec fn file_statements(file: FileView, query: QueryView) -> Seq<StatementView> {
    statements_in(file.path, lines_of(file.contents), query)
}

/// The files among `live` that hold a statement matching `query`.
pub open spec fn kept_by(files: Seq<FileView>, live: Seq<usize>, query: QueryView) -> Seq<usize>
    decreases live.len(),
{
    if live.len() == 0 {
        Seq::empty()
    } else {
        let before = kept_by(files, live.drop_last(), query);
        if file_statements(files[live.last() as int], query).len() > 0 {
            before.push(live.last())
        } else {
            before
        }
    }
}

/// The records of the statements matching `query` in the files `live`, file
/// by file.
pub open spec fn found_by(files: Seq<FileView>, live: Seq<usize>, query: QueryView) -> Seq<
    StatementView,
>
    decreases live.len(),
{
    if live.len() == 0 {
        Seq::empty()
    } else {
        found_by(files, live.drop_last(), query) + file_statements(
            files[live.last() as int],
            query,
        )
    }
}

/// The files among `live` that are left after the queries have narrowed them
/// one after another.
pub open spec fn survivors(files: Seq<FileView>, live: Seq<usize>, queries: Seq<QueryView>) -> Seq<
    usize,
>
    decreases queries.len(),
{
    if queries.len() == 0 {
        live
    } else {
        kept_by(files, survivors(files, live, queries.drop_last()), queries.last())
    }
}

/// The records gathered while the queries narrow `live` one after another:
/// each query adds the statements it matches in the files still there.
pub open spec fn collected(files: Seq<FileView>, live: Seq<usize>, queries: Seq<QueryView>) -> Seq<
    StatementView,
>
    decreases queries.len(),
{
    if queries.len() == 0 {
        Seq::empty()
    } else {
        collected(files, live, queries.drop_last()) + found_by(
            files,
            survivors(files, live, queries.drop_last()),
            queries.last(),
        )
    }
}

/// What a search gives.
#[derive(Debug)]
pub struct SearchOutcome {
    /// The files that the first phase kept, by index.
    pub candidates: Vec<usize>,
    /// The files that the first phase could not judge, by index.
    pub failed: Vec<usize>,
    /// The files left after the second phase, by index.
    pub matched: Vec<usize>,
    /// Every statement record gathered in the second phase.
    pub statements: Vec<Statement>,
}

/// Whether `outcome` is what the search of `files` for `queries` gives.
pub open spec fn is_outcome_of(
    outcome: SearchOutcome,
    files: Seq<FileView>,
    queries: Seq<QueryView>,
) -> bool {
    &&& outcome.candidates@ == prefiltered(files, queries, files.len())
    &&& outcome.failed@ == unsearchable(files, queries, files.len())
    &&& outcome.matched@ == survivors(files, outcome.candidates@, queries)
    &&& statement_views(outcome.statements@) == collected(files, outcome.candidates@, queries)
}

/// Judges one query from the outcome of its two searches.
pub fn judge_query(keyword: Option<bool>, table: Option<bool>) -> (verdict: Verdict)
    ensures
        verdict == combine_hits(keyword, table),
{
    match keyword {
        None => Verdict::Failed,
        Some(false) => Verdict::NoMatch,
        Some(true) => match table {
            None => Verdict::Failed,
            Some(false) => Verdict::NoMatch,
            Some(true) => Verdict::Match,
        },
    }
}

/// The first phase on one file: whether the contents hold, for every query,
/// one of its keywords and one of its table names.
pub fn prefilter_file(contents: &str, queries: &Vec<SearchQuery>) -> (verdict: Verdict)
    ensures
        verdict == prefilter_verdict(query_views(queries@), encode_utf8(contents@)),
{
    let bytes = contents.as_bytes();
    let ghost all = query_views(queries@);
    let mut i: usize = 0;
    assert(all.skip(0) =~= all);
    while i < queries.len()
        invariant
            i <= queries@.len(),
            all == query_views(queries@),
            bytes@ == encode_utf8(contents@),
            prefilter_verdict(all, bytes@) == prefilter_verdict(all.skip(i as int), bytes@),
        decreases queries@.len() - i,
    {
        proof {
            assert(all.skip(i as int).drop_first() =~= all.skip(i + 1));
            assert(all.skip(i as int)[0] == queries@[i as int]@);
        }
        let keyword_pattern = queries[i].statement_pattern();
        let keyword = pattern_found(keyword_pattern.as_str(), bytes);
        let table = match keyword {
            Some(true) => {
                let table_pattern = queries[i].table_pattern();
                pattern_found(table_pattern.as_str(), bytes)
            },
            _ => None,
        };
        let verdict = judge_query(keyword, table);
        match verdict {
            Verdict::Match => {},
            _ => {
                return verdict;
            },
        }
        i += 1;
    }
    assert(all.skip(queries@.len() as int) =~= Seq::empty());
    Verdict::Match
}

/// The second phase for one query: reads the statements of each file in
/// `live`, keeps the files that hold a matching statement, and adds the
/// records to `statements`.
pub fn narrow(
    files: &Vec<SourceFile>,
    live: &Vec<usize>,
    query: &SearchQuery,
    statements: &mut Vec<Statement>,
) -> (kept: Vec<usize>)
    requires
        forall|k: int| 0 <= k < live@.len() ==> live@[k] < files@.len(),
    ensures
        kept@ == kept_by(file_views(files@), live@, query@),
        statement_views(final(statements)@) == statement_views(old(statements)@) + found_by(
            file_views(files@),
            live@,
            query@,
        ),
{
    let ghost all = file_views(files@);
    let ghost start = statement_views(statements@);
    let mut kept: Vec<usize> = Vec::new();
    let mut i: usize = 0;
    assert(start + found_by(all, live@.take(0), query@) =~= start);
    while i < live.len()
        invariant
            i <= live@.len(),
            all == file_views(files@),
            forall|k: int| 0 <= k < live@.len() ==> live@[k] < files@.len(),
            kept@ == kept_by(all, live@.take(i as int), query@),
            statement_views(statements@) == start + found_by(all, live@.take(i as int), query@),
        decreases live@.len() - i,
    {
        proof {
            assert(live@.take(i + 1).drop_last() =~= live@.take(i as int));
            assert(live@.take(i + 1).last() == live@[i as int]);
        }
        let at: usize = live[i];
        let file = &files[at];
        assert(all[at as int] == file@);
        let ghost before = statement_views(statements@);
        match find_statements(file.path.as_str(), file.contents.as_str(), query) {
            Some(mut found) => {
                let ghost added = statement_views(found@);
                kept.push(at);
                statements.append(&mut found);
                assert(statement_views(statements@) =~= before + added);
            },
            None => {
                assert(before + file_statements(file@, query@) =~= before);
            },
        }
        assert(statement_views(statements@) =~= start + found_by(
            all,
            live@.take(i + 1),
            query@,
        ));
        i += 1;
    }
    assert(live@.take(live@.len() as int) =~= live@);
    kept
}

/// What `kept_by` keeps was in `live`, in the same order; so indices that are
/// within the files stay within them.
pub proof fn lemma_kept_within(files: Seq<FileView>, live: Seq<usize>, query: QueryView, bound: nat)
    requires
        forall|k: int| 0 <= k < live.len() ==> live[k] < bound,
    ensures
        forall|k: int|
            0 <= k < kept_by(files, live, query).len() ==> #[trigger] kept_by(files, live, query)[k]
                < bound,
    decreases live.len(),
{
    if live.len() > 0 {
        let before = kept_by(files, live.drop_last(), query);
        lemma_kept_within(files, live.drop_last(), query, bound);
        assert forall|k: int| 0 <= k < kept_by(files, live, query).len() implies #[trigger] kept_by(
            files,
            live,
            query,
        )[k] < bound by {
            if k < before.len() {
                assert(kept_by(files, live, query)[k] == before[k]);
            } else {
                assert(kept_by(files, live, query)[k] == live[live.len() - 1]);
            }
        }
    }
}

/// The files of the first phase are files of the input.
pub proof fn lemma_prefiltered_within(files: Seq<FileView>, queries: Seq<QueryView>, n: nat)
    requires
        n <= usize::MAX,
    ensures
        forall|k: int|
            0 <= k < prefiltered(files, queries, n).len() ==> #[trigger] prefiltered(
                files,
                queries,
                n,
            )[k] < n,
    decreases n,
{
    if n > 0 {
        let before = prefiltered(files, queries, (n - 1) as nat);
        lemma_prefiltered_within(files, queries, (n - 1) as nat);
        assert forall|k: int| 0 <= k < prefiltered(files, queries, n).len() implies #[trigger] prefiltered(
            files,
            queries,
            n,
        )[k] < n by {
            if k < before.len() {
                assert(prefiltered(files, queries, n)[k] == before[k]);
            }
        }
    }
}

/// Searches `files` for statements that match every query.
///
/// The first phase keeps the files whose bytes hold a keyword and a table
/// name of every query. The second phase takes the queries in order: each
/// reads the files still there, adds the statements it matches to the
/// result, and drops the files in which it matched none.
pub fn search(files: &Vec<SourceFile>, queries: &Vec<SearchQuery>) -> (outcome: SearchOutcome)
    ensures
        is_outcome_of(outcome, file_views(files@), query_views(queries@)),
        forall|k: int|
            0 <= k < outcome.candidates@.len() ==> #[trigger] outcome.candidates@[k]
                < files@.len(),
        forall|k: int|
            0 <= k < outcome.matched@.len() ==> #[trigger] outcome.matched@[k] < files@.len(),
        forall|k: int|
            0 <= k < outcome.failed@.len() ==> #[trigger] outcome.failed@[k] < files@.len(),
{
    let ghost all = file_views(files@);
    let ghost asked = query_views(queries@);
    let mut candidates: Vec<usize> = Vec::new();
    let mut failed: Vec<usize> = Vec::new();
    let mut i: usize = 0;
    while i < files.len()
        invariant
            i <= files@.len(),
            all == file_views(files@),
            asked == query_views(queries@),
            candidates@ == prefiltered(all, asked, i as nat),
            failed@ == unsearchable(all, asked, i as nat),
            forall|k: int| 0 <= k < failed@.len() ==> #[trigger] failed@[k] < i,
        decreases files@.len() - i,
    {
        assert(all[i as int] == files@[i as int]@);
        match prefilter_file(files[i].contents.as_str(), queries) {
            Verdict::Match => {
                candidates.push(i);
            },
            Verdict::Failed => {
                failed.push(i);
            },
            Verdict::NoMatch => {},
        }
        i += 1;
    }
    proof {
        lemma_prefiltered_within(all, asked, files@.len() as nat);
    }
    let mut statements: Vec<Statement> = Vec::new();
    let mut matched: Vec<usize> = candidates.clone();
    assert(matched@ =~= candidates@);
    let mut q: usize = 0;
    assert(asked.take(0) =~= Seq::empty());
    assert(statement_views(statements@) =~= Seq::empty());
    while q < queries.len()
        invariant
            q <= queries@.len(),
            all == file_views(files@),
            asked == query_views(queries@),
            forall|k: int| 0 <= k < matched@.len() ==> matched@[k] < files@.len(),
            matched@ == survivors(all, candidates@, asked.take(q as int)),
            statement_views(statements@) == collected(all, candidates@, asked.take(q as int)),
        decreases queries@.len() - q,
    {
        proof {
            assert(asked.take(q + 1).drop_last() =~= asked.take(q as int));
            assert(asked.take(q + 1).last() == queries@[q as int]@);
            lemma_kept_within(all, matched@, queries@[q as int]@, files@.len() as nat);
        }
        let kept = narrow(files, &matched, &queries[q], &mut statements);
        matched = kept;
        q += 1;
    }
    assert(asked.take(queries@.len() as int) =~= asked);
    SearchOutcome { candidates, failed, matched, statements }
}

/// A sequence that grows by one element holds what it held before and that
/// element.
pub proof fn lemma_push_contains<T>(s: Seq<T>, last: T, x: T)
    ensures
        s.push(last).contains(x) <==> s.contains(x) || x == last,
{
    if s.contains(x) {
        let i = choose|i: int| 0 <= i < s.len() && s[i] == x;
        assert(s.push(last)[i] == x);
    }
    if x == last {
        assert(s.push(last)[s.len() as int] == x);
    }
}

/// What a sequence holds is what it holds before its last element, and that
/// element.
pub proof fn lemma_drop_last_contains<T>(s: Seq<T>, x: T)
    requires
        s.len() > 0,
    ensures
        s.contains(x) <==> s.drop_last().contains(x) || x == s.last(),
{
    assert(s.drop_last().push(s.last()) =~= s);
    lemma_push_contains(s.drop_last(), s.last(), x);
}

/// What two sequences put together hold is what either holds.
pub proof fn lemma_concat_contains<T>(a: Seq<T>, b: Seq<T>, x: T)
    ensures
        (a + b).contains(x) <==> a.contains(x) || b.contains(x),
{
    if a.contains(x) {
        let i = choose|i: int| 0 <= i < a.len() && a[i] == x;
        assert((a + b)[i] == x);
    }
    if b.contains(x) {
        let i = choose|i: int| 0 <= i < b.len() && b[i] == x;
        assert((a + b)[a.len() + i] == x);
    }
    if (a + b).contains(x) {
        let i = choose|i: int| 0 <= i < (a + b).len() && (a + b)[i] == x;
        if i < a.len() {
            assert(a[i] == x);
        } else {
            assert(b[i - a.len()] == x);
        }
    }
}

/// The first phase keeps a file exactly where every query is a match for it.
pub proof fn lemma_prefilter_match(queries: Seq<QueryView>, contents: Seq<u8>)
    ensures
        prefilter_verdict(queries, contents) == Verdict::Match <==> forall|j: int|
            0 <= j < queries.len() ==> query_verdict(#[trigger] queries[j], contents)
                == Verdict::Match,
    decreases queries.len(),
{
    if queries.len() > 0 {
        let rest = queries.drop_first();
        lemma_prefilter_match(rest, contents);
        if prefilter_verdict(queries, contents) == Verdict::Match {
            assert forall|j: int| 0 <= j < queries.len() implies query_verdict(
                #[trigger] queries[j],
                contents,
            ) == Verdict::Match by {
                if j > 0 {
                    assert(queries[j] == rest[j - 1]);
                }
            }
        }
        if forall|j: int|
            0 <= j < queries.len() ==> query_verdict(#[trigger] queries[j], contents)
                == Verdict::Match {
            assert(query_verdict(queries[0], contents) == Verdict::Match);
            assert forall|j: int| 0 <= j < rest.len() implies query_verdict(
                #[trigger] rest[j],
                contents,
            ) == Verdict::Match by {
                assert(rest[j] == queries[j + 1]);
            }
        }
    }
}

/// The candidates of the first phase are exactly the files that every query
/// is a match for.
pub proof fn lemma_prefiltered_contains(
    files: Seq<FileView>,
    queries: Seq<QueryView>,
    n: nat,
    x: usize,
)
    requires
        n <= usize::MAX,
    ensures
        prefiltered(files, queries, n).contains(x) <==> x < n && prefilter_verdict(
            queries,
            encode_utf8(files[x as int].contents),
        ) == Verdict::Match,
    decreases n,
{
    if n > 0 {
        let before = prefiltered(files, queries, (n - 1) as nat);
        lemma_prefiltered_contains(files, queries, (n - 1) as nat, x);
        lemma_push_contains(before, (n - 1) as usize, x);
    }
}

/// One query keeps exactly the files among `live` in which it matches a
/// statement.
pub proof fn lemma_kept_by_contains(
    files: Seq<FileView>,
    live: Seq<usize>,
    query: QueryView,
    x: usize,
)
    ensures
        kept_by(files, live, query).contains(x) <==> live.contains(x) && file_statements(
            files[x as int],
            query,
        ).len() > 0,
    decreases live.len(),
{
    if live.len() > 0 {
        let before = kept_by(files, live.drop_last(), query);
        lemma_kept_by_contains(files, live.drop_last(), query, x);
        lemma_drop_last_contains(live, x);
        lemma_push_contains(before, live.last(), x);
    }
}

/// A file is left after the second phase exactly where it was a candidate
/// and every query matches a statement in it.
pub proof fn lemma_survivors_contains(
    files: Seq<FileView>,
    live: Seq<usize>,
    queries: Seq<QueryView>,
    x: usize,
)
    ensures
        survivors(files, live, queries).contains(x) <==> live.contains(x) && forall|j: int|
            0 <= j < queries.len() ==> file_statements(files[x as int], #[trigger] queries[j]).len()
                > 0,
    decreases queries.len(),
{
    if queries.len() > 0 {
        let head = queries.drop_last();
        lemma_survivors_contains(files, live, head, x);
        lemma_kept_by_contains(files, survivors(files, live, head), queries.last(), x);
        if survivors(files, live, queries).contains(x) {
            assert forall|j: int| 0 <= j < queries.len() implies file_statements(
                files[x as int],
                #[trigger] queries[j],
            ).len() > 0 by {
                if j < head.len() {
                    assert(queries[j] == head[j]);
                }
            }
        }
        if live.contains(x) && forall|j: int|
            0 <= j < queries.len() ==> file_statements(files[x as int], #[trigger] queries[j]).len()
                > 0 {
            assert forall|j: int| 0 <= j < head.len() implies file_statements(
                files[x as int],
                #[trigger] head[j],
            ).len() > 0 by {
                assert(head[j] == queries[j]);
            }
            assert(queries[queries.len() - 1] == queries.last());
        }
    }
}

/// The records that one query adds are the records of its statements in the
/// files of `live`.
pub proof fn lemma_found_by_contains(
    files: Seq<FileView>,
    live: Seq<usize>,
    query: QueryView,
    r: StatementView,
)
    ensures
        found_by(files, live, query).contains(r) <==> exists|k: int|
            0 <= k < live.len() && file_statements(files[#[trigger] live[k] as int], query).contains(
                r,
            ),
    decreases live.len(),
{
    if live.len() > 0 {
        let head = live.drop_last();
        let last = file_statements(files[live.last() as int], query);
        lemma_found_by_contains(files, head, query, r);
        lemma_concat_contains(found_by(files, head, query), last, r);
        if found_by(files, live, query).contains(r) {
            if last.contains(r) {
                assert(file_statements(files[live[live.len() - 1] as int], query).contains(r));
            } else {
                let k = choose|k: int|
                    0 <= k < head.len() && file_statements(
                        files[#[trigger] head[k] as int],
                        query,
                    ).contains(r);
                assert(file_statements(files[live[k] as int], query).contains(r));
            }
        }
        if exists|k: int|
            0 <= k < live.len() && file_statements(files[#[trigger] live[k] as int], query).contains(
                r,
            ) {
            let k = choose|k: int|
                0 <= k < live.len() && file_statements(
                    files[#[trigger] live[k] as int],
                    query,
                ).contains(r);
            if k < head.len() {
                assert(file_statements(files[head[k] as int], query).contains(r));
            }
        }
    } else {
        assert(!found_by(files, live, query).contains(r));
    }
}

/// Whether `r` is a record that query number `j` gives in one of the files
/// that the queries before it have left of `live`.
pub open spec fn gathered_at(
    files: Seq<FileView>,
    live: Seq<usize>,
    queries: Seq<QueryView>,
    j: int,
    r: StatementView,
) -> bool {
    &&& 0 <= j < queries.len()
    &&& found_by(files, survivors(files, live, queries.take(j)), queries[j]).contains(r)
}

/// The records of a search are the records that each query gives in the
/// files that the queries before it have left.
pub proof fn lemma_collected_contains(
    files: Seq<FileView>,
    live: Seq<usize>,
    queries: Seq<QueryView>,
    r: StatementView,
)
    ensures
        collected(files, live, queries).contains(r) <==> exists|j: int|
            gathered_at(files, live, queries, j, r),
    decreases queries.len(),
{
    if queries.len() > 0 {
        let head = queries.drop_last();
        let n = queries.len() - 1;
        let last = found_by(files, survivors(files, live, head), queries.last());
        lemma_collected_contains(files, live, head, r);
        lemma_concat_contains(collected(files, live, head), last, r);
        assert(queries.take(n) =~= head);
        if collected(files, live, queries).contains(r) {
            if last.contains(r) {
                assert(gathered_at(files, live, queries, n, r));
            } else {
                let j = choose|j: int| gathered_at(files, live, head, j, r);
                assert(head.take(j) =~= queries.take(j));
                assert(gathered_at(files, live, queries, j, r));
            }
        }
        if exists|j: int| gathered_at(files, live, queries, j, r) {
            let j = choose|j: int| gathered_at(files, live, queries, j, r);
            if j < n {
                assert(head.take(j) =~= queries.take(j));
                assert(gathered_at(files, live, head, j, r));
            }
        }
    } else {
        assert(!collected(files, live, queries).contains(r));
    }
}

/// Every record of a search comes from a candidate file and one of the
/// queries, and is sound for them: it carries the file's path, a kind and a
/// table of that query, and `begin <= end`.
pub proof fn lemma_collected_sound(
    files: Seq<FileView>,
    live: Seq<usize>,
    queries: Seq<QueryView>,
    r: StatementView,
)
    requires
        collected(files, live, queries).contains(r),
    ensures
        exists|j: int, x: usize|
            0 <= j < queries.len() && live.contains(x) && #[trigger] sound_record(
                r,
                files[x as int].path,
                lines_of(files[x as int].contents),
                queries[j],
            ),
{
    lemma_collected_contains(files, live, queries, r);
    let j = choose|j: int| gathered_at(files, live, queries, j, r);
    let left = survivors(files, live, queries.take(j));
    lemma_found_by_contains(files, left, queries[j], r);
    let k = choose|k: int|
        0 <= k < left.len() && file_statements(files[#[trigger] left[k] as int], queries[j]).contains(
            r,
        );
    let x = left[k];
    assert(left.contains(x));
    lemma_survivors_contains(files, live, queries.take(j), x);
    let file = files[x as int];
    lemma_statements_sound(file.path, lines_of(file.contents), queries[j]);
    let found = file_statements(file, queries[j]);
    let at = choose|at: int| 0 <= at < found.len() && found[at] == r;
    assert(sound_record(found[at], file.path, lines_of(file.contents), queries[j]));
}

/// The second phase only narrows the first, which only narrows the input:
/// a matched file is a candidate, and a candidate is one of the files.
pub proof fn lemma_phases_narrow(
    outcome: SearchOutcome,
    files: Seq<FileView>,
    queries: Seq<QueryView>,
    x: usize,
)
    requires
        is_outcome_of(outcome, files, queries),
        files.len() <= usize::MAX,
    ensures
        outcome.matched@.contains(x) ==> outcome.candidates@.contains(x),
        outcome.candidates@.contains(x) ==> x < files.len(),
        outcome.candidates@.contains(x) ==> !outcome.failed@.contains(x),
{
    lemma_survivors_contains(files, outcome.candidates@, queries, x);
    lemma_prefiltered_contains(files, queries, files.len(), x);
    lemma_unsearchable_contains(files, queries, files.len(), x);
}

/// The files that could not be judged are exactly those for which the first
/// phase failed.
pub proof fn lemma_unsearchable_contains(
    files: Seq<FileView>,
    queries: Seq<QueryView>,
    n: nat,
    x: usize,
)
    requires
        n <= usize::MAX,
    ensures
        unsearchable(files, queries, n).contains(x) <==> x < n && prefilter_verdict(
            queries,
            encode_utf8(files[x as int].contents),
        ) == Verdict::Failed,
    decreases n,
{
    if n > 0 {
        let before = unsearchable(files, queries, (n - 1) as nat);
        lemma_unsearchable_contains(files, queries, (n - 1) as nat, x);
        lemma_push_contains(before, (n - 1) as usize, x);
    }
}

/// A file is matched exactly where the first phase kept it and every query
/// matches a statement in it. So a file in which one query matches nothing
/// is not matched, whatever the other queries found in it and whatever the
/// first phase made of it.
pub proof fn lemma_matched_files(
    outcome: SearchOutcome,
    files: Seq<FileView>,
    queries: Seq<QueryView>,
    x: usize,
)
    requires
        is_outcome_of(outcome, files, queries),
    ensures
        outcome.matched@.contains(x) <==> outcome.candidates@.contains(x) && forall|j: int|
            0 <= j < queries.len() ==> file_statements(files[x as int], #[trigger] queries[j]).len()
                > 0,
{
    lemma_survivors_contains(files, outcome.candidates@, queries, x);
}

/// Two searches of the same files for the same queries give the same
/// candidates, the same matched files and the same records.
pub proof fn lemma_search_repeatable(
    first: SearchOutcome,
    second: SearchOutcome,
    files: Seq<FileView>,
    queries: Seq<QueryView>,
)
    requires
        is_outcome_of(first, files, queries),
        is_outcome_of(second, files, queries),
    ensures
        first.candidates@ == second.candidates@,
        first.failed@ == second.failed@,
        first.matched@ == second.matched@,
        statement_views(first.statements@) == statement_views(second.statements@),
        statement_views(first.statements@).to_multiset() == statement_views(
            second.statements@,
        ).to_multiset(),
{
}

} // verus!
