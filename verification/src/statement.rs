//! Finding the statements of a file that match a query.
//!
//! The lines of a file are read one after another by a machine with two
//! states. While seeking it looks for a line that opens a statement of a kind
//! the query asks for. While accumulating it gathers the text of that
//! statement up to an empty line, a line that starts with a semicolon, or the
//! end of the file. Throughout it counts block comments and skips what stands
//! inside one.

use crate::query::{has_kind, QueryView, SearchQuery};
use crate::split::{lines_of, rows, split, split_on, texts};
use crate::statement_type::{kind_of_keyword, StatementType};
use crate::table::{parse_table, table_of, text_of};
use crate::text::{
    begins_with_pair, chars_of, clean_text, cleaned, contains_pair, first_word, has_pair,
    leading_word, lower, lowered, starts_with_pair, string_of, strip_semicolons, trim, trimmed,
    without_leading_semicolons,
};
use vstd::prelude::*;

verus! {

/// A statement that matched a query.
#[derive(Debug)]
pub struct Statement {
    /// The file that holds the statement.
    pub file_path: String,
    pub statement_type: StatementType,
    /// The table the statement refers to.
    pub table: String,
    /// The index of the line that opens the statement, counted from zero.
    pub begin: usize,
    /// The index of the line that ends it: an empty line, a line that starts
    /// with a semicolon, or the number of lines where the file ends first.
    pub end: usize,
    /// The statement's text: its lines without comments, tabs as spaces, each
    /// followed by one space.
    pub text: String,
}

/// What a statement record says.
pub struct StatementView {
    pub file_path: Seq<char>,
    pub kind: StatementType,
    pub table: Seq<char>,
    pub begin: nat,
    pub end: nat,
    pub text: Seq<char>,
}

impl View for Statement {
    type V = StatementView;

    open spec fn view(&self) -> StatementView {
        StatementView {
            file_path: self.file_path@,
            kind: self.statement_type,
            table: self.table@,
            begin: self.begin as nat,
            end: self.end as nat,
            text: self.text@,
        }
    }
}

/// What each statement record of a list says.
pub open spec fn statement_views(statements: Seq<Statement>) -> Seq<StatementView> {
    statements.map_values(|s: Statement| s@)
}

/// A statement that has been opened and not yet ended.
pub struct Pending {
    pub kind: StatementType,
    pub begin: nat,
    pub text: Seq<char>,
}

/// The state of the machine between two lines: how many block comments are
/// open, and the statement being accumulated, if any.
pub struct ScanState {
    pub level: nat,
    pub pending: Option<Pending>,
}

/// What one line does: the state after it, and the statement that it ended.
pub struct Step {
    pub next: ScanState,
    pub closed: Option<Pending>,
}

/// The number of open block comments after a line: one more where the line
/// holds `/*`, then one less where it holds `*/`, but never less than zero.
pub open spec fn level_after(level: nat, line: Seq<char>) -> nat {
    let opened = if has_pair(line, '/', '*') {
        level + 1
    } else {
        level
    };
    if has_pair(line, '*', '/') && opened > 0 {
        (opened - 1) as nat
    } else {
        opened
    }
}

/// The kind of statement that a line opens: that of its first word, taken in
/// lower case.
pub open spec fn opening_kind(line: Seq<char>) -> Option<StatementType> {
    kind_of_keyword(lower(first_word(line)))
}

/// The text that a line adds to a statement.
pub open spec fn contribution(line: Seq<char>) -> Seq<char> {
    clean_text(line).push(' ')
}

/// One line while seeking. The line is trimmed and loses its leading
/// semicolons. An empty line and a line comment are passed over. Any other
/// line moves the comment count, and outside a comment it opens a statement
/// where its first word is the keyword of a kind in `kinds`.
pub open spec fn seeking_step(level: nat, index: nat, raw: Seq<char>, kinds: Seq<StatementType>)
    -> ScanState {
    let line = strip_semicolons(trim(raw));
    if line.len() == 0 || starts_with_pair(line, '-', '-') {
        ScanState { level, pending: None }
    } else {
        let now = level_after(level, line);
        if now > 0 {
            ScanState { level: now, pending: None }
        } else {
            match opening_kind(line) {
                Some(kind) => if kinds.contains(kind) {
                    ScanState {
                        level: now,
                        pending: Some(Pending { kind, begin: index, text: contribution(line) }),
                    }
                } else {
                    ScanState { level: now, pending: None }
                },
                None => ScanState { level: now, pending: None },
            }
        }
    }
}

/// One line while accumulating. The line is trimmed. A line comment is passed
/// over. Any other line moves the comment count; inside a comment it is
/// skipped, outside it adds its text unless it is empty or starts with a
/// semicolon, in which case it ends the statement.
pub open spec fn accumulating_step(level: nat, pending: Pending, raw: Seq<char>) -> Step {
    let line = trim(raw);
    if starts_with_pair(line, '-', '-') {
        Step { next: ScanState { level, pending: Some(pending) }, closed: None }
    } else {
        let now = level_after(level, line);
        if now > 0 {
            Step { next: ScanState { level: now, pending: Some(pending) }, closed: None }
        } else if line.len() > 0 && line[0] != ';' {
            Step {
                next: ScanState {
                    level: now,
                    pending: Some(
                        Pending {
                            kind: pending.kind,
                            begin: pending.begin,
                            text: pending.text + contribution(line),
                        },
                    ),
                },
                closed: None,
            }
        } else {
            Step { next: ScanState { level: now, pending: None }, closed: Some(pending) }
        }
    }
}

/// What the line at `index` does in the given state.
pub open spec fn step(state: ScanState, index: nat, raw: Seq<char>, kinds: Seq<StatementType>)
    -> Step {
    match state.pending {
        None => Step { next: seeking_step(state.level, index, raw, kinds), closed: None },
        Some(pending) => accumulating_step(state.level, pending, raw),
    }
}

/// The record for a statement that ended at `end`: one record where its text
/// names a table that is not empty and is among `tables`, none otherwise.
pub open spec fn emitted(path: Seq<char>, tables: Seq<Seq<char>>, pending: Pending, end: nat)
    -> Seq<StatementView> {
    match table_of(pending.kind, pending.text) {
        Some(table) => if table.len() > 0 && tables.contains(table) {
            seq![
                StatementView {
                    file_path: path,
                    kind: pending.kind,
                    table,
                    begin: pending.begin,
                    end,
                    text: pending.text,
                },
            ]
        } else {
            Seq::empty()
        },
        None => Seq::empty(),
    }
}

/// The records for an optional ended statement.
pub open spec fn emitted_if(
    path: Seq<char>,
    tables: Seq<Seq<char>>,
    closed: Option<Pending>,
    end: nat,
) -> Seq<StatementView> {
    match closed {
        Some(pending) => emitted(path, tables, pending, end),
        None => Seq::empty(),
    }
}

/// The records that the machine gives from line `index` on, started in
/// `state`. A statement still open at the end of the lines ends there.
pub open spec fn scan(
    path: Seq<char>,
    lines: Seq<Seq<char>>,
    query: QueryView,
    index: nat,
    state: ScanState,
) -> Seq<StatementView>
    decreases lines.len() - index,
{
    if index >= lines.len() {
        emitted_if(path, query.tables, state.pending, lines.len())
    } else {
        let s = step(state, index, lines[index as int], query.kinds);
        emitted_if(path, query.tables, s.closed, index) + scan(
            path,
            lines,
            query,
            index + 1,
            s.next,
        )
    }
}

/// The records of the statements in `lines` that match `query`, in order.
pub open spec fn statements_in(path: Seq<char>, lines: Seq<Seq<char>>, query: QueryView) -> Seq<
    StatementView,
> {
    scan(path, lines, query, 0, ScanState { level: 0, pending: None })
}

/// Whether a raw line opens a statement of the given kind: trimmed and without
/// leading semicolons it is not empty, is no line comment, and its first word
/// is the kind's keyword in any case.
pub open spec fn opens(raw: Seq<char>, kind: StatementType) -> bool {
    let line = strip_semicolons(trim(raw));
    &&& line.len() > 0
    &&& !starts_with_pair(line, '-', '-')
    &&& opening_kind(line) == Some(kind)
}

/// Whether a raw line ends a statement: trimmed it is empty or starts with a
/// semicolon.
pub open spec fn ends_statement(raw: Seq<char>) -> bool {
    let line = trim(raw);
    line.len() == 0 || line[0] == ';'
}

/// Whether a record is one that a search of `lines` in file `path` for
/// `query` may give: its kind and table are the query's, its table is not
/// empty and is the one its text refers to, its first line opens a statement
/// of its kind, and its last line lies behind the first and ends a statement
/// or is the end of the file.
pub open spec fn sound_record(
    s: StatementView,
    path: Seq<char>,
    lines: Seq<Seq<char>>,
    query: QueryView,
) -> bool {
    &&& s.file_path == path
    &&& query.kinds.contains(s.kind)
    &&& query.tables.contains(s.table)
    &&& s.table.len() > 0
    &&& table_of(s.kind, s.text) == Some(s.table)
    &&& s.begin < s.end <= lines.len()
    &&& opens(lines[s.begin as int], s.kind)
    &&& s.end < lines.len() ==> ends_statement(lines[s.end as int])
}

/// Whether a statement that is open before line `index` was opened rightly.
pub open spec fn sound_pending(
    pending: Pending,
    lines: Seq<Seq<char>>,
    query: QueryView,
    index: nat,
) -> bool {
    &&& pending.begin < index
    &&& query.kinds.contains(pending.kind)
    &&& opens(lines[pending.begin as int], pending.kind)
}

/// Every record of a scan is sound, given that the open statement is.
pub proof fn lemma_scan_sound(
    path: Seq<char>,
    lines: Seq<Seq<char>>,
    query: QueryView,
    index: nat,
    state: ScanState,
)
    requires
        index <= lines.len(),
        state.pending is Some ==> sound_pending(state.pending->0, lines, query, index),
    ensures
        forall|k: int|
            0 <= k < scan(path, lines, query, index, state).len() ==> sound_record(
                #[trigger] scan(path, lines, query, index, state)[k],
                path,
                lines,
                query,
            ),
    decreases lines.len() - index,
{
    let all = scan(path, lines, query, index, state);
    if index < lines.len() {
        let s = step(state, index, lines[index as int], query.kinds);
        let now = emitted_if(path, query.tables, s.closed, index);
        let rest = scan(path, lines, query, index + 1, s.next);
        lemma_scan_sound(path, lines, query, index + 1, s.next);
        assert(all == now + rest);
        assert forall|k: int| 0 <= k < all.len() implies sound_record(
            #[trigger] all[k],
            path,
            lines,
            query,
        ) by {
            if k < now.len() {
                assert(all[k] == now[k]);
            } else {
                assert(all[k] == rest[k - now.len()]);
            }
        }
    } else {
        assert forall|k: int| 0 <= k < all.len() implies sound_record(
            #[trigger] all[k],
            path,
            lines,
            query,
        ) by {
            assert(all == emitted_if(path, query.tables, state.pending, lines.len()));
        }
    }
}

/// Every record found in a file is sound: it carries the file's path, a kind
/// and a table of the query, a table that is not empty, and lines in order
/// that open and end a statement.
pub proof fn lemma_statements_sound(path: Seq<char>, lines: Seq<Seq<char>>, query: QueryView)
    ensures
        forall|k: int|
            0 <= k < statements_in(path, lines, query).len() ==> sound_record(
                #[trigger] statements_in(path, lines, query)[k],
                path,
                lines,
                query,
            ),
{
    lemma_scan_sound(path, lines, query, 0, ScanState { level: 0, pending: None });
}

/// A query without kinds matches no statement.
pub proof fn lemma_no_kinds_no_statements(
    path: Seq<char>,
    lines: Seq<Seq<char>>,
    query: QueryView,
)
    requires
        query.kinds.len() == 0,
    ensures
        statements_in(path, lines, query).len() == 0,
{
    lemma_statements_sound(path, lines, query);
    if statements_in(path, lines, query).len() > 0 {
        assert(sound_record(statements_in(path, lines, query)[0], path, lines, query));
    }
}

/// A line inside an open block comment adds nothing to the statement being
/// accumulated and does not end it, whatever the line holds.
pub proof fn lemma_commented_line_is_skipped(level: nat, pending: Pending, raw: Seq<char>)
    requires
        !starts_with_pair(trim(raw), '-', '-'),
        level_after(level, trim(raw)) > 0,
    ensures
        accumulating_step(level, pending, raw).closed is None,
        accumulating_step(level, pending, raw).next.pending == Some(pending),
{
}

/// A file of two lines, the first of which opens a statement of a kind asked
/// for, outside any comment, and the second of which is blank, gives that
/// statement where its table is asked for: it runs from line 0 to line 1 and
/// its text is what the first line contributes.
pub proof fn lemma_statement_then_blank(
    path: Seq<char>,
    first: Seq<char>,
    second: Seq<char>,
    query: QueryView,
    kind: StatementType,
)
    requires
        opens(first, kind),
        query.kinds.contains(kind),
        level_after(0, strip_semicolons(trim(first))) == 0,
        trim(second).len() == 0,
    ensures
        statements_in(path, seq![first, second], query) == emitted(
            path,
            query.tables,
            Pending { kind, begin: 0, text: contribution(strip_semicolons(trim(first))) },
            1,
        ),
{
    let lines = seq![first, second];
    let start = ScanState { level: 0, pending: None };
    let opened = Pending { kind, begin: 0, text: contribution(strip_semicolons(trim(first))) };
    let s0 = step(start, 0, lines[0], query.kinds);
    assert(s0.next == ScanState { level: 0, pending: Some(opened) });
    assert(!has_pair(trim(second), '/', '*'));
    assert(!has_pair(trim(second), '*', '/'));
    let s1 = step(s0.next, 1, lines[1], query.kinds);
    assert(s1.closed == Some(opened));
    assert(s1.next == start);
    assert(scan(path, lines, query, 2, s1.next) =~= Seq::empty());
    assert(scan(path, lines, query, 1, s0.next) =~= emitted(path, query.tables, opened, 1));
    assert(scan(path, lines, query, 0, start) =~= emitted(path, query.tables, opened, 1));
}

/// The lines of a text, each as characters.
pub fn lines_from(contents: &str) -> (lines: Vec<Vec<char>>)
    ensures
        rows(lines@) == lines_of(contents@),
{
    let chars = chars_of(contents);
    let mut lines = split(chars.as_slice(), '\n');
    proof {
        crate::split::lemma_split_len(contents@, '\n');
        assert(rows(lines@).len() == lines@.len());
        assert(rows(lines@).last() == lines@.last()@);
    }
    let n: usize = lines.len();
    if lines[n - 1].len() == 0 {
        let ghost before = lines@;
        lines.pop();
        assert(rows(lines@) =~= rows(before).drop_last());
    }
    lines
}

/// Moves the count of open block comments over one line.
pub fn comment_level_after(level: usize, line: &[char]) -> (now: usize)
    requires
        level < usize::MAX,
    ensures
        now == level_after(level as nat, line@),
{
    let mut now: usize = level;
    if contains_pair(line, '/', '*') {
        now += 1;
    }
    if contains_pair(line, '*', '/') && now > 0 {
        now -= 1;
    }
    now
}

/// Whether `tables` holds `table`.
pub fn has_table(tables: &Vec<String>, table: &String) -> (found: bool)
    ensures
        found == texts(tables@).contains(table@),
{
    let mut i: usize = 0;
    while i < tables.len()
        invariant
            i <= tables@.len(),
            forall|j: int| 0 <= j < i ==> texts(tables@)[j] != table@,
        decreases tables@.len() - i,
    {
        if tables[i] == *table {
            assert(texts(tables@)[i as int] == table@);
            return true;
        }
        i += 1;
    }
    false
}

/// Ends a statement at line `end`: extracts its table and, where the table is
/// one of the query's, adds the record to `out`.
pub fn close_statement(
    out: &mut Vec<Statement>,
    file_path: &str,
    query: &SearchQuery,
    kind: StatementType,
    begin: usize,
    end: usize,
    text: &Vec<char>,
)
    ensures
        statement_views(final(out)@) == statement_views(old(out)@) + emitted(
            file_path@,
            query@.tables,
            Pending { kind, begin: begin as nat, text: text@ },
            end as nat,
        ),
{
    let ghost before = out@;
    let text_string = string_of(text.as_slice());
    match parse_table(kind, text_string.as_str()) {
        Some(table) => {
            if !table.as_str().is_empty() && has_table(&query.tables, &table) {
                let record = Statement {
                    file_path: String::from_str(file_path),
                    statement_type: kind,
                    table,
                    begin,
                    end,
                    text: text_string,
                };
                let ghost view = record@;
                out.push(record);
                assert(statement_views(out@) =~= statement_views(before) + seq![view]);
            } else {
                assert(statement_views(out@) =~= statement_views(before) + Seq::empty());
            }
        },
        None => {
            assert(statement_views(out@) =~= statement_views(before) + Seq::empty());
        },
    }
}

/// The state that the machine's variables stand for.
pub open spec fn state_of(
    level: usize,
    kind: Option<StatementType>,
    begin: usize,
    text: Seq<char>,
) -> ScanState {
    ScanState {
        level: level as nat,
        pending: match kind {
            Some(k) => Some(Pending { kind: k, begin: begin as nat, text }),
            None => None,
        },
    }
}

/// Finds the statements in the given lines that match `query`.
pub fn find_statements_in_lines(file_path: &str, lines: &Vec<Vec<char>>, query: &SearchQuery) -> (found:
    Vec<Statement>)
    ensures
        statement_views(found@) == statements_in(file_path@, rows(lines@), query@),
        forall|k: int|
            0 <= k < found@.len() ==> sound_record(
                #[trigger] found@[k]@,
                file_path@,
                rows(lines@),
                query@,
            ),
{
    let n: usize = lines.len();
    let ghost all = rows(lines@);
    let mut out: Vec<Statement> = Vec::new();
    let mut level: usize = 0;
    let mut kind: Option<StatementType> = None;
    let mut begin: usize = 0;
    let mut text: Vec<char> = Vec::new();
    let mut i: usize = 0;
    assert(statement_views(out@) =~= Seq::empty());
    while i < n
        invariant
            n == lines@.len(),
            all == rows(lines@),
            i <= n,
            level <= i,
            statement_views(out@) + scan(
                file_path@,
                all,
                query@,
                i as nat,
                state_of(level, kind, begin, text@),
            ) == statements_in(file_path@, all, query@),
        decreases n - i,
    {
        let ghost state = state_of(level, kind, begin, text@);
        let ghost before = statement_views(out@);
        let ghost s = step(state, i as nat, all[i as int], query@.kinds);
        assert(all[i as int] == lines@[i as int]@);
        let whole = trimmed(lines[i].as_slice());
        match kind {
            None => {
                let line = without_leading_semicolons(whole.as_slice());
                if line.len() != 0 && !begins_with_pair(line.as_slice(), '-', '-') {
                    level = comment_level_after(level, line.as_slice());
                    if level == 0 {
                        let word = lowered(leading_word(line.as_slice()).as_slice());
                        match StatementType::from_keyword_chars(word.as_slice()) {
                            Some(k) => {
                                if has_kind(&query.statement_types, k) {
                                    kind = Some(k);
                                    begin = i;
                                    text = cleaned(line.as_slice());
                                    text.push(' ');
                                }
                            },
                            None => {},
                        }
                    }
                }
                assert(state_of(level, kind, begin, text@) == s.next);
                assert(statement_views(out@) =~= before + emitted_if(
                    file_path@,
                    query@.tables,
                    s.closed,
                    i as nat,
                ));
            },
            Some(k) => {
                if !begins_with_pair(whole.as_slice(), '-', '-') {
                    level = comment_level_after(level, whole.as_slice());
                    if level == 0 {
                        if whole.len() > 0 && whole[0] != ';' {
                            let mut more = cleaned(whole.as_slice());
                            more.push(' ');
                            text.append(&mut more);
                        } else {
                            close_statement(&mut out, file_path, query, k, begin, i, &text);
                            kind = None;
                        }
                    }
                }
                assert(state_of(level, kind, begin, text@) == s.next);
                assert(statement_views(out@) =~= before + emitted_if(
                    file_path@,
                    query@.tables,
                    s.closed,
                    i as nat,
                ));
            },
        }
        proof {
            let rest = scan(file_path@, all, query@, (i + 1) as nat, s.next);
            assert(scan(file_path@, all, query@, i as nat, state) == emitted_if(
                file_path@,
                query@.tables,
                s.closed,
                i as nat,
            ) + rest);
            assert(statement_views(out@) + rest =~= before + scan(
                file_path@,
                all,
                query@,
                i as nat,
                state,
            ));
        }
        i += 1;
    }
    let ghost before = statement_views(out@);
    match kind {
        Some(k) => {
            close_statement(&mut out, file_path, query, k, begin, n, &text);
        },
        None => {
            assert(statement_views(out@) =~= before + Seq::empty());
        },
    }
    proof {
        lemma_statements_sound(file_path@, all, query@);
        assert forall|k: int| 0 <= k < out@.len() implies sound_record(
            #[trigger] out@[k]@,
            file_path@,
            all,
            query@,
        ) by {
            assert(statement_views(out@)[k] == out@[k]@);
        }
    }
    out
}

/// Finds the statements in a file's contents that match `query`: `None`
/// where there is none, else all of them in the order of their lines.
pub fn find_statements(file_path: &str, contents: &str, query: &SearchQuery) -> (found: Option<
    Vec<Statement>,
>)
    ensures
        found is None <==> statements_in(file_path@, lines_of(contents@), query@).len() == 0,
        found is Some ==> statement_views(found->0@) == statements_in(
            file_path@,
            lines_of(contents@),
            query@,
        ),
        found is Some ==> forall|k: int|
            0 <= k < found->0@.len() ==> sound_record(
                #[trigger] found->0@[k]@,
                file_path@,
                lines_of(contents@),
                query@,
            ),
{
    let lines = lines_from(contents);
    let statements = find_statements_in_lines(file_path, &lines, query);
    if statements.len() == 0 {
        None
    } else {
        Some(statements)
    }
}

} // verus!
