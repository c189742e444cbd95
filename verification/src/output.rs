//! Result rows as text.

use crate::search::{file_views, FileView, SourceFile};
use crate::split::{join, joined, texts};
use crate::statement::{statement_views, Statement, StatementView};
use crate::statement_type::display_name;
use crate::text::string_of;
use vstd::prelude::*;

verus! {

/// How results are written.
#[derive(Debug, Clone, Copy)]
pub struct PrintOpts {
    /// Write the paths of the matching files and no statement rows.
    pub only_file_paths: bool,
    /// Leave the statement text out of each row.
    pub hide_statement: bool,
    /// The character between the fields of a row.
    pub delimiter: char,
}

/// The decimal digit for a value below ten.
pub open spec fn digit_char(d: nat) -> char {
    (('0' as u8) + d) as char
}

/// The decimal numeral of `n`, without leading zeros.
pub open spec fn decimal(n: nat) -> Seq<char>
    decreases n,
{
    if n < 10 {
        seq![digit_char(n)]
    } else {
        decimal(n / 10).push(digit_char(n % 10))
    }
}

/// The number that a decimal numeral stands for.
pub open spec fn decimal_value(s: Seq<char>) -> nat
    decreases s.len(),
{
    if s.len() == 0 {
        0
    } else {
        (decimal_value(s.drop_last()) * 10 + (s.last() as u8 - '0' as u8)) as nat
    }
}

/// The fields of the row for a statement: path, first line, last line, kind
/// and table, and the text unless it is hidden.
pub open spec fn row_fields(s: StatementView, hide_statement: bool) -> Seq<Seq<char>> {
    let fields = seq![
        s.file_path,
        decimal(s.begin),
        decimal(s.end),
        display_name(s.kind),
        s.table,
    ];
    if hide_statement {
        fields
    } else {
        fields.push(s.text)
    }
}

/// The row for a statement: its fields with the delimiter between them.
pub open spec fn row_of(s: StatementView, delimiter: char, hide_statement: bool) -> Seq<char> {
    join(row_fields(s, hide_statement), delimiter)
}

/// The rows for a list of statements, one each, in order.
pub open spec fn rows_of(statements: Seq<StatementView>, delimiter: char, hide_statement: bool)
    -> Seq<Seq<char>> {
    statements.map_values(|s: StatementView| row_of(s, delimiter, hide_statement))
}

/// The paths of the files with the given indices.
pub open spec fn paths_at(files: Seq<FileView>, indices: Seq<usize>) -> Seq<Seq<char>> {
    indices.map_values(|i: usize| files[i as int].path)
}

/// The lines to write for a search: nothing where no statement was found;
/// in paths-only mode the path of each matched file; else one row for each
/// statement.
pub open spec fn report_of(
    opts: PrintOpts,
    files: Seq<FileView>,
    matched: Seq<usize>,
    statements: Seq<StatementView>,
) -> Seq<Seq<char>> {
    if statements.len() == 0 {
        Seq::empty()
    } else if opts.only_file_paths {
        paths_at(files, matched)
    } else {
        rows_of(statements, opts.delimiter, opts.hide_statement)
    }
}

/// A decimal numeral stands for the number it was written for.
pub proof fn lemma_decimal_value(n: nat)
    ensures
        decimal_value(decimal(n)) == n,
        decimal(n).len() >= 1,
    decreases n,
{
    if n < 10 {
        assert(decimal(n).drop_last() =~= Seq::<char>::empty());
        assert(decimal_value(Seq::<char>::empty()) == 0);
    } else {
        lemma_decimal_value(n / 10);
        assert(decimal(n).drop_last() =~= decimal(n / 10));
    }
}

/// The decimal numeral of `n`.
pub fn decimal_chars(n: usize) -> (digits: Vec<char>)
    ensures
        digits@ == decimal(n as nat),
    decreases n,
{
    if n < 10 {
        let d: char = (('0' as u8) + (n as u8)) as char;
        let digits = vec![d];
        assert(digits@ =~= decimal(n as nat));
        digits
    } else {
        let mut digits = decimal_chars(n / 10);
        let d: char = (('0' as u8) + ((n % 10) as u8)) as char;
        digits.push(d);
        digits
    }
}

/// The row for one statement.
pub fn format_statement(s: &Statement, delimiter: char, hide_statement: bool) -> (row: String)
    ensures
        row@ == row_of(s@, delimiter, hide_statement),
{
    let mut fields: Vec<String> = Vec::new();
    fields.push(s.file_path.clone());
    fields.push(string_of(decimal_chars(s.begin).as_slice()));
    fields.push(string_of(decimal_chars(s.end).as_slice()));
    fields.push(s.statement_type.to_string());
    fields.push(s.table.clone());
    if !hide_statement {
        fields.push(s.text.clone());
    }
    assert(texts(fields@) =~= row_fields(s@, hide_statement));
    joined(&fields, delimiter)
}

/// The rows for the statements, one each, in order.
pub fn print_statements(opts: PrintOpts, statements: &Vec<Statement>) -> (lines: Vec<String>)
    ensures
        texts(lines@) == rows_of(statement_views(statements@), opts.delimiter, opts.hide_statement),
{
    let mut lines: Vec<String> = Vec::new();
    let mut i: usize = 0;
    let ghost all = rows_of(statement_views(statements@), opts.delimiter, opts.hide_statement);
    assert(texts(lines@) =~= all.take(0));
    while i < statements.len()
        invariant
            i <= statements@.len(),
            all == rows_of(statement_views(statements@), opts.delimiter, opts.hide_statement),
            texts(lines@) == all.take(i as int),
        decreases statements@.len() - i,
    {
        let ghost before = lines@;
        let row = format_statement(&statements[i], opts.delimiter, opts.hide_statement);
        let ghost text = row@;
        lines.push(row);
        proof {
            assert(texts(lines@) =~= texts(before).push(text));
            assert(all.take(i + 1) =~= all.take(i as int).push(text));
        }
        i += 1;
    }
    assert(all.take(statements@.len() as int) =~= all);
    lines
}

/// The lines to write for a search of `files` that left the files `matched`
/// and gave `statements`.
pub fn report(
    opts: PrintOpts,
    files: &Vec<SourceFile>,
    matched: &Vec<usize>,
    statements: &Vec<Statement>,
) -> (lines: Vec<String>)
    requires
        forall|k: int| 0 <= k < matched@.len() ==> matched@[k] < files@.len(),
    ensures
        texts(lines@) == report_of(
            opts,
            file_views(files@),
            matched@,
            statement_views(statements@),
        ),
{
    if statements.len() == 0 {
        let lines: Vec<String> = Vec::new();
        assert(texts(lines@) =~= Seq::empty());
        return lines;
    }
    if opts.only_file_paths {
        let mut lines: Vec<String> = Vec::new();
        let ghost all = paths_at(file_views(files@), matched@);
        let mut i: usize = 0;
        assert(texts(lines@) =~= all.take(0));
        while i < matched.len()
            invariant
                i <= matched@.len(),
                forall|k: int| 0 <= k < matched@.len() ==> matched@[k] < files@.len(),
                all == paths_at(file_views(files@), matched@),
                texts(lines@) == all.take(i as int),
            decreases matched@.len() - i,
        {
            let ghost before = lines@;
            let path = files[matched[i]].path.clone();
            let ghost text = path@;
            lines.push(path);
            proof {
                assert(file_views(files@)[matched@[i as int] as int] == files@[matched@[i as int] as int]@);
                assert(texts(lines@) =~= texts(before).push(text));
                assert(all.take(i + 1) =~= all.take(i as int).push(text));
            }
            i += 1;
        }
        assert(all.take(matched@.len() as int) =~= all);
        return lines;
    }
    print_statements(opts, statements)
}

} // verus!
