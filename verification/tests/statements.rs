use gresql::query::SearchQuery;
use gresql::statement::{find_statements, find_statements_in_lines, lines_from};
use gresql::statement_type::StatementType;

fn query(spec: &str) -> SearchQuery {
    SearchQuery::parse(spec).unwrap()
}

#[test]
fn insert_statement_followed_by_blank_line() {
    let contents = "INSERT INTO t_pick_detail (a) VALUES (1);\n\n";
    let found = find_statements("a.sql", contents, &query("i:t_pick_detail")).unwrap();
    assert_eq!(found.len(), 1);
    assert_eq!(found[0].file_path, "a.sql");
    assert_eq!(found[0].statement_type, StatementType::Insert);
    assert_eq!(found[0].table, "t_pick_detail");
    assert_eq!(found[0].begin, 0);
    assert_eq!(found[0].end, 1);
    assert_eq!(found[0].text, "INSERT INTO t_pick_detail (a) VALUES (1); ");
}

#[test]
fn statement_lines_are_counted_from_zero() {
    let contents = "-- header\n\nCREATE PROCEDURE p AS\nINSERT INTO t_pick_detail (a)\nVALUES (1)\n\nGO\n";
    let found = find_statements("a.sql", contents, &query("i:t_pick_detail")).unwrap();
    assert_eq!(found.len(), 1);
    assert_eq!(found[0].begin, 3);
    assert_eq!(found[0].end, 5);
    assert_eq!(found[0].text, "INSERT INTO t_pick_detail (a) VALUES (1) ");
}

#[test]
fn update_to_another_table_does_not_match() {
    let contents = "-- touches t_pick_detail\nUPDATE t_order SET x = 1\n\n";
    assert!(find_statements("a.sql", contents, &query("u:t_pick_detail")).is_none());
    let found = find_statements("a.sql", contents, &query("u:t_order")).unwrap();
    assert_eq!(found.len(), 1);
    assert_eq!(found[0].table, "t_order");
    assert_eq!(found[0].begin, 1);
    assert_eq!(found[0].end, 2);
}

#[test]
fn kind_outside_the_query_is_never_read() {
    let contents = "UPDATE t_pick_detail SET x = 1\n\n";
    assert!(find_statements("a.sql", contents, &query("d:t_pick_detail")).is_none());
    assert!(find_statements("a.sql", contents, &query("s:t_pick_detail")).is_none());
    assert!(find_statements("a.sql", contents, &query("x:t_pick_detail")).is_none());
    assert!(find_statements("a.sql", contents, &query("t_pick_detail")).is_some());
}

#[test]
fn statement_spanning_a_block_comment() {
    let contents = "UPDATE t_pick_detail\n/* FROM t_other\n   more words\n*/\nSET qty = 1\nWHERE id = 2;\n\n";
    let found = find_statements("a.sql", contents, &query("u:t_pick_detail")).unwrap();
    assert_eq!(found.len(), 1);
    assert_eq!(found[0].statement_type, StatementType::Update);
    assert_eq!(found[0].table, "t_pick_detail");
    assert_eq!(found[0].begin, 0);
    assert_eq!(found[0].end, 6);
    assert_eq!(found[0].text, "UPDATE t_pick_detail */ SET qty = 1 WHERE id = 2; ");
    assert!(find_statements("a.sql", contents, &query("u:t_other")).is_none());
}

#[test]
fn block_comment_on_one_line_is_kept_in_the_text() {
    let contents = "DELETE /* all */ FROM t_a\n\n";
    let found = find_statements("a.sql", contents, &query("d:t_a")).unwrap();
    assert_eq!(found[0].text, "DELETE /* all */ FROM t_a ");
    assert_eq!(found[0].table, "t_a");
}

#[test]
fn statement_inside_a_block_comment_is_skipped() {
    let contents = "/*\nUPDATE t_a SET x = 1\n\n*/\nUPDATE t_a SET y = 2\n\n";
    let found = find_statements("a.sql", contents, &query("u:t_a")).unwrap();
    assert_eq!(found.len(), 1);
    assert_eq!(found[0].begin, 4);
    assert_eq!(found[0].end, 5);
    assert_eq!(found[0].text, "UPDATE t_a SET y = 2 ");
}

#[test]
fn blank_line_inside_a_block_comment_does_not_end_the_statement() {
    let contents = "UPDATE t_a\n/*\n\n*/\nSET y = 2\n;\n";
    let found = find_statements("a.sql", contents, &query("u:t_a")).unwrap();
    assert_eq!(found.len(), 1);
    assert_eq!(found[0].begin, 0);
    assert_eq!(found[0].end, 5);
    assert_eq!(found[0].text, "UPDATE t_a */ SET y = 2 ");
}

#[test]
fn close_marker_without_open_is_ignored() {
    let contents = "*/\nUPDATE t_a SET y = 2\n\n";
    let found = find_statements("a.sql", contents, &query("u:t_a")).unwrap();
    assert_eq!(found.len(), 1);
    assert_eq!(found[0].begin, 1);
    assert_eq!(found[0].end, 2);
}

#[test]
fn unterminated_block_comment_ends_with_the_file() {
    let contents = "UPDATE t_a SET y = 2\n/* never closed\nWHERE q = 1\n";
    let found = find_statements("a.sql", contents, &query("u:t_a")).unwrap();
    assert_eq!(found.len(), 1);
    assert_eq!(found[0].begin, 0);
    assert_eq!(found[0].end, 3);
    assert_eq!(found[0].text, "UPDATE t_a SET y = 2 ");

    let contents = "/* never closed\nUPDATE t_a SET y = 2\n\n";
    assert!(find_statements("a.sql", contents, &query("u:t_a")).is_none());
}

#[test]
fn statement_ends_at_the_end_of_the_file() {
    let contents = "UPDATE t_a\nSET y = 2";
    let found = find_statements("a.sql", contents, &query("u:t_a")).unwrap();
    assert_eq!(found.len(), 1);
    assert_eq!(found[0].begin, 0);
    assert_eq!(found[0].end, 2);
    assert_eq!(found[0].text, "UPDATE t_a SET y = 2 ");

    let found = find_statements("a.sql", "UPDATE t_a SET y = 2", &query("u:t_a")).unwrap();
    assert_eq!(found[0].begin, 0);
    assert_eq!(found[0].end, 1);
}

#[test]
fn statement_ends_at_a_line_that_starts_with_a_semicolon() {
    let contents = "DELETE FROM t_a\nWHERE x = 1\n; UPDATE t_a SET y = 1\nUPDATE t_a SET y = 2\n\n";
    let found = find_statements("a.sql", contents, &query("ud:t_a")).unwrap();
    assert_eq!(found.len(), 2);
    assert_eq!(found[0].statement_type, StatementType::Delete);
    assert_eq!(found[0].begin, 0);
    assert_eq!(found[0].end, 2);
    assert_eq!(found[0].text, "DELETE FROM t_a WHERE x = 1 ");
    assert_eq!(found[1].statement_type, StatementType::Update);
    assert_eq!(found[1].begin, 3);
    assert_eq!(found[1].end, 4);
    assert_eq!(found[1].text, "UPDATE t_a SET y = 2 ");
}

#[test]
fn leading_semicolons_are_dropped_while_seeking() {
    let contents = ";; update t_a set y = 2\n\n";
    let found = find_statements("a.sql", contents, &query("u:t_a")).unwrap();
    assert_eq!(found.len(), 1);
    assert_eq!(found[0].text, " update t_a set y = 2 ");
    assert_eq!(found[0].table, "t_a");
}

#[test]
fn line_comments_are_skipped_and_trimmed() {
    let contents = "  UPDATE t_a -- from t_b\n-- from t_c\n\tSET y = 2 -- done\n\n";
    let found = find_statements("a.sql", contents, &query("u:t_a,t_b,t_c")).unwrap();
    assert_eq!(found.len(), 1);
    assert_eq!(found[0].table, "t_a");
    assert_eq!(found[0].text, "UPDATE t_a  SET y = 2  ");
    assert_eq!(found[0].begin, 0);
    assert_eq!(found[0].end, 3);
}

#[test]
fn tabs_become_spaces() {
    let contents = "INSERT\tINTO\tt_a\n\n";
    let found = find_statements("a.sql", contents, &query("i:t_a")).unwrap();
    assert_eq!(found[0].text, "INSERT INTO t_a ");
}

#[test]
fn keyword_is_matched_in_any_case() {
    for first in ["update", "UPDATE", "Update", "uPdAtE"] {
        let contents = format!("{} t_a set x = 1\n\n", first);
        let found = find_statements("a.sql", &contents, &query("u:t_a")).unwrap();
        assert_eq!(found.len(), 1);
        assert_eq!(found[0].statement_type, StatementType::Update);
    }
    assert!(find_statements("a.sql", "updates t_a set x = 1\n\n", &query("u:t_a")).is_none());
}

#[test]
fn table_names_are_compared_with_case() {
    let contents = "UPDATE T_A SET x = 1\n\n";
    assert!(find_statements("a.sql", contents, &query("u:t_a")).is_none());
    assert!(find_statements("a.sql", contents, &query("u:T_A")).is_some());
}

#[test]
fn several_statements_come_in_the_order_of_their_lines() {
    let contents = "select * from t_a\n\ninsert into t_a values (1)\n\nselect 1\n\nmerge t_a using t_b\n\n";
    let found = find_statements("f", contents, &query("sim:t_a")).unwrap();
    assert_eq!(found.len(), 3);
    assert_eq!(found[0].statement_type, StatementType::Select);
    assert_eq!((found[0].begin, found[0].end), (0, 1));
    assert_eq!(found[1].statement_type, StatementType::Insert);
    assert_eq!((found[1].begin, found[1].end), (2, 3));
    assert_eq!(found[2].statement_type, StatementType::Merge);
    assert_eq!((found[2].begin, found[2].end), (6, 7));
}

#[test]
fn empty_table_name_matches_nothing() {
    assert!(find_statements("a.sql", "UPDATE t_a SET x = 1\n\n", &query("u:")).is_none());
}

#[test]
fn empty_file_holds_no_statement() {
    assert!(find_statements("a.sql", "", &query("u:t_a")).is_none());
    assert!(find_statements("a.sql", "\n\n\n", &query("u:t_a")).is_none());
    assert!(find_statements_in_lines("a.sql", &Vec::new(), &query("u:t_a")).is_empty());
}

#[test]
fn lines_and_contents_give_the_same_statements() {
    let contents = "UPDATE t_a\nSET y = 2\n\nDELETE t_a\n";
    let q = query("ud:t_a");
    let from_contents = find_statements("a.sql", contents, &q).unwrap();
    let from_lines = find_statements_in_lines("a.sql", &lines_from(contents), &q);
    assert_eq!(from_contents.len(), 2);
    assert_eq!(from_lines.len(), 2);
    for k in 0..2 {
        assert_eq!(from_contents[k].statement_type, from_lines[k].statement_type);
        assert_eq!(from_contents[k].table, from_lines[k].table);
        assert_eq!(from_contents[k].begin, from_lines[k].begin);
        assert_eq!(from_contents[k].end, from_lines[k].end);
        assert_eq!(from_contents[k].text, from_lines[k].text);
    }
    assert_eq!((from_lines[1].begin, from_lines[1].end), (3, 4));
}

#[test]
fn found_statements_keep_begin_before_end_and_a_table() {
    let contents = "UPDATE t_a SET y = 2\n;\ndelete from t_b\n\ninsert into t_a\nvalues (1)";
    let q = query("t_a,t_b");
    let found = find_statements("a.sql", contents, &q).unwrap();
    assert_eq!(found.len(), 3);
    for s in &found {
        assert!(s.begin < s.end);
        assert!(s.end <= 6);
        assert!(!s.table.is_empty());
        assert!(q.tables.contains(&s.table));
        assert!(q.statement_types.contains(&s.statement_type));
    }
}
