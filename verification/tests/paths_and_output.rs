use gresql::output::{decimal_chars, format_statement, print_statements, report, PrintOpts};
use gresql::paths::{
    directory_pattern, get_file_paths, get_path_type, has_path, plan_path, PathAction, PathType,
};
use gresql::search::SourceFile;
use gresql::statement::Statement;
use gresql::statement_type::StatementType;

fn strings(items: &[&str]) -> Vec<String> {
    items.iter().map(|s| s.to_string()).collect()
}

fn statement(path: &str, kind: StatementType, table: &str, begin: usize, end: usize, text: &str) -> Statement {
    Statement {
        file_path: path.to_string(),
        statement_type: kind,
        table: table.to_string(),
        begin,
        end,
        text: text.to_string(),
    }
}

#[test]
fn path_type_from_what_the_file_system_says() {
    assert_eq!(get_path_type(false, false, false), None);
    assert_eq!(get_path_type(false, true, true), None);
    assert_eq!(get_path_type(true, true, false), Some(PathType::File));
    assert_eq!(get_path_type(true, true, true), Some(PathType::File));
    assert_eq!(get_path_type(true, false, true), Some(PathType::Directory));
    assert_eq!(get_path_type(true, false, false), Some(PathType::Symlink));
}

#[test]
fn action_for_each_kind_of_argument() {
    assert_eq!(plan_path(Some(PathType::File), "a.sql"), PathAction::AddFile);
    assert_eq!(plan_path(Some(PathType::File), "a*.sql"), PathAction::AddFile);
    assert_eq!(plan_path(Some(PathType::Symlink), "link"), PathAction::FollowLink);
    assert_eq!(plan_path(Some(PathType::Directory), "."), PathAction::ExpandDirectory);
    assert_eq!(plan_path(None, "./usp_wave_mgmt*.sql"), PathAction::ExpandGlob);
    assert_eq!(plan_path(None, "*"), PathAction::ExpandGlob);
    assert_eq!(plan_path(None, "missing.sql"), PathAction::NotFound);
    assert_eq!(plan_path(None, ""), PathAction::NotFound);
}

#[test]
fn file_paths_are_kept_once_each() {
    assert_eq!(
        get_file_paths(strings(&["b.sql", "a.sql", "b.sql", "c.sql", "a.sql"])),
        strings(&["b.sql", "a.sql", "c.sql"])
    );
    assert_eq!(get_file_paths(Vec::new()), Vec::<String>::new());
    assert_eq!(get_file_paths(strings(&["a", "A"])), strings(&["a", "A"]));
    assert!(has_path(&strings(&["a", "b"]), &"b".to_string()));
    assert!(!has_path(&strings(&["a", "b"]), &"c".to_string()));
}

#[test]
fn numbers_are_written_in_decimal() {
    let text = |n: usize| -> String { decimal_chars(n).into_iter().collect() };
    assert_eq!(text(0), "0");
    assert_eq!(text(7), "7");
    assert_eq!(text(10), "10");
    assert_eq!(text(109), "109");
    assert_eq!(text(12345), "12345");
    assert_eq!(text(usize::MAX), usize::MAX.to_string());
}

#[test]
fn row_has_six_fields_or_five() {
    let s = statement("dir/a.sql", StatementType::Insert, "t_pick_detail", 3, 12, "INSERT INTO t_pick_detail (a) VALUES (1); ");
    assert_eq!(
        format_statement(&s, ',', false),
        "dir/a.sql,3,12,INSERT,t_pick_detail,INSERT INTO t_pick_detail (a) VALUES (1); "
    );
    assert_eq!(format_statement(&s, ',', true), "dir/a.sql,3,12,INSERT,t_pick_detail");
    assert_eq!(format_statement(&s, '\t', true), "dir/a.sql\t3\t12\tINSERT\tt_pick_detail");
    let s = statement("", StatementType::Merge, "", 0, 0, "");
    assert_eq!(format_statement(&s, ';', false), ";0;0;MERGE;;");
    assert_eq!(format_statement(&s, ';', true), ";0;0;MERGE;");
}

#[test]
fn one_row_for_each_statement() {
    let statements = vec![
        statement("a.sql", StatementType::Update, "t_a", 0, 1, "UPDATE t_a "),
        statement("b.sql", StatementType::Delete, "t_b", 5, 9, "DELETE t_b "),
    ];
    let opts = PrintOpts { only_file_paths: false, hide_statement: false, delimiter: '|' };
    assert_eq!(
        print_statements(opts, &statements),
        strings(&["a.sql|0|1|UPDATE|t_a|UPDATE t_a ", "b.sql|5|9|DELETE|t_b|DELETE t_b "])
    );
    let opts = PrintOpts { only_file_paths: false, hide_statement: true, delimiter: ',' };
    assert_eq!(
        print_statements(opts, &statements),
        strings(&["a.sql,0,1,UPDATE,t_a", "b.sql,5,9,DELETE,t_b"])
    );
    assert!(print_statements(opts, &Vec::new()).is_empty());
}

#[test]
fn report_in_each_mode() {
    let files = vec![
        SourceFile { path: "a.sql".to_string(), contents: String::new() },
        SourceFile { path: "b.sql".to_string(), contents: String::new() },
        SourceFile { path: "c.sql".to_string(), contents: String::new() },
    ];
    let statements = vec![statement("c.sql", StatementType::Update, "t_a", 0, 1, "UPDATE t_a ")];
    let rows = PrintOpts { only_file_paths: false, hide_statement: true, delimiter: ',' };
    let paths = PrintOpts { only_file_paths: true, hide_statement: false, delimiter: ',' };
    assert_eq!(report(rows, &files, &vec![2], &statements), strings(&["c.sql,0,1,UPDATE,t_a"]));
    assert_eq!(report(paths, &files, &vec![2, 0], &statements), strings(&["c.sql", "a.sql"]));
    assert!(report(paths, &files, &Vec::new(), &statements).is_empty());
    assert!(report(rows, &files, &vec![1], &Vec::new()).is_empty());
    assert!(report(paths, &files, &vec![1], &Vec::new()).is_empty());
}

#[test]
fn directory_pattern_reaches_every_sql_file_below() {
    assert_eq!(directory_pattern("."), "./**/*.sql");
    assert_eq!(directory_pattern("src/procs"), "src/procs/**/*.sql");
    assert_eq!(directory_pattern("src/procs/"), "src/procs/**/*.sql");
    assert_eq!(directory_pattern("/"), "/**/*.sql");
    assert_eq!(directory_pattern(""), "**/*.sql");
}
