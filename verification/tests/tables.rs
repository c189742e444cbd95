use gresql::statement_type::StatementType;
use gresql::table::{choose_table, fallback_anchor, parse_table, primary_anchor};

fn some(s: &str) -> Option<String> {
    Some(s.to_string())
}

#[test]
fn insert_takes_the_table_after_into() {
    assert_eq!(
        parse_table(StatementType::Insert, "INSERT INTO t_pick_detail (a) VALUES (1); "),
        some("t_pick_detail")
    );
    assert_eq!(parse_table(StatementType::Insert, "insert into #tmp select 1 "), some("#tmp"));
    assert_eq!(parse_table(StatementType::Insert, "insert InTo   @rows values (1) "), some("@rows"));
    assert_eq!(parse_table(StatementType::Insert, "insert t_x values (1) "), None);
}

#[test]
fn select_takes_the_table_after_from_or_nothing() {
    assert_eq!(parse_table(StatementType::Select, "select * from t_order where x = 1 "), some("t_order"));
    assert_eq!(parse_table(StatementType::Select, "SELECT a FROM\tt1, t2 "), some("t1"));
    assert_eq!(parse_table(StatementType::Select, "select 1 "), None);
    assert_eq!(parse_table(StatementType::Select, "select getdate() as select_time "), None);
}

#[test]
fn update_without_from_takes_the_table_after_update() {
    assert_eq!(
        parse_table(StatementType::Update, "UPDATE t_order SET x=1 WHERE y=2; "),
        some("t_order")
    );
    assert_eq!(parse_table(StatementType::Update, "update  t_a set b = 1 "), some("t_a"));
}

#[test]
fn update_with_from_takes_the_table_after_from() {
    assert_eq!(
        parse_table(StatementType::Update, "UPDATE o SET x = 1 FROM t_order o WHERE o.y = 2 "),
        some("t_order")
    );
}

#[test]
fn delete_takes_the_table_after_from_or_after_delete() {
    assert_eq!(parse_table(StatementType::Delete, "DELETE FROM t_pick_detail WHERE a = 1 "), some("t_pick_detail"));
    assert_eq!(parse_table(StatementType::Delete, "delete t_pick_detail where a = 1 "), some("t_pick_detail"));
    assert_eq!(parse_table(StatementType::Delete, "delete "), None);
}

#[test]
fn merge_takes_the_table_after_merge_only() {
    assert_eq!(parse_table(StatementType::Merge, "MERGE t_target AS t USING t_source AS s "), some("t_target"));
    assert_eq!(parse_table(StatementType::Merge, "merge into t_target using t_source "), some("into"));
    assert_eq!(parse_table(StatementType::Merge, "merge"), None);
}

#[test]
fn captured_table_keeps_its_case_and_stops_at_other_characters() {
    assert_eq!(parse_table(StatementType::Select, "select * from T_Order_1.x "), some("T_Order_1"));
    assert_eq!(parse_table(StatementType::Select, "select * from dbo.t_order "), some("dbo"));
    assert_eq!(parse_table(StatementType::Select, "select * from [t_order] "), None);
    assert_eq!(parse_table(StatementType::Select, "select * fromage x "), None);
}

#[test]
fn anchors_are_fixed_patterns() {
    assert_eq!(primary_anchor(StatementType::Insert), r"\b(?i:into)\s+([@#[:alnum:]_]+)");
    assert_eq!(primary_anchor(StatementType::Select), r"\b(?i:from)\s+([@#[:alnum:]_]+)");
    assert_eq!(primary_anchor(StatementType::Update), r"\b(?i:from)\s+([@#[:alnum:]_]+)");
    assert_eq!(primary_anchor(StatementType::Delete), r"\b(?i:from)\s+([@#[:alnum:]_]+)");
    assert_eq!(primary_anchor(StatementType::Merge), r"\b(?i:merge)\s+([@#[:alnum:]_]+)");
    assert_eq!(fallback_anchor(StatementType::Update), Some(r"\b(?i:update)\s+([@#[:alnum:]_]+)"));
    assert_eq!(fallback_anchor(StatementType::Delete), Some(r"\b(?i:delete)\s+([@#[:alnum:]_]+)"));
    assert_eq!(fallback_anchor(StatementType::Select), None);
    assert_eq!(fallback_anchor(StatementType::Insert), None);
    assert_eq!(fallback_anchor(StatementType::Merge), None);
}

#[test]
fn primary_capture_wins_over_fallback() {
    assert_eq!(choose_table(StatementType::Update, some("a"), some("b")), some("a"));
    assert_eq!(choose_table(StatementType::Update, None, some("b")), some("b"));
    assert_eq!(choose_table(StatementType::Delete, None, some("b")), some("b"));
    assert_eq!(choose_table(StatementType::Delete, None, None), None);
    assert_eq!(choose_table(StatementType::Select, None, some("b")), None);
    assert_eq!(choose_table(StatementType::Insert, None, some("b")), None);
    assert_eq!(choose_table(StatementType::Merge, None, some("b")), None);
    assert_eq!(choose_table(StatementType::Select, some("a"), None), some("a"));
}
