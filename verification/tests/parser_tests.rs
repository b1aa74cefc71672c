use approx_count::parser::Parser;
use approx_count::plan::{
    AggregateExpression, Aggregation, Column, LogicalPlan, Relation, SelectStatement,
};

#[test]
fn test_parse_count() {
    let sql = "SELECT COUNT(col2) FROM table1;";
    let mut parser = Parser::new(sql);

    let expected = SelectStatement {
        projection: AggregateExpression {
            function: Aggregation::Count,
            column: Column {
                name: "col2".to_string(),
                distinct: false,
            },
        },
        table: "table1".to_string(),
    };

    assert_eq!(parser.parse().unwrap(), expected);
}

#[test]
fn test_parse_count_distinct() {
    let sql = "SELECT COUNT(DISTINCT col1) FROM table1;";
    let mut parser = Parser::new(sql);

    let expected = SelectStatement {
        projection: AggregateExpression {
            function: Aggregation::Count,
            column: Column {
                name: "col1".to_string(),
                distinct: true,
            },
        },
        table: "table1".to_string(),
    };

    assert_eq!(parser.parse().unwrap(), expected);
}

#[test]
fn test_plan_count() {
    let sql = "SELECT COUNT(col) FROM table;";
    let mut parser = Parser::new(sql);
    let plan = LogicalPlan::new(parser.parse().unwrap());

    let expected = LogicalPlan {
        statement: SelectStatement {
            projection: AggregateExpression {
                function: Aggregation::Count,
                column: Column {
                    name: "col".to_string(),
                    distinct: false,
                },
            },
            table: "table".to_string(),
        },
    };

    assert_eq!(plan, expected);
}

#[test]
fn test_plan_count_distinct() {
    let sql = "SELECT COUNT(DISTINCT col1) FROM table1";
    let mut parser = Parser::new(sql);
    let plan = LogicalPlan::new(parser.parse().unwrap());

    let expected = LogicalPlan {
        statement: SelectStatement {
            projection: AggregateExpression {
                function: Aggregation::Count,
                column: Column {
                    name: "col1".to_string(),
                    distinct: true,
                },
            },
            table: "table1".to_string(),
        },
    };

    assert_eq!(plan, expected);
}

#[test]
fn keywords_ignore_ascii_case() {
    let mut parser = Parser::new("select Count ( Distinct answer ) FrOm t;");
    let stmt = parser.parse().unwrap();
    assert_eq!(stmt.projection.column.name, "answer");
    assert!(stmt.projection.column.distinct);
    assert_eq!(stmt.table, "t");
}

#[test]
fn wrong_aggregate_reports_expected_count() {
    let mut parser = Parser::new("SELECT SUM(col) FROM t;");
    let err = parser.parse().unwrap_err();
    assert_eq!(err, "Expected count, found SUM");
}

#[test]
fn missing_keyword_reports_what_stood_there() {
    let mut parser = Parser::new("INSERT INTO t;");
    let err = parser.parse().unwrap_err();
    assert_eq!(err, "Expected select, found INSERT");
}

#[test]
fn truncated_input_reports_end_of_input() {
    let mut parser = Parser::new("SELECT COUNT");
    let err = parser.parse().unwrap_err();
    assert_eq!(err, "Expected (, found end of input");
}

#[test]
fn missing_column_name_is_reported() {
    let mut parser = Parser::new("SELECT COUNT(");
    let err = parser.parse().unwrap_err();
    assert_eq!(err, "Expected column name");
}

#[test]
fn missing_table_name_is_reported() {
    let mut parser = Parser::new("SELECT COUNT(col) FROM");
    let err = parser.parse().unwrap_err();
    assert_eq!(err, "Expected table name");
}

#[test]
fn empty_input_is_reported() {
    let mut parser = Parser::new("");
    let err = parser.parse().unwrap_err();
    assert_eq!(err, "Expected select, found end of input");
}

#[test]
fn relation_select_keeps_matching_rows() {
    let relation = Relation {
        columns: vec![
            Column {
                name: "id".to_string(),
                distinct: false,
            },
            Column {
                name: "name".to_string(),
                distinct: false,
            },
            Column {
                name: "age".to_string(),
                distinct: false,
            },
        ],
        rows: vec![
            vec!["1".to_string(), "Alice".to_string(), "30".to_string()],
            vec!["2".to_string(), "Bob".to_string(), "25".to_string()],
            vec!["3".to_string(), "Alice".to_string(), "22".to_string()],
        ],
    };

    let picked = relation.select(1, "Alice");
    assert_eq!(picked.rows.len(), 2);
    assert_eq!(picked.rows[0], vec!["1", "Alice", "30"]);
    assert_eq!(picked.rows[1], vec!["3", "Alice", "22"]);
    assert_eq!(picked.columns.len(), 3);

    let nobody = relation.select(1, "Mallory");
    assert_eq!(nobody.rows.len(), 0);
}

#[test]
fn relation_projection_picks_cells_in_order() {
    let relation = Relation {
        columns: vec![
            Column {
                name: "id".to_string(),
                distinct: false,
            },
            Column {
                name: "name".to_string(),
                distinct: false,
            },
            Column {
                name: "age".to_string(),
                distinct: false,
            },
        ],
        rows: vec![
            vec!["1".to_string(), "Alice".to_string(), "30".to_string()],
            vec!["2".to_string(), "Bob".to_string(), "25".to_string()],
        ],
    };

    let projected = relation.select(1, "Alice").projection(&[0, 2]);
    assert_eq!(projected.rows.len(), 1);
    assert_eq!(projected.rows[0], vec!["1", "30"]);

    let swapped = relation.projection(&[2, 0]);
    assert_eq!(swapped.rows[0], vec!["30", "1"]);
    assert_eq!(swapped.rows[1], vec!["25", "2"]);
}
