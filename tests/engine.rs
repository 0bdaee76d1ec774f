use dqs::loader::get_file_data;
use dqs::models::{Command, FileData, ProjectionRequest, QueryError};
use dqs::projection::project;
use dqs::query::{
    execute_columns, execute_load_query, execute_query, find_query, get_file_name_and_separator,
    parse_select, verify_load_input, verify_select_input,
};

fn cells(v: &[&str]) -> Vec<String> {
    v.iter().map(|s| s.to_string()).collect()
}

fn column<'a>(t: &'a FileData, name: &str) -> Option<&'a Vec<String>> {
    t.get(name)
}

#[test]
fn load_command_arguments() {
    let spec = get_file_name_and_separator("load(data.csv).separator(;)".to_string()).unwrap();
    assert_eq!(spec.name, "data.csv");
    assert_eq!(spec.separator, ";");
}

#[test]
fn load_command_unbalanced() {
    let r = get_file_name_and_separator("load(data.csv.separator(;)".to_string());
    assert!(matches!(r, Err(QueryError::UnbalancedParentheses)));
}

#[test]
fn load_command_one_pair_only() {
    let r = get_file_name_and_separator("load(data.csv)".to_string());
    assert!(matches!(r, Err(QueryError::MalformedLoad)));
}

#[test]
fn load_shape_checked() {
    assert!(verify_load_input("load(data.csv).separator(;)").is_ok());
    assert!(matches!(verify_load_input("load(data).separator(;)"), Err(QueryError::MalformedLoad)));
    assert!(matches!(verify_load_input("load(data.csv).separator()"), Err(QueryError::MalformedLoad)));
}

#[test]
fn select_marker_checked() {
    assert!(verify_select_input("select().cols(*)").is_ok());
    assert!(matches!(verify_select_input("select.cols(*)"), Err(QueryError::MissingSelect)));
}

#[test]
fn select_wildcard_request() {
    assert!(matches!(parse_select("select().cols(*)"), Ok(ProjectionRequest::All)));
    assert!(matches!(parse_select("select().cols(***)"), Ok(ProjectionRequest::All)));
    assert!(matches!(parse_select("select().cols()"), Ok(ProjectionRequest::All)));
}

#[test]
fn select_list_request() {
    match parse_select("select().cols(name,age)") {
        Ok(ProjectionRequest::Columns(v)) => assert_eq!(v, cells(&["name", "age"])),
        _ => panic!("expected a column list"),
    }
}

#[test]
fn select_list_keeps_spaces() {
    match parse_select("select().cols(name, age)") {
        Ok(ProjectionRequest::Columns(v)) => assert_eq!(v, cells(&["name", " age"])),
        _ => panic!("expected a column list"),
    }
}

#[test]
fn select_without_cols() {
    assert!(matches!(parse_select("select()"), Err(QueryError::MissingCols)));
    assert!(matches!(parse_select("select().cols(name"), Err(QueryError::MissingCols)));
}

#[test]
fn command_kinds() {
    assert_eq!(find_query("load(data.csv).separator(;)"), Command::LOAD);
    assert_eq!(find_query("select().cols(*)"), Command::SELECT);
    assert_eq!(find_query("load(a.csv).separator(;) select().cols(*)"), Command::UMBIGUOUS);
    assert_eq!(find_query("hello"), Command::UNKNOWN);
}

#[test]
fn uniform_rows_give_full_columns() {
    let t = get_file_data("a;b;c\n1;2;3\n4;5;6\n7;8;9", ";").unwrap();
    assert_eq!(t.names, cells(&["a", "b", "c"]));
    assert_eq!(t.columns.len(), 3);
    for c in t.columns.iter() {
        assert_eq!(c.len(), 3);
    }
    assert_eq!(column(&t, "b").unwrap(), &cells(&["2", "5", "8"]));
}

#[test]
fn repeated_header_name_fails() {
    match get_file_data("a;b;a\n1;2;3\n", ";") {
        Err(QueryError::DuplicateColumn(n)) => assert_eq!(n, "a"),
        _ => panic!("expected a duplicate column"),
    }
    match get_file_data("x;y;y\n", ";") {
        Err(QueryError::DuplicateColumn(n)) => assert_eq!(n, "y"),
        _ => panic!("expected a duplicate column"),
    }
}

#[test]
fn short_row_reports_its_line() {
    assert!(matches!(get_file_data("a;b\n1;2\n3\n", ";"), Err(QueryError::RowShape(2))));
    assert!(matches!(get_file_data("a;b\n1;2;3\n", ";"), Err(QueryError::RowShape(1))));
}

#[test]
fn empty_file_gives_empty_table() {
    let t = get_file_data("", ";").unwrap();
    assert!(t.names.is_empty());
    assert!(t.columns.is_empty());
}

#[test]
fn header_only_gives_empty_columns() {
    let t = get_file_data("a;b\n", ";").unwrap();
    assert_eq!(t.names, cells(&["a", "b"]));
    assert!(t.columns.iter().all(|c| c.is_empty()));
}

#[test]
fn crlf_lines_are_split() {
    let t = get_file_data("a,b\r\n1,2\r\n", ",").unwrap();
    assert_eq!(t.names, cells(&["a", "b"]));
    assert_eq!(column(&t, "b").unwrap(), &cells(&["2"]));
}

#[test]
fn load_query_needs_one_char_separator() {
    let spec = get_file_name_and_separator("load(x.csv).separator(;;)".to_string()).unwrap();
    assert!(matches!(execute_load_query(&spec, "a;;b\n"), Err(QueryError::MalformedLoad)));
    let spec = get_file_name_and_separator("load(x.csv).separator(;)".to_string()).unwrap();
    let t = execute_load_query(&spec, "a;b\n1;2\n").unwrap();
    assert_eq!(column(&t, "a").unwrap(), &cells(&["1"]));
}

#[test]
fn wildcard_returns_every_column() {
    let t = get_file_data("a;b\n1;2\n", ";").unwrap();
    let p = execute_columns("select().cols(*)", &t).unwrap();
    assert_eq!(p.len(), 2);
    assert_eq!(p.get("a").unwrap(), &cells(&["1"]));
    assert_eq!(p.get("b").unwrap(), &cells(&["2"]));
}

#[test]
fn listed_columns_skip_unknown_and_repeats() {
    let t = get_file_data("a;b;c\n1;2;3\n", ";").unwrap();
    let p = execute_columns("select().cols(c,zz,c,a)", &t).unwrap();
    assert_eq!(p.len(), 2);
    assert_eq!(p.name(0), "c");
    assert_eq!(p.values(0), &cells(&["3"]));
    assert_eq!(p.name(1), "a");
    assert!(p.get("b").is_none());
    assert!(p.get("zz").is_none());
}

#[test]
fn project_all_request() {
    let t = get_file_data("a;b\n1;2\n", ";").unwrap();
    let p = project(&t, &ProjectionRequest::All);
    assert_eq!(p.len(), 2);
}

#[test]
fn select_query_needs_marker() {
    let t = get_file_data("a\n1\n", ";").unwrap();
    assert!(matches!(execute_query(".cols(a)".to_string(), &t), Err(QueryError::MissingSelect)));
    assert!(matches!(execute_query("select()".to_string(), &t), Err(QueryError::MissingCols)));
}

#[test]
fn end_to_end_example() {
    let spec = get_file_name_and_separator("load(data.csv).separator(;)".to_string()).unwrap();
    let t = execute_load_query(&spec, "name;age\nAda;36\nAlan;41\n").unwrap();
    assert_eq!(column(&t, "name").unwrap(), &cells(&["Ada", "Alan"]));
    assert_eq!(column(&t, "age").unwrap(), &cells(&["36", "41"]));
    let p = execute_query("select().cols(name)".to_string(), &t).unwrap();
    assert_eq!(p.len(), 1);
    assert_eq!(p.get("name").unwrap(), &cells(&["Ada", "Alan"]));
    let p = execute_query("select().cols(missing)".to_string(), &t).unwrap();
    assert_eq!(p.len(), 0);
}

#[test]
fn select_list_clause_closed_on_its_line() {
    match parse_select("select().cols(a\n.cols(b)") {
        Ok(ProjectionRequest::Columns(v)) => assert_eq!(v, cells(&["b"])),
        _ => panic!("expected a column list"),
    }
    let t = get_file_data("a;b\n1;2\n", ";").unwrap();
    let p = execute_columns("select().cols(a\n.cols(b)", &t).unwrap();
    assert_eq!(p.len(), 1);
    assert_eq!(p.get("b").unwrap(), &cells(&["2"]));
}

#[test]
fn select_list_clause_unclosed_on_its_line() {
    assert!(matches!(parse_select("select().cols(a\n)"), Err(QueryError::MissingCols)));
}

#[test]
fn load_shape_stays_on_one_line() {
    assert!(matches!(
        verify_load_input("load(data\n.csv).separator(;)"),
        Err(QueryError::MalformedLoad)
    ));
}
