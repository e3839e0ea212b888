use sqlsynth::{Column, SqlType, Table};

fn sample_columns() -> Vec<Column> {
    vec![
        Column {
            name: "id".to_string(),
            column_type: "number".to_string(),
            length: Some(10),
            decimal_places: None,
            is_nullable: false,
            is_pkey: true,
            ref_table: None,
            ref_column: None,
        },
        Column {
            name: "name".to_string(),
            column_type: "varchar".to_string(),
            length: Some(255),
            decimal_places: None,
            is_nullable: true,
            is_pkey: false,
            ref_table: None,
            ref_column: None,
        },
    ]
}

#[test]
fn test_table_init() {
    let columns = sample_columns();
    let table = Table::init("test_table".to_string(), columns);
    assert_eq!(table.name, "test_table");
    assert_eq!(table.columns.len(), 2);
}

#[test]
fn test_table_init_via_sql() {
    let sql = "create table test_table (id number(10) primary key, name varchar(255))";
    let table = Table::init_via_sql(sql).unwrap();
    assert_eq!(table.name, "test_table");
    assert_eq!(table.columns.len(), 2);
    assert_eq!(table.columns[0].name, "id");
    assert_eq!(table.columns[1].name, "name");
}

#[test]
fn test_generate_create_table() {
    let columns = sample_columns();
    let table = Table::init("test_table".to_string(), columns);
    let sql = table.generate(SqlType::CreateTable);
    assert_eq!(
        sql,
        "CREATE TABLE test_table (id number(10) NOT NULL PRIMARY KEY, name varchar(255));"
    );
}

#[test]
fn test_add_column_and_comment() {
    let mut table = Table::init("t".to_string(), Vec::new());
    assert_eq!(table.columns.len(), 0);
    table.add_column(Column {
        name: "a".to_string(),
        column_type: "int".to_string(),
        length: None,
        decimal_places: None,
        is_nullable: true,
        is_pkey: false,
        ref_table: None,
        ref_column: None,
    });
    assert_eq!(table.columns.len(), 1);
    assert_eq!(table.columns[0].name, "a");
    assert!(table.comment.is_none());
    table.set_comment(Some("orders fact table".to_string()));
    assert_eq!(table.comment.as_deref(), Some("orders fact table"));
    table.set_comment(None);
    assert!(table.comment.is_none());
}
