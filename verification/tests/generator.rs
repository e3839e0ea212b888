use sqlsynth::{Column, Date, Draw, SqlType, Table};

fn col(name: &str, ctype: &str, length: Option<i32>, dec: Option<i32>) -> Column {
    Column {
        name: name.to_string(),
        column_type: ctype.to_string(),
        length,
        decimal_places: dec,
        is_nullable: true,
        is_pkey: false,
        ref_table: None,
        ref_column: None,
    }
}

fn draw(op: u8, val: u8, picks: Vec<u8>, date_offset: u8) -> Draw {
    Draw { op, val, picks, date_offset }
}

fn orders() -> Table {
    Table::init_via_sql(
        "create table orders (order_id number(10) primary key, order_date date, customer_id number(10))",
    )
    .unwrap()
}

fn a_day() -> Date {
    Date { year: 2023, month: 5, day: 17 }
}

#[test]
fn create_table_from_parsed_schema() {
    let sql = orders().generate(SqlType::CreateTable);
    assert!(sql.starts_with("CREATE TABLE orders ("));
    assert!(sql.ends_with(");"));
    let body = &sql["CREATE TABLE orders (".len()..sql.len() - 2];
    let clauses: Vec<&str> = body.split(", ").collect();
    assert_eq!(clauses.len(), 3);
    assert_eq!(clauses[0], "order_id number(10) NOT NULL PRIMARY KEY");
    assert_eq!(clauses[1], "order_date date");
    assert_eq!(clauses[2], "customer_id number(10)");
}

#[test]
fn alter_table_adds_every_column() {
    let ds = vec![draw(0, 7, vec![0, 1], 0); 3];
    let sql = orders().generate_with(SqlType::AlterTable, &ds, a_day());
    assert_eq!(
        sql,
        "ALTER TABLE orders ADD COLUMN order_id number(10) NOT NULL PRIMARY KEY, ADD COLUMN order_date date, ADD COLUMN customer_id number(10);"
    );
}

#[test]
fn drop_table_names_the_table() {
    let ds: Vec<Draw> = Vec::new();
    let t = Table::init("orders".to_string(), Vec::new());
    assert_eq!(t.generate_with(SqlType::DropTable, &ds, a_day()), "DROP TABLE orders;");
}

#[test]
fn insert_synthesizes_one_value_per_column() {
    let ds = vec![draw(0, 7, vec![2, 0], 0); 3];
    let sql = orders().generate_with(SqlType::Insert, &ds, a_day());
    assert_eq!(
        sql,
        "INSERT INTO orders (order_id, order_date, customer_id) VALUES (7, to_date('2023-05-17','YYYY-MM-DD'), 7);"
    );
}

#[test]
fn select_renders_predicates_for_all_columns() {
    let ds = vec![
        draw(0, 7, vec![0, 1], 0),
        draw(1, 8, vec![0, 1], 0),
        draw(4, 99, vec![0, 1], 0),
    ];
    let sql = orders().generate_with(SqlType::Select, &ds, a_day());
    assert_eq!(
        sql,
        "SELECT order_id, order_date, customer_id FROM orders WHERE order_id = 7 AND order_date BETWEEN to_date('2021-01-01','YYYY-MM-DD') AND to_date('2023-05-17','YYYY-MM-DD') AND customer_id <= 99;"
    );
}

#[test]
fn update_assigns_and_filters() {
    let ds = vec![draw(2, 42, vec![1, 3], 1); 3];
    let sql = orders().generate_with(SqlType::Update, &ds, a_day());
    assert_eq!(
        sql,
        "UPDATE orders SET order_id = 42, order_date = to_date('2023-05-17','YYYY-MM-DD'), customer_id = 42 WHERE order_id < 42 AND order_date BETWEEN to_date('2021-01-02','YYYY-MM-DD') AND to_date('2023-05-17','YYYY-MM-DD') AND customer_id < 42;"
    );
}

#[test]
fn delete_filters_on_all_columns() {
    let t = Table::init("people".to_string(), vec![col("who", "varchar", Some(30), None)]);
    let ds = vec![draw(0, 7, vec![0, 1, 3], 0)];
    let sql = t.generate_with(SqlType::Delete, &ds, a_day());
    assert_eq!(sql, "DELETE FROM people WHERE who IN ('Alice', 'Bob', 'David');");
}

#[test]
fn decimal_places_shape_literals() {
    let t = Table::init("products".to_string(), vec![col("price", "number", Some(10), Some(2))]);
    let ds = vec![draw(0, 5, vec![0, 0], 0)];
    let sql = t.generate_with(SqlType::Insert, &ds, a_day());
    assert_eq!(sql, "INSERT INTO products (price) VALUES (0.05);");
    let t1 = Table::init("products".to_string(), vec![col("price", "number", Some(10), Some(1))]);
    let ds1 = vec![draw(0, 42, vec![0, 0], 0)];
    assert_eq!(
        t1.generate_with(SqlType::Insert, &ds1, a_day()),
        "INSERT INTO products (price) VALUES (4.2);"
    );
    let t0 = Table::init("products".to_string(), vec![col("price", "number", Some(10), Some(0))]);
    assert_eq!(
        t0.generate_with(SqlType::Insert, &ds1, a_day()),
        "INSERT INTO products (price) VALUES (42);"
    );
}

#[test]
fn predicate_numeric_values_are_plain_integers() {
    // Predicate synthesis uses a plain random integer even when the column
    // carries a decimal precision; only value synthesis is fixed-point.
    let t = Table::init("products".to_string(), vec![col("price", "number", Some(10), Some(2))]);
    let ds = vec![draw(0, 42, vec![0, 0], 0)];
    assert_eq!(t.generate_where_clause_with(&ds, a_day()), "price = 42");
}

#[test]
fn where_clause_skips_opaque_columns() {
    let t = Table::init(
        "t".to_string(),
        vec![col("payload", "blob", None, None), col("n", "int", None, None)],
    );
    let ds = vec![draw(3, 17, vec![0, 1], 0), draw(3, 17, vec![0, 1], 0)];
    assert_eq!(t.generate_where_clause_with(&ds, a_day()), "n >= 17");
}

#[test]
fn select_omits_where_when_every_column_is_opaque() {
    let t = Table::init("t".to_string(), vec![col("payload", "blob", None, None)]);
    let ds = vec![draw(0, 7, vec![0, 1], 0)];
    assert_eq!(t.generate_with(SqlType::Select, &ds, a_day()), "SELECT payload FROM t;");
    assert_eq!(t.generate_with(SqlType::Delete, &ds, a_day()), "DELETE FROM t;");
    assert_eq!(t.generate_where_clause_with(&ds, a_day()), "");
}

#[test]
fn between_range_stays_ordered_when_today_is_early() {
    let t = Table::init("t".to_string(), vec![col("d", "date", None, None)]);
    let ds = vec![draw(0, 7, vec![0, 1], 1)];
    let early = Date { year: 2020, month: 12, day: 31 };
    assert_eq!(
        t.generate_where_clause_with(&ds, early),
        "d BETWEEN to_date('2021-01-02','YYYY-MM-DD') AND to_date('2021-01-02','YYYY-MM-DD')"
    );
}

#[test]
fn rendering_is_deterministic_for_equal_draws() {
    let t = orders();
    let ds = vec![
        draw(1, 33, vec![3, 2, 1], 2),
        draw(2, 66, vec![0, 0], 0),
        draw(3, 99, vec![1, 1, 1, 1], 1),
    ];
    for kind in [
        SqlType::CreateTable,
        SqlType::AlterTable,
        SqlType::DropTable,
        SqlType::Insert,
        SqlType::Select,
        SqlType::Update,
        SqlType::Delete,
    ] {
        let first = t.generate_with(kind, &ds, a_day());
        let second = t.generate_with(kind, &ds, a_day());
        assert_eq!(first, second);
    }
}

#[test]
fn duplicate_last_name_suppresses_separators() {
    // The separator after a clause is dropped whenever the column bears the
    // same name as the table's last column.
    let t = Table::init(
        "t".to_string(),
        vec![col("a", "int", None, None), col("a", "text", None, None)],
    );
    assert_eq!(t.generate(SqlType::CreateTable), "CREATE TABLE t (a inta text);");
}

#[test]
fn randomized_predicate_stays_in_drawn_ranges() {
    let t = Table::init("t".to_string(), vec![col("n", "number", None, None)]);
    for _ in 0..50 {
        let clause = t.generate_where_clause();
        let rest = clause.strip_prefix("n ").expect("clause names the column");
        let (op, val) = rest.split_once(' ').expect("operator and value");
        assert!(["=", ">", "<", ">=", "<="].contains(&op));
        let v: u32 = val.parse().expect("integer literal");
        assert!((1..100).contains(&v));
    }
}

#[test]
fn randomized_in_list_draws_from_the_name_pool() {
    let t = Table::init("t".to_string(), vec![col("who", "text", None, None)]);
    for _ in 0..20 {
        let clause = t.generate_where_clause();
        let inner = clause
            .strip_prefix("who IN (")
            .and_then(|r| r.strip_suffix(")"))
            .expect("IN list");
        let names: Vec<&str> = inner.split(", ").collect();
        assert!(names.len() >= 2 && names.len() <= 10);
        for n in names {
            assert!(["'Alice'", "'Bob'", "'Charlie'", "'David'"].contains(&n));
        }
    }
}

#[test]
fn randomized_select_keeps_its_shape() {
    let t = orders();
    for _ in 0..25 {
        let sql = t.generate(SqlType::Select);
        assert!(sql.starts_with("SELECT order_id, order_date, customer_id FROM orders WHERE "));
        assert!(sql.ends_with(";"));
        // Two clause separators, plus the AND inside the BETWEEN range.
        assert_eq!(sql.matches(" AND ").count(), 3);
    }
}

#[test]
fn current_date_is_a_plausible_calendar_date() {
    let d = sqlsynth::dates::current_date();
    assert!((1..=9999).contains(&d.year));
    assert!((1..=12).contains(&d.month));
    assert!((1..=31).contains(&d.day));
}
