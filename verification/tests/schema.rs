use backend_rust::schema::{
    create_table_statements, missing_column_statements, name_listed, SchemaTable,
};

#[test]
fn missing_columns_are_added_in_order() {
    let existing: Vec<String> = vec!["id".into(), "Name".into(), "CODE".into(), "unit".into()];
    let stmts = missing_column_statements(SchemaTable::Product, &existing);
    assert_eq!(stmts.len(), 19);
    assert_eq!(stmts[0], "ALTER TABLE product ADD COLUMN secondary_unit VARCHAR(20) DEFAULT NULL");
    assert_eq!(stmts[18], "ALTER TABLE product ADD COLUMN min_stock FLOAT DEFAULT 0");
}

#[test]
fn the_order_table_is_quoted() {
    let stmts = missing_column_statements(SchemaTable::Order, &Vec::new());
    assert_eq!(stmts.len(), 16);
    assert_eq!(stmts[1], "ALTER TABLE \"order\" ADD COLUMN status VARCHAR(20) DEFAULT 'Pending'");
    assert_eq!(SchemaTable::Order.columns_query(), "PRAGMA table_info(\"order\")");
    assert_eq!(SchemaTable::CashVoucher.columns_query(), "PRAGMA table_info(cash_voucher)");
}

#[test]
fn a_complete_table_needs_nothing() {
    let names: Vec<String> = SchemaTable::OrderDetail.columns().iter().map(|c| c.0.to_uppercase()).collect();
    assert!(missing_column_statements(SchemaTable::OrderDetail, &names).is_empty());
    let cv: Vec<String> = SchemaTable::CashVoucher.columns().iter().map(|c| c.0.to_string()).collect();
    assert!(missing_column_statements(SchemaTable::CashVoucher, &cv).is_empty());
}

#[test]
fn unit_default_keeps_its_accent() {
    let stmts = missing_column_statements(SchemaTable::Product, &vec!["code".to_string()]);
    assert_eq!(stmts[0], "ALTER TABLE product ADD COLUMN unit VARCHAR(20) DEFAULT 'Cái'");
}

#[test]
fn three_tables_are_created_when_missing() {
    let v = create_table_statements();
    assert_eq!(v.len(), 3);
    assert!(v[0].starts_with("CREATE TABLE IF NOT EXISTS inventory_audit ("));
    assert!(v[1].contains("FOREIGN KEY (audit_id) REFERENCES inventory_audit(id) ON DELETE CASCADE"));
    assert!(v[2].starts_with("CREATE TABLE IF NOT EXISTS inventory_conversion ("));
}

#[test]
fn listed_names_match_exactly() {
    let lowered: Vec<String> = vec!["id".into(), "code".into()];
    assert!(name_listed(&lowered, "code"));
    assert!(!name_listed(&lowered, "Code"));
    assert!(!name_listed(&lowered, "unit"));
    assert!(!name_listed(&Vec::new(), "id"));
}

#[test]
fn a_second_migration_adds_nothing() {
    let existing: Vec<String> = vec!["ID".into(), "Code".into()];
    let first = missing_column_statements(SchemaTable::CashVoucher, &existing);
    assert_eq!(first.len(), 3);
    let mut grown = existing.clone();
    for stmt in &first {
        let name = stmt.split_whitespace().nth(5).unwrap().to_string();
        grown.push(name);
    }
    assert!(missing_column_statements(SchemaTable::CashVoucher, &grown).is_empty());
}
