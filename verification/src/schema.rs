//! The columns and tables the database must have, and the statements that add what is missing.

use vstd::prelude::*;

use crate::text::str_eq;
use crate::unicode::{to_lowercase, unicode_lowercase};
use vstd::string::StringExecFns;

verus! {

/// A table whose columns are brought up to date.
#[derive(Clone, Copy, Debug, PartialEq, Eq, Structural)]
pub enum SchemaTable {
    Product,
    Order,
    OrderDetail,
    CashVoucher,
}

/// Column names and definitions, as text.
pub open spec fn column_views(cols: Seq<(&str, &str)>) -> Seq<(Seq<char>, Seq<char>)> {
    cols.map_values(|c: (&str, &str)| (c.0@, c.1@))
}

/// The columns that table `product` must have.
pub open spec fn product_columns_spec() -> Seq<(Seq<char>, Seq<char>)> {
    seq![
        ("code"@, "TEXT DEFAULT NULL"@),
        ("unit"@, "VARCHAR(20) DEFAULT 'Cái'"@),
        ("secondary_unit"@, "VARCHAR(20) DEFAULT NULL"@),
        ("multiplier"@, "FLOAT DEFAULT 1"@),
        ("cost_price"@, "FLOAT DEFAULT 0"@),
        ("sale_price"@, "FLOAT DEFAULT 0"@),
        ("stock"@, "FLOAT DEFAULT 0"@),
        ("expiry_date"@, "VARCHAR(50) DEFAULT NULL"@),
        ("active_ingredient"@, "VARCHAR(255) DEFAULT NULL"@),
        ("brand"@, "VARCHAR(100) DEFAULT NULL"@),
        ("is_combo"@, "BOOLEAN DEFAULT 0"@),
        ("is_active"@, "BOOLEAN DEFAULT 1"@),
        ("latest_audit"@, "DATETIME DEFAULT NULL"@),
        ("category_id"@, "INTEGER DEFAULT NULL"@),
        ("accounting_price"@, "FLOAT DEFAULT 0"@),
        ("accounting_stock"@, "FLOAT DEFAULT 0"@),
        ("latest_cost_price"@, "FLOAT DEFAULT 0"@),
        ("bulk_quantity"@, "FLOAT DEFAULT NULL"@),
        ("bulk_price"@, "FLOAT DEFAULT NULL"@),
        ("alias"@, "VARCHAR(100) DEFAULT NULL"@),
        ("min_stock"@, "FLOAT DEFAULT 0"@),
    ]
}

/// The columns that table `order` must have.
pub open spec fn order_columns_spec() -> Seq<(Seq<char>, Seq<char>)> {
    seq![
        ("display_id"@, "VARCHAR(50) DEFAULT NULL"@),
        ("status"@, "VARCHAR(20) DEFAULT 'Pending'"@),
        ("shipping_status"@, "VARCHAR(20) DEFAULT NULL"@),
        ("shipping_address"@, "VARCHAR(500) DEFAULT NULL"@),
        ("shipping_phone"@, "VARCHAR(50) DEFAULT NULL"@),
        ("delivery_date"@, "DATETIME DEFAULT NULL"@),
        ("cash_given"@, "FLOAT DEFAULT 0"@),
        ("amount_paid"@, "FLOAT DEFAULT 0"@),
        ("old_debt"@, "FLOAT DEFAULT 0"@),
        ("created_by"@, "VARCHAR(100) DEFAULT NULL"@),
        ("is_duplicate_checked"@, "BOOLEAN DEFAULT 0"@),
        ("is_consignment"@, "BOOLEAN DEFAULT 0"@),
        ("is_invoiced"@, "BOOLEAN DEFAULT 0"@),
        ("invoice_no"@, "VARCHAR(100) DEFAULT NULL"@),
        ("invoice_date"@, "DATETIME DEFAULT NULL"@),
        ("invoice_note"@, "VARCHAR(500) DEFAULT NULL"@),
    ]
}

/// The columns that table `order_detail` must have.
pub open spec fn od_columns_spec() -> Seq<(Seq<char>, Seq<char>)> {
    seq![
        ("product_name_override"@, "VARCHAR(200) DEFAULT NULL"@),
        ("shipped_quantity"@, "FLOAT DEFAULT 0"@),
        ("cost_price"@, "FLOAT DEFAULT NULL"@),
        ("is_invoiced"@, "BOOLEAN DEFAULT 0"@),
        ("invoiced_quantity"@, "FLOAT DEFAULT 0"@),
        ("invoice_no"@, "VARCHAR(100) DEFAULT NULL"@),
    ]
}

/// The columns that table `cash_voucher` must have.
pub open spec fn cv_columns_spec() -> Seq<(Seq<char>, Seq<char>)> {
    seq![
        ("source"@, "VARCHAR(50) DEFAULT 'manual'"@),
        ("order_id"@, "INTEGER DEFAULT NULL"@),
        ("type"@, "VARCHAR(50) DEFAULT 'Payment'"@),
    ]
}

/// The name a table goes by in statements.
pub open spec fn table_sql_name(t: SchemaTable) -> Seq<char> {
    match t {
        SchemaTable::Product => "product"@,
        SchemaTable::Order => "\"order\""@,
        SchemaTable::OrderDetail => "order_detail"@,
        SchemaTable::CashVoucher => "cash_voucher"@,
    }
}

/// The columns a table must have.
pub open spec fn wanted_columns(t: SchemaTable) -> Seq<(Seq<char>, Seq<char>)> {
    match t {
        SchemaTable::Product => product_columns_spec(),
        SchemaTable::Order => order_columns_spec(),
        SchemaTable::OrderDetail => od_columns_spec(),
        SchemaTable::CashVoucher => cv_columns_spec(),
    }
}

impl SchemaTable {
    /// The name the table goes by in statements.
    pub fn sql_name(&self) -> (s: &'static str)
        ensures
            s@ == table_sql_name(*self),
    {
        match self {
            SchemaTable::Product => "product",
            SchemaTable::Order => "\"order\"",
            SchemaTable::OrderDetail => "order_detail",
            SchemaTable::CashVoucher => "cash_voucher",
        }
    }

    /// The query that lists the table's columns.
    pub fn columns_query(&self) -> (s: &'static str)
        ensures
            s@ == "PRAGMA table_info("@ + table_sql_name(*self) + ")"@,
    {
        proof {
            reveal_strlit("PRAGMA table_info(");
            reveal_strlit(")");
            reveal_strlit("product");
            reveal_strlit("PRAGMA table_info(product)");
            reveal_strlit("\"order\"");
            reveal_strlit("PRAGMA table_info(\"order\")");
            reveal_strlit("order_detail");
            reveal_strlit("PRAGMA table_info(order_detail)");
            reveal_strlit("cash_voucher");
            reveal_strlit("PRAGMA table_info(cash_voucher)");
        }
        match self {
            SchemaTable::Product => "PRAGMA table_info(product)",
            SchemaTable::Order => "PRAGMA table_info(\"order\")",
            SchemaTable::OrderDetail => "PRAGMA table_info(order_detail)",
            SchemaTable::CashVoucher => "PRAGMA table_info(cash_voucher)",
        }
    }

    /// The columns the table must have, in the order they are added.
    pub fn columns(&self) -> (cols: Vec<(&'static str, &'static str)>)
        ensures
            column_views(cols@) == wanted_columns(*self),
    {
        let cols = match self {
            SchemaTable::Product => vec![
                ("code", "TEXT DEFAULT NULL"),
                ("unit", "VARCHAR(20) DEFAULT 'Cái'"),
                ("secondary_unit", "VARCHAR(20) DEFAULT NULL"),
                ("multiplier", "FLOAT DEFAULT 1"),
                ("cost_price", "FLOAT DEFAULT 0"),
                ("sale_price", "FLOAT DEFAULT 0"),
                ("stock", "FLOAT DEFAULT 0"),
                ("expiry_date", "VARCHAR(50) DEFAULT NULL"),
                ("active_ingredient", "VARCHAR(255) DEFAULT NULL"),
                ("brand", "VARCHAR(100) DEFAULT NULL"),
                ("is_combo", "BOOLEAN DEFAULT 0"),
                ("is_active", "BOOLEAN DEFAULT 1"),
                ("latest_audit", "DATETIME DEFAULT NULL"),
                ("category_id", "INTEGER DEFAULT NULL"),
                ("accounting_price", "FLOAT DEFAULT 0"),
                ("accounting_stock", "FLOAT DEFAULT 0"),
                ("latest_cost_price", "FLOAT DEFAULT 0"),
                ("bulk_quantity", "FLOAT DEFAULT NULL"),
                ("bulk_price", "FLOAT DEFAULT NULL"),
                ("alias", "VARCHAR(100) DEFAULT NULL"),
                ("min_stock", "FLOAT DEFAULT 0"),
            ],
            SchemaTable::Order => vec![
                ("display_id", "VARCHAR(50) DEFAULT NULL"),
                ("status", "VARCHAR(20) DEFAULT 'Pending'"),
                ("shipping_status", "VARCHAR(20) DEFAULT NULL"),
                ("shipping_address", "VARCHAR(500) DEFAULT NULL"),
                ("shipping_phone", "VARCHAR(50) DEFAULT NULL"),
                ("delivery_date", "DATETIME DEFAULT NULL"),
                ("cash_given", "FLOAT DEFAULT 0"),
                ("amount_paid", "FLOAT DEFAULT 0"),
                ("old_debt", "FLOAT DEFAULT 0"),
                ("created_by", "VARCHAR(100) DEFAULT NULL"),
                ("is_duplicate_checked", "BOOLEAN DEFAULT 0"),
                ("is_consignment", "BOOLEAN DEFAULT 0"),
                ("is_invoiced", "BOOLEAN DEFAULT 0"),
                ("invoice_no", "VARCHAR(100) DEFAULT NULL"),
                ("invoice_date", "DATETIME DEFAULT NULL"),
                ("invoice_note", "VARCHAR(500) DEFAULT NULL"),
            ],
            SchemaTable::OrderDetail => vec![
                ("product_name_override", "VARCHAR(200) DEFAULT NULL"),
                ("shipped_quantity", "FLOAT DEFAULT 0"),
                ("cost_price", "FLOAT DEFAULT NULL"),
                ("is_invoiced", "BOOLEAN DEFAULT 0"),
                ("invoiced_quantity", "FLOAT DEFAULT 0"),
                ("invoice_no", "VARCHAR(100) DEFAULT NULL"),
            ],
            SchemaTable::CashVoucher => vec![
                ("source", "VARCHAR(50) DEFAULT 'manual'"),
                ("order_id", "INTEGER DEFAULT NULL"),
                ("type", "VARCHAR(50) DEFAULT 'Payment'"),
            ],
        };
        proof {
            assert(column_views(cols@) =~= wanted_columns(*self));
        }
        cols
    }
}

/// The tables created when they are not there yet.
pub open spec fn created_tables() -> Seq<Seq<char>> {
    seq![
        "CREATE TABLE IF NOT EXISTS inventory_audit (
            id INTEGER PRIMARY KEY AUTOINCREMENT,
            date DATETIME DEFAULT CURRENT_TIMESTAMP,
            note TEXT,
            status VARCHAR(20) DEFAULT 'Completed'
        )"@,
        "CREATE TABLE IF NOT EXISTS inventory_audit_detail (
            id INTEGER PRIMARY KEY AUTOINCREMENT,
            audit_id INTEGER NOT NULL,
            product_id INTEGER NOT NULL,
            system_stock FLOAT DEFAULT 0,
            actual_stock FLOAT DEFAULT 0,
            discrepancy FLOAT DEFAULT 0,
            FOREIGN KEY (audit_id) REFERENCES inventory_audit(id) ON DELETE CASCADE
        )"@,
        "CREATE TABLE IF NOT EXISTS inventory_conversion (
            id INTEGER PRIMARY KEY AUTOINCREMENT,
            date DATETIME DEFAULT CURRENT_TIMESTAMP,
            source_product_id INTEGER NOT NULL,
            dest_product_id INTEGER NOT NULL,
            source_qty FLOAT NOT NULL,
            multiplier FLOAT NOT NULL,
            dest_qty_expected FLOAT NOT NULL,
            dest_qty_actual FLOAT NOT NULL,
            cost_price_at_conversion FLOAT DEFAULT NULL,
            user_id INTEGER DEFAULT NULL,
            note TEXT
        )"@,
    ]
}

/// The statements that create the audit and conversion tables when missing.
pub fn create_table_statements() -> (v: Vec<&'static str>)
    ensures
        v@.map_values(|s: &str| s@) == created_tables(),
{
    let v = vec![
        "CREATE TABLE IF NOT EXISTS inventory_audit (
            id INTEGER PRIMARY KEY AUTOINCREMENT,
            date DATETIME DEFAULT CURRENT_TIMESTAMP,
            note TEXT,
            status VARCHAR(20) DEFAULT 'Completed'
        )",
        "CREATE TABLE IF NOT EXISTS inventory_audit_detail (
            id INTEGER PRIMARY KEY AUTOINCREMENT,
            audit_id INTEGER NOT NULL,
            product_id INTEGER NOT NULL,
            system_stock FLOAT DEFAULT 0,
            actual_stock FLOAT DEFAULT 0,
            discrepancy FLOAT DEFAULT 0,
            FOREIGN KEY (audit_id) REFERENCES inventory_audit(id) ON DELETE CASCADE
        )",
        "CREATE TABLE IF NOT EXISTS inventory_conversion (
            id INTEGER PRIMARY KEY AUTOINCREMENT,
            date DATETIME DEFAULT CURRENT_TIMESTAMP,
            source_product_id INTEGER NOT NULL,
            dest_product_id INTEGER NOT NULL,
            source_qty FLOAT NOT NULL,
            multiplier FLOAT NOT NULL,
            dest_qty_expected FLOAT NOT NULL,
            dest_qty_actual FLOAT NOT NULL,
            cost_price_at_conversion FLOAT DEFAULT NULL,
            user_id INTEGER DEFAULT NULL,
            note TEXT
        )",
    ];
    proof {
        assert(v@.map_values(|s: &str| s@) =~= created_tables());
    }
    v
}

/// Whether a column listed by the database is the wanted column `name`
/// (names compare after lower-casing).
pub open spec fn column_present(existing: Seq<Seq<char>>, name: Seq<char>) -> bool {
    exists|k: int|
        0 <= k < existing.len() && #[trigger] unicode_lowercase(existing[k]) == unicode_lowercase(
            name,
        )
}

/// The statement that adds a column to a table.
pub open spec fn add_column_sql(table: Seq<char>, name: Seq<char>, definition: Seq<char>) -> Seq<char> {
    "ALTER TABLE "@ + table + " ADD COLUMN "@ + name + " "@ + definition
}

/// The statements that add the wanted columns missing from `existing`, in
/// the order the columns are wanted.
pub open spec fn migration_statements(
    table: Seq<char>,
    existing: Seq<Seq<char>>,
    wanted: Seq<(Seq<char>, Seq<char>)>,
) -> Seq<Seq<char>>
    decreases wanted.len(),
{
    if wanted.len() == 0 {
        Seq::empty()
    } else {
        let rest = migration_statements(table, existing, wanted.drop_last());
        let (name, definition) = wanted.last();
        if column_present(existing, name) {
            rest
        } else {
            rest.push(add_column_sql(table, name, definition))
        }
    }
}

/// The texts of a list of strings.
pub open spec fn string_views(v: Seq<String>) -> Seq<Seq<char>> {
    v.map_values(|s: String| s@)
}

/// Whether a (lower-cased) column name is among the (lower-cased) names
/// that the database lists.
pub fn name_listed(lowered: &Vec<String>, name: &str) -> (b: bool)
    ensures
        b == string_views(lowered@).contains(name@),
{
    let m = lowered.len();
    for k in 0..m
        invariant
            m == lowered@.len(),
            forall|t: int| 0 <= t < k ==> #[trigger] lowered@[t]@ != name@,
    {
        if str_eq(lowered[k].as_str(), name) {
            assert(string_views(lowered@)[k as int] == name@);
            return true;
        }
    }
    proof {
        assert forall|t: int| 0 <= t < m implies #[trigger] string_views(lowered@)[t] != name@ by {
            assert(string_views(lowered@)[t] == lowered@[t]@);
        }
    }
    false
}

/// The statements that bring `table` up to its wanted columns, given the
/// column names the database lists for it.
pub fn missing_column_statements(table: SchemaTable, existing: &Vec<String>) -> (stmts: Vec<String>)
    ensures
        string_views(stmts@) == migration_statements(
            table_sql_name(table),
            string_views(existing@),
            wanted_columns(table),
        ),
{
    let mut lowered: Vec<String> = Vec::new();
    let m = existing.len();
    for k in 0..m
        invariant
            m == existing@.len(),
            lowered@.len() == k,
            forall|t: int| 0 <= t < k ==> #[trigger] lowered@[t]@ == unicode_lowercase(existing@[t]@),
    {
        lowered.push(to_lowercase(existing[k].as_str()));
    }
    let wanted = table.columns();
    let sql_name = table.sql_name();
    let ghost ex = string_views(existing@);
    let ghost w = wanted_columns(table);
    let mut stmts: Vec<String> = Vec::new();
    let n = wanted.len();
    for i in 0..n
        invariant
            n == wanted@.len(),
            m == lowered@.len(),
            ex.len() == m,
            forall|t: int| 0 <= t < m ==> #[trigger] lowered@[t]@ == unicode_lowercase(ex[t]),
            column_views(wanted@) == w,
            sql_name@ == table_sql_name(table),
            string_views(stmts@) == migration_statements(sql_name@, ex, w.take(i as int)),
    {
        let (name, definition) = wanted[i];
        assert(w[i as int] == (name@, definition@));
        assert(w.take(i + 1).drop_last() =~= w.take(i as int));
        let wanted_lower = to_lowercase(name);
        let present = name_listed(&lowered, wanted_lower.as_str());
        proof {
            if present {
                let t = choose|t: int| 0 <= t < m && string_views(lowered@)[t] == wanted_lower@;
                assert(unicode_lowercase(ex[t]) == unicode_lowercase(name@));
            } else {
                assert forall|t: int| 0 <= t < m implies #[trigger] unicode_lowercase(ex[t])
                    != unicode_lowercase(name@) by {
                    assert(string_views(lowered@)[t] == lowered@[t]@);
                }
            }
        }
        if !present {
            let mut sql = "ALTER TABLE ".to_owned();
            sql.append(sql_name);
            sql.append(" ADD COLUMN ");
            sql.append(name);
            sql.append(" ");
            sql.append(definition);
            stmts.push(sql);
        }
        assert(string_views(stmts@) =~= migration_statements(sql_name@, ex, w.take(i + 1)));
    }
    assert(w.take(n as int) =~= w);
    stmts
}

/// Once the added columns are listed, there is nothing left to add: running
/// the migration again on the grown table gives no statement.
pub proof fn lemma_migration_idempotent(
    table: Seq<char>,
    existing: Seq<Seq<char>>,
    wanted: Seq<(Seq<char>, Seq<char>)>,
)
    ensures
        migration_statements(
            table,
            existing + wanted.map_values(|c: (Seq<char>, Seq<char>)| c.0),
            wanted,
        ).len() == 0,
{
    let names = wanted.map_values(|c: (Seq<char>, Seq<char>)| c.0);
    let grown = existing + names;
    assert forall|k: int| 0 <= k < wanted.len() implies column_present(
        grown,
        #[trigger] wanted[k].0,
    ) by {
        assert(grown[existing.len() + k] == names[k]);
        assert(unicode_lowercase(grown[existing.len() + k]) == unicode_lowercase(wanted[k].0));
    }
    lemma_migration_covered(table, grown, wanted);
}

proof fn lemma_migration_covered(
    table: Seq<char>,
    existing: Seq<Seq<char>>,
    wanted: Seq<(Seq<char>, Seq<char>)>,
)
    requires
        forall|k: int| 0 <= k < wanted.len() ==> column_present(existing, #[trigger] wanted[k].0),
    ensures
        migration_statements(table, existing, wanted).len() == 0,
    decreases wanted.len(),
{
    if wanted.len() > 0 {
        let w = wanted.drop_last();
        assert forall|k: int| 0 <= k < w.len() implies column_present(existing, #[trigger] w[k].0) by {
            assert(w[k] == wanted[k]);
        }
        lemma_migration_covered(table, existing, w);
        assert(column_present(existing, wanted[wanted.len() - 1].0));
    }
}

/// The wanted columns that `existing` lacks, in the order they are wanted.
pub open spec fn missing_columns(
    existing: Seq<Seq<char>>,
    wanted: Seq<(Seq<char>, Seq<char>)>,
) -> Seq<(Seq<char>, Seq<char>)>
    decreases wanted.len(),
{
    if wanted.len() == 0 {
        Seq::empty()
    } else {
        let rest = missing_columns(existing, wanted.drop_last());
        if column_present(existing, wanted.last().0) {
            rest
        } else {
            rest.push(wanted.last())
        }
    }
}

/// The migration statements add exactly the missing columns, one each, in
/// order.
pub proof fn lemma_migration_adds_missing(
    table: Seq<char>,
    existing: Seq<Seq<char>>,
    wanted: Seq<(Seq<char>, Seq<char>)>,
)
    ensures
        migration_statements(table, existing, wanted) == missing_columns(existing, wanted).map_values(
            |c: (Seq<char>, Seq<char>)| add_column_sql(table, c.0, c.1),
        ),
    decreases wanted.len(),
{
    if wanted.len() > 0 {
        lemma_migration_adds_missing(table, existing, wanted.drop_last());
        assert(migration_statements(table, existing, wanted) =~= missing_columns(
            existing,
            wanted,
        ).map_values(|c: (Seq<char>, Seq<char>)| add_column_sql(table, c.0, c.1)));
    } else {
        assert(migration_statements(table, existing, wanted) =~= missing_columns(
            existing,
            wanted,
        ).map_values(|c: (Seq<char>, Seq<char>)| add_column_sql(table, c.0, c.1)));
    }
}

proof fn lemma_missing_listed(
    existing: Seq<Seq<char>>,
    wanted: Seq<(Seq<char>, Seq<char>)>,
    k: int,
)
    requires
        0 <= k < wanted.len(),
        !column_present(existing, wanted[k].0),
    ensures
        missing_columns(existing, wanted).contains(wanted[k]),
    decreases wanted.len(),
{
    let rest = missing_columns(existing, wanted.drop_last());
    if k == wanted.len() - 1 {
        assert(missing_columns(existing, wanted).last() == wanted[k]);
    } else {
        assert(wanted.drop_last()[k] == wanted[k]);
        lemma_missing_listed(existing, wanted.drop_last(), k);
        let j = choose|j: int| 0 <= j < rest.len() && rest[j] == wanted[k];
        if !column_present(existing, wanted.last().0) {
            assert(rest.push(wanted.last())[j] == wanted[k]);
        }
    }
}

/// Running the migration twice adds nothing the second time: once the
/// columns that the first run added are listed beside those that were
/// there, every wanted column is present and no statement is left.
pub proof fn lemma_migration_second_run(
    table: Seq<char>,
    existing: Seq<Seq<char>>,
    wanted: Seq<(Seq<char>, Seq<char>)>,
)
    ensures
        migration_statements(
            table,
            existing + missing_columns(existing, wanted).map_values(
                |c: (Seq<char>, Seq<char>)| c.0,
            ),
            wanted,
        ).len() == 0,
{
    let added = missing_columns(existing, wanted);
    let names = added.map_values(|c: (Seq<char>, Seq<char>)| c.0);
    let grown = existing + names;
    assert forall|k: int| 0 <= k < wanted.len() implies column_present(
        grown,
        #[trigger] wanted[k].0,
    ) by {
        let name = wanted[k].0;
        if column_present(existing, name) {
            let t = choose|t: int|
                0 <= t < existing.len() && #[trigger] unicode_lowercase(existing[t])
                    == unicode_lowercase(name);
            assert(grown[t] == existing[t]);
        } else {
            lemma_missing_listed(existing, wanted, k);
            let j = choose|j: int| 0 <= j < added.len() && added[j] == wanted[k];
            assert(grown[existing.len() + j] == names[j]);
            assert(unicode_lowercase(grown[existing.len() + j]) == unicode_lowercase(name));
        }
    }
    lemma_migration_covered(table, grown, wanted);
}

/// The four tables go by their own names, `product`, `"order"` (quoted, as
/// `order` is an SQL keyword), `order_detail` and `cash_voucher`, no two
/// alike; the columns of each are read with `PRAGMA table_info(<name>)`.
pub proof fn lemma_table_names(t: SchemaTable, u: SchemaTable)
    ensures
        t == SchemaTable::Product ==> table_sql_name(t) == "product"@,
        t == SchemaTable::Order ==> table_sql_name(t) == "\"order\""@,
        t == SchemaTable::OrderDetail ==> table_sql_name(t) == "order_detail"@,
        t == SchemaTable::CashVoucher ==> table_sql_name(t) == "cash_voucher"@,
        t != u ==> table_sql_name(t) != table_sql_name(u),
{
    reveal_strlit("product");
    reveal_strlit("\"order\"");
    reveal_strlit("order_detail");
    reveal_strlit("cash_voucher");
    if t != u {
        let a = table_sql_name(t);
        let b = table_sql_name(u);
        if a.len() == b.len() {
            assert(a[0] != b[0]);
        }
    }
}

/// Every statement that brings a table up to date names that table: it
/// reads `ALTER TABLE <the table's name> ADD COLUMN `, so the order-detail
/// table's columns go to `order_detail` and to no other table.
pub proof fn lemma_statements_name_their_table(
    t: SchemaTable,
    existing: Seq<Seq<char>>,
    k: int,
)
    requires
        0 <= k < migration_statements(table_sql_name(t), existing, wanted_columns(t)).len(),
    ensures
        ({
            let stmt = migration_statements(table_sql_name(t), existing, wanted_columns(t))[k];
            let prefix = "ALTER TABLE "@ + table_sql_name(t) + " ADD COLUMN "@;
            &&& prefix.len() <= stmt.len()
            &&& stmt.subrange(0, prefix.len() as int) == prefix
        }),
        t == SchemaTable::OrderDetail ==> ({
            let stmt = migration_statements(table_sql_name(t), existing, wanted_columns(t))[k];
            let prefix = "ALTER TABLE order_detail "@;
            &&& prefix.len() <= stmt.len()
            &&& stmt.subrange(0, prefix.len() as int) == prefix
        }),
{
    let name = table_sql_name(t);
    let w = wanted_columns(t);
    lemma_migration_adds_missing(name, existing, w);
    let c = missing_columns(existing, w)[k];
    let stmt = migration_statements(name, existing, w)[k];
    assert(stmt == add_column_sql(name, c.0, c.1));
    let prefix = "ALTER TABLE "@ + name + " ADD COLUMN "@;
    assert(stmt =~= prefix + (c.0 + " "@ + c.1));
    assert(stmt.subrange(0, prefix.len() as int) =~= prefix);
    if t == SchemaTable::OrderDetail {
        lemma_table_names(t, t);
        reveal_strlit("ALTER TABLE ");
        reveal_strlit("order_detail");
        reveal_strlit("ALTER TABLE order_detail ");
        reveal_strlit(" ADD COLUMN ");
        let p2 = "ALTER TABLE order_detail "@;
        assert(p2 =~= prefix.subrange(0, p2.len() as int));
        assert(stmt.subrange(0, p2.len() as int) =~= p2);
    }
}

} // verus!
