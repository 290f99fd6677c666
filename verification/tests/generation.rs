use cassandra_macro::names::pascal_case_to_snake_case;
use cassandra_macro::queries::Projection;
use cassandra_macro::schema::TableMeta;

/// A two-column table `ks.t`: primary key `a` of type TEXT, plain
/// column `b` of type int.
fn simple_table() -> TableMeta {
    let mut meta = TableMeta::with_name(&String::from("t"));
    meta.set_key_space(&String::from("ks"));
    meta.new_column(&String::from("a"), &String::from("TEXT"));
    meta.new_column(&String::from("b"), &String::from("int"));
    meta.new_primary_key(&String::from("a"), None);
    meta
}

/// The schema of the walkthrough: table `user_account` in keyspace
/// `test`, primary key `username`, clustering key `created` ascending,
/// and a plain column `first_name`.
fn user_account_table() -> TableMeta {
    let name = pascal_case_to_snake_case(&String::from("UserAccount"));
    let mut meta = TableMeta::with_name(&name);
    meta.set_key_space(&String::from("test"));
    meta.new_column(&String::from("username"), &String::from("TEXT"));
    meta.new_column(&String::from("created"), &String::from("TIMESTAMP"));
    meta.new_column(&String::from("first_name"), &String::from("TEXT"));
    meta.new_primary_key(&String::from("username"), None);
    meta.new_cluster_key(&String::from("created"), &String::from("ASC"), Some(1));
    meta
}

#[test]
fn getters_return_what_was_set() {
    let meta = simple_table();
    assert_eq!(meta.table_name(), &String::from("t"));
    assert_eq!(meta.key_space(), &String::from("ks"));
}

#[test]
fn drop_table_statement() {
    let meta = simple_table();
    assert_eq!(meta.drop_table_cql(), String::from("DROP TABLE IF EXISTS ks.t"));
}

#[test]
fn select_templates_without_cluster_keys_are_identical() {
    let meta = simple_table();
    let by_key = meta.select_by_key();
    assert_eq!(by_key, String::from("SELECT * FROM ks.t WHERE  a=? "));
    assert_eq!(meta.select_by_keys(), by_key);
}

#[test]
fn select_template_extends_by_cluster_keys() {
    let meta = user_account_table();
    let by_key = meta.select_by_key();
    let by_keys = meta.select_by_keys();
    assert_eq!(by_keys, format!("{} AND  created=? ", by_key));
}

#[test]
fn update_and_delete_templates() {
    let meta = simple_table();
    assert_eq!(meta.update_by_key(), String::from("UPDATE ks.t SET :columns WHERE  a=? "));
    assert_eq!(meta.update_by_keys(), meta.update_by_key());
    assert_eq!(meta.delete_by_key(), String::from("DELETE FROM ks.t WHERE  a=? "));
    assert_eq!(meta.delete_by_keys(), meta.delete_by_key());
    assert_eq!(meta.delete_by_primary_keys(), meta.delete_by_key());
    assert_eq!(meta.delete_by_primary_and_cluster_keys(), meta.delete_by_keys());
}

#[test]
fn create_table_without_cluster_keys_has_flat_primary_key_clause() {
    let meta = simple_table();
    let cql = meta.create_table_cql();
    assert_eq!(
        cql,
        String::from("CREATE TABLE IF NOT EXISTS ks.t  (a TEXT,b INT, PRIMARY KEY (a) ) ")
    );
    assert!(cql.contains("PRIMARY KEY (a)"));
    assert!(!cql.contains("PRIMARY KEY (("));
}

#[test]
fn create_table_with_two_primary_keys_joins_them_in_position_order() {
    let mut meta = TableMeta::with_name(&String::from("t"));
    meta.set_key_space(&String::from("ks"));
    meta.new_column(&String::from("p1"), &String::from("TEXT"));
    meta.new_column(&String::from("p2"), &String::from("TEXT"));
    meta.new_primary_key(&String::from("p2"), Some(2));
    meta.new_primary_key(&String::from("p1"), Some(1));
    let cql = meta.create_table_cql();
    assert!(cql.contains("PRIMARY KEY (p1,p2)"));
}

#[test]
fn create_table_with_cluster_keys_has_composite_clause_and_order() {
    let meta = user_account_table();
    let cql = meta.create_table_cql();
    assert!(cql.contains("CREATE TABLE IF NOT EXISTS test.user_account"));
    assert!(cql.contains("PRIMARY KEY ((username), created)"));
    assert!(cql.contains("WITH CLUSTERING ORDER BY (created ASC)"));
}

#[test]
fn create_table_appends_option_clauses() {
    let mut meta = simple_table();
    meta.set_table_options(&String::from("x|y"));
    let cql = meta.create_table_cql();
    assert_eq!(
        cql,
        String::from("CREATE TABLE IF NOT EXISTS ks.t  (a TEXT,b INT, PRIMARY KEY (a) ) AND x AND y")
    );
}

#[test]
fn option_splitting_drops_empty_segments() {
    let mut meta = simple_table();
    meta.set_table_options(&String::from("|x||y|"));
    let cql = meta.create_table_cql();
    assert!(cql.ends_with("AND x AND y"));
}

#[test]
fn cluster_order_and_options_combine() {
    let mut meta = user_account_table();
    meta.set_table_options(&String::from("comment='Only for RUST users'"));
    let cql = meta.create_table_cql();
    assert!(cql.ends_with(
        "WITH CLUSTERING ORDER BY (created ASC) AND comment='Only for RUST users'"
    ));
}

#[test]
fn static_column_is_marked_and_type_upper_cased() {
    let mut meta = simple_table();
    meta.set_column_as_static(&String::from("b"));
    let cql = meta.create_table_cql();
    assert!(cql.contains("b INT STATIC"));
}

#[test]
fn column_registration_overwrites_type_in_place() {
    let mut meta = simple_table();
    meta.new_column(&String::from("a"), &String::from("uuid"));
    let cql = meta.create_table_cql();
    assert!(cql.contains("(a UUID,b INT,"));
}

#[test]
fn key_position_collision_keeps_last_registration() {
    let mut meta = TableMeta::with_name(&String::from("t"));
    meta.set_key_space(&String::from("ks"));
    meta.new_column(&String::from("x"), &String::from("TEXT"));
    meta.new_column(&String::from("y"), &String::from("TEXT"));
    meta.new_primary_key(&String::from("x"), Some(1));
    meta.new_primary_key(&String::from("y"), Some(1));
    assert_eq!(meta.select_by_key(), String::from("SELECT * FROM ks.t WHERE  y=? "));
}

#[test]
fn store_statement_and_binding_order() {
    let meta = simple_table();
    let stmt = meta.store_stmt();
    assert_eq!(stmt, String::from("INSERT INTO ks.t (a,b) VALUES (?,?)"));
    let values = meta.store_values();
    assert_eq!(values, vec![String::from("a"), String::from("b")]);
    assert_eq!(stmt.matches('?').count(), values.len());
}

#[test]
fn store_query_pairs_statement_with_bindings() {
    let meta = simple_table();
    let query = meta.store_query();
    assert_eq!(query.query(), &meta.store_stmt());
    assert_eq!(query.values(), &meta.store_values());
}

#[test]
fn delete_statement_binds_every_key_column() {
    let meta = user_account_table();
    let (stmt, values) = meta.delete_stmt();
    assert_eq!(stmt, String::from("DELETE FROM test.user_account WHERE username=? AND created=?"));
    assert_eq!(values, vec![String::from("username"), String::from("created")]);
    assert_eq!(stmt.matches('?').count(), values.len());
    let query = meta.delete_query();
    assert_eq!(query.query(), &stmt);
    assert_eq!(query.values(), &values);
}

#[test]
fn update_statement_sets_non_key_columns_and_binds_in_placeholder_order() {
    let meta = user_account_table();
    let (stmt, values) = meta.update_stmt().unwrap();
    assert_eq!(
        stmt,
        String::from("UPDATE test.user_account SET first_name=? WHERE username=? AND created=?")
    );
    assert_eq!(
        values,
        vec![String::from("first_name"), String::from("username"), String::from("created")]
    );
    assert_eq!(stmt.matches('?').count(), values.len());
}

#[test]
fn update_fails_when_every_column_is_a_key() {
    let mut meta = TableMeta::with_name(&String::from("t"));
    meta.set_key_space(&String::from("ks"));
    meta.new_column(&String::from("p"), &String::from("TEXT"));
    meta.new_column(&String::from("c"), &String::from("TIMESTAMP"));
    meta.new_primary_key(&String::from("p"), None);
    meta.new_cluster_key(&String::from("c"), &String::from("DESC"), None);
    assert!(meta.update_stmt().is_none());
    let err = meta.update_query().err().unwrap();
    assert_eq!(err.message(), &String::from("Table t does not have any updatable column"));
}

#[test]
fn update_query_carries_statement_and_bindings() {
    let meta = simple_table();
    let query = meta.update_query().unwrap();
    assert_eq!(query.query(), &String::from("UPDATE ks.t SET b=? WHERE a=?"));
    assert_eq!(query.values(), &vec![String::from("b"), String::from("a")]);
}

#[test]
fn projection_all_keeps_the_template() {
    let meta = simple_table();
    assert_eq!(meta.select_by_primary_keys(Projection::All), meta.select_by_key());
    assert_eq!(meta.select_by_primary_and_cluster_keys(Projection::All), meta.select_by_keys());
}

#[test]
fn projection_count_rewrites_the_star_exactly_once() {
    let meta = simple_table();
    let selected = meta.select_by_primary_keys(Projection::Count);
    assert_eq!(selected, String::from("SELECT count(*) as count FROM ks.t WHERE  a=? "));
    assert_eq!(selected.matches("count(*) as count").count(), 1);
    assert_eq!(selected.matches('*').count(), 1);
}

#[test]
fn projection_columns_rewrites_the_star_to_the_list() {
    let meta = simple_table();
    let selected = meta.select_by_primary_keys(Projection::Columns(vec![
        String::from("a"),
        String::from("b"),
    ]));
    assert_eq!(selected, String::from("SELECT a,b FROM ks.t WHERE  a=? "));
}

#[test]
fn generic_update_substitutes_chosen_columns() {
    let meta = simple_table();
    let stmt = meta.update_by_primary_keys(vec![String::from("b")]);
    assert_eq!(stmt, String::from("UPDATE ks.t SET  b=? WHERE  a=? "));
    let both = meta.update_by_primary_and_cluster_keys(vec![String::from("b"), String::from("x")]);
    assert_eq!(both, String::from("UPDATE ks.t SET  b=?, x=? WHERE  a=? "));
}

#[test]
fn end_to_end_user_account_walkthrough() {
    let meta = user_account_table();
    assert_eq!(meta.table_name(), &String::from("user_account"));
    let cql = meta.create_table_cql();
    assert!(cql.contains("CREATE TABLE IF NOT EXISTS test.user_account"));
    assert!(cql.contains("PRIMARY KEY ((username), created)"));
    assert!(cql.contains("WITH CLUSTERING ORDER BY (created ASC)"));
    assert_eq!(
        meta.select_by_primary_and_cluster_keys(Projection::All),
        String::from("SELECT * FROM test.user_account WHERE  username=?  AND  created=? ")
    );
}

#[test]
fn empty_schema_produces_incomplete_but_stable_output() {
    let mut meta = TableMeta::with_name(&String::from("t"));
    meta.set_key_space(&String::from("ks"));
    assert_eq!(
        meta.create_table_cql(),
        String::from("CREATE TABLE IF NOT EXISTS ks.t  (, PRIMARY KEY () ) ")
    );
    assert_eq!(meta.store_stmt(), String::from("INSERT INTO ks.t () VALUES ()"));
    assert_eq!(meta.store_values(), Vec::<String>::new());
}
