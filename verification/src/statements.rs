//! Statement generation: from a [`TableMeta`] to the DDL strings and the
//! parameterized CRUD statement templates, each template paired — in its
//! per-instance form — with the ordered list of column names whose values
//! feed the `?` placeholders left to right.

use vstd::prelude::*;

use crate::schema::{TableMeta, TableMetaView};
use crate::text::{
    join_strings, lemma_count_char_absent, lemma_count_char_join_each, spec_count_char, spec_join,
    spec_upper, to_ascii_upper,
};

verus! {

/// The `WHERE` fragment over the given key names: ` k1=? AND k2=? ...`,
/// each comparison padded with spaces and joined by the bare word.
pub open spec fn spec_where_clause(names: Seq<Seq<char>>) -> Seq<char> {
    spec_join(names.map_values(|n: Seq<char>| " "@ + n + "=? "@), "AND"@)
}

/// The keyspace-qualified table name: `keyspace.table`.
pub open spec fn spec_qualified_name(v: TableMetaView) -> Seq<char> {
    v.key_space + "."@ + v.name
}

/// The select-by-primary-keys template, with its literal `*` projection
/// placeholder.
pub open spec fn spec_select_by_key(v: TableMetaView) -> Seq<char> {
    "SELECT * FROM "@ + spec_qualified_name(v) + " WHERE "@ + spec_where_clause(
        v.primary_key_names(),
    )
}

/// The select-by-primary-and-cluster-keys template: the primary-key
/// template, extended by the clustering-key comparisons when clustering
/// keys exist, and identical to it otherwise.
pub open spec fn spec_select_by_keys(v: TableMetaView) -> Seq<char> {
    if v.cluster_keys.len() == 0 {
        spec_select_by_key(v)
    } else {
        spec_select_by_key(v) + " AND "@ + spec_where_clause(v.cluster_key_names())
    }
}

/// The update-by-primary-keys template, with its `:columns` placeholder
/// for the caller-chosen assignment list.
pub open spec fn spec_update_by_key(v: TableMetaView) -> Seq<char> {
    "UPDATE "@ + spec_qualified_name(v) + " SET :columns WHERE "@ + spec_where_clause(
        v.primary_key_names(),
    )
}

/// The update-by-primary-and-cluster-keys template: the primary-key
/// template, extended by the clustering-key comparisons when clustering
/// keys exist, and identical to it otherwise.
pub open spec fn spec_update_by_keys(v: TableMetaView) -> Seq<char> {
    if v.cluster_keys.len() == 0 {
        spec_update_by_key(v)
    } else {
        spec_update_by_key(v) + " AND "@ + spec_where_clause(v.cluster_key_names())
    }
}

/// The delete-by-primary-keys template.
pub open spec fn spec_delete_by_key(v: TableMetaView) -> Seq<char> {
    "DELETE FROM "@ + spec_qualified_name(v) + " WHERE "@ + spec_where_clause(
        v.primary_key_names(),
    )
}

/// The delete-by-primary-and-cluster-keys template: the primary-key
/// template, extended by the clustering-key comparisons when clustering
/// keys exist, and identical to it otherwise.
pub open spec fn spec_delete_by_keys(v: TableMetaView) -> Seq<char> {
    if v.cluster_keys.len() == 0 {
        spec_delete_by_key(v)
    } else {
        spec_delete_by_key(v) + " AND "@ + spec_where_clause(v.cluster_key_names())
    }
}

/// The drop-table statement.
pub open spec fn spec_drop_table(v: TableMetaView) -> Seq<char> {
    "DROP TABLE IF EXISTS "@ + spec_qualified_name(v)
}

/// The `?` placeholders of an insert statement: one per column, joined
/// by commas.
pub open spec fn spec_bind_marks(n: nat) -> Seq<char> {
    spec_join(Seq::new(n, |i: int| "?"@), ","@)
}

/// The insert statement over every declared column, its placeholders in
/// the same order as the column-name list.
pub open spec fn spec_store_stmt(v: TableMetaView) -> Seq<char> {
    "INSERT INTO "@ + spec_qualified_name(v) + " ("@ + spec_join(v.column_names(), ","@) + ") VALUES ("@
        + spec_bind_marks(v.columns.len()) + ")"@
}

/// The insert binding order: the column names, exactly as emitted into
/// the statement's column list.
pub open spec fn spec_store_values(v: TableMetaView) -> Seq<Seq<char>> {
    v.column_names()
}

/// All key column names: the primary keys in position order, then the
/// clustering keys in position order.
pub open spec fn spec_key_names(v: TableMetaView) -> Seq<Seq<char>> {
    v.primary_key_names() + v.cluster_key_names()
}

/// The per-instance delete statement, bound over every key column.
pub open spec fn spec_delete_stmt(v: TableMetaView) -> Seq<char> {
    "DELETE FROM "@ + spec_qualified_name(v) + " WHERE "@ + spec_join(
        spec_key_names(v).map_values(|n: Seq<char>| n + "=?"@),
        " AND "@,
    )
}

/// The columns open to a per-instance update: the declared columns, in
/// declaration order, that are neither primary nor clustering keys.
pub open spec fn spec_updatable_columns(v: TableMetaView) -> Seq<Seq<char>> {
    v.column_names().filter(|n: Seq<char>| !v.is_key_column(n))
}

/// The per-instance update statement: every updatable column assigned,
/// keyed over every key column.
pub open spec fn spec_update_stmt(v: TableMetaView) -> Seq<char> {
    "UPDATE "@ + spec_qualified_name(v) + " SET "@ + spec_join(
        spec_updatable_columns(v).map_values(|n: Seq<char>| n + "=?"@),
        ","@,
    ) + " WHERE "@ + spec_join(spec_key_names(v).map_values(|n: Seq<char>| n + "=?"@), " AND "@)
}

/// The per-instance update binding order: the updatable columns first —
/// mirroring the `SET` clause — then every key column, mirroring the
/// `WHERE` clause.
pub open spec fn spec_update_values(v: TableMetaView) -> Seq<Seq<char>> {
    spec_updatable_columns(v) + spec_key_names(v)
}

impl TableMeta {
    /// The primary-key column names, in position order, as strings.
    fn primary_key_name_strings(&self) -> (r: Vec<String>)
        ensures
            r.deep_view() == self@.primary_key_names(),
    {
        let n = self.primary_keys.len();
        let mut r: Vec<String> = Vec::new();
        let mut i: usize = 0;
        while i < n
            invariant
                i <= n,
                n == self.primary_keys.len(),
                r@.len() == i,
                forall|j: int| 0 <= j < i ==> (#[trigger] r@[j])@ == self@.primary_keys[j].name,
            decreases n - i,
        {
            r.push(self.primary_keys[i].name.clone());
            i = i + 1;
        }
        proof {
            assert forall|j: int| 0 <= j < n implies r.deep_view()[j]
                == self@.primary_key_names()[j] by {
                assert(r.deep_view()[j] == r@[j]@);
            }
            assert(r.deep_view() =~= self@.primary_key_names());
        }
        r
    }

    /// The clustering-key column names, in position order, as strings.
    fn cluster_key_name_strings(&self) -> (r: Vec<String>)
        ensures
            r.deep_view() == self@.cluster_key_names(),
    {
        let n = self.cluster_keys.len();
        let mut r: Vec<String> = Vec::new();
        let mut i: usize = 0;
        while i < n
            invariant
                i <= n,
                n == self.cluster_keys.len(),
                r@.len() == i,
                forall|j: int| 0 <= j < i ==> (#[trigger] r@[j])@ == self@.cluster_keys[j].name,
            decreases n - i,
        {
            r.push(self.cluster_keys[i].name.clone());
            i = i + 1;
        }
        proof {
            assert forall|j: int| 0 <= j < n implies r.deep_view()[j]
                == self@.cluster_key_names()[j] by {
                assert(r.deep_view()[j] == r@[j]@);
            }
            assert(r.deep_view() =~= self@.cluster_key_names());
        }
        r
    }

    /// The declared column names, in declaration order, as strings.
    fn column_name_strings(&self) -> (r: Vec<String>)
        ensures
            r.deep_view() == self@.column_names(),
    {
        let n = self.columns.len();
        let mut r: Vec<String> = Vec::new();
        let mut i: usize = 0;
        while i < n
            invariant
                i <= n,
                n == self.columns.len(),
                r@.len() == i,
                forall|j: int| 0 <= j < i ==> (#[trigger] r@[j])@ == self@.columns[j].name,
            decreases n - i,
        {
            r.push(self.columns[i].name.clone());
            i = i + 1;
        }
        proof {
            assert forall|j: int| 0 <= j < n implies r.deep_view()[j]
                == self@.column_names()[j] by {
                assert(r.deep_view()[j] == r@[j]@);
            }
            assert(r.deep_view() =~= self@.column_names());
        }
        r
    }

    /// Appends the keyspace-qualified table name.
    fn append_qualified_name(&self, out: &mut String)
        ensures
            final(out)@ == old(out)@ + spec_qualified_name(self@),
    {
        out.append(self.key_space.as_str());
        out.append(".");
        out.append(self.name.as_str());
        proof {
            assert(out@ =~= old(out)@ + spec_qualified_name(self@));
        }
    }

    /// The `WHERE` fragment over the primary keys.
    fn primary_where_clause(&self) -> (r: String)
        ensures
            r@ == spec_where_clause(self@.primary_key_names()),
    {
        let names = self.primary_key_name_strings();
        let parts = spaced_eq_parts(&names);
        join_strings(&parts, "AND")
    }

    /// The `WHERE` fragment over the clustering keys.
    fn cluster_where_clause(&self) -> (r: String)
        ensures
            r@ == spec_where_clause(self@.cluster_key_names()),
    {
        let names = self.cluster_key_name_strings();
        let parts = spaced_eq_parts(&names);
        join_strings(&parts, "AND")
    }

    /// The select-by-primary-keys template, its projection a literal `*`.
    pub fn select_by_key(&self) -> (r: String)
        ensures
            r@ == spec_select_by_key(self@),
    {
        let mut r = String::new();
        r.append("SELECT * FROM ");
        self.append_qualified_name(&mut r);
        r.append(" WHERE ");
        let wh = self.primary_where_clause();
        r.append(wh.as_str());
        proof {
            assert(r@ =~= spec_select_by_key(self@));
        }
        r
    }

    /// The select template over primary and clustering keys; identical
    /// to the primary-key template when no clustering keys exist.
    pub fn select_by_keys(&self) -> (r: String)
        ensures
            r@ == spec_select_by_keys(self@),
    {
        let mut r = self.select_by_key();
        if self.cluster_keys.len() > 0 {
            r.append(" AND ");
            let wh = self.cluster_where_clause();
            r.append(wh.as_str());
            proof {
                assert(r@ =~= spec_select_by_keys(self@));
            }
        }
        r
    }

    /// The update-by-primary-keys template, its assignment list the
    /// `:columns` placeholder.
    pub fn update_by_key(&self) -> (r: String)
        ensures
            r@ == spec_update_by_key(self@),
    {
        let mut r = String::new();
        r.append("UPDATE ");
        self.append_qualified_name(&mut r);
        r.append(" SET :columns WHERE ");
        let wh = self.primary_where_clause();
        r.append(wh.as_str());
        proof {
            assert(r@ =~= spec_update_by_key(self@));
        }
        r
    }

    /// The update template over primary and clustering keys; identical
    /// to the primary-key template when no clustering keys exist.
    pub fn update_by_keys(&self) -> (r: String)
        ensures
            r@ == spec_update_by_keys(self@),
    {
        let mut r = self.update_by_key();
        if self.cluster_keys.len() > 0 {
            r.append(" AND ");
            let wh = self.cluster_where_clause();
            r.append(wh.as_str());
            proof {
                assert(r@ =~= spec_update_by_keys(self@));
            }
        }
        r
    }

    /// The delete-by-primary-keys template.
    pub fn delete_by_key(&self) -> (r: String)
        ensures
            r@ == spec_delete_by_key(self@),
    {
        let mut r = String::new();
        r.append("DELETE FROM ");
        self.append_qualified_name(&mut r);
        r.append(" WHERE ");
        let wh = self.primary_where_clause();
        r.append(wh.as_str());
        proof {
            assert(r@ =~= spec_delete_by_key(self@));
        }
        r
    }

    /// The delete template over primary and clustering keys; identical
    /// to the primary-key template when no clustering keys exist.
    pub fn delete_by_keys(&self) -> (r: String)
        ensures
            r@ == spec_delete_by_keys(self@),
    {
        let mut r = self.delete_by_key();
        if self.cluster_keys.len() > 0 {
            r.append(" AND ");
            let wh = self.cluster_where_clause();
            r.append(wh.as_str());
            proof {
                assert(r@ =~= spec_delete_by_keys(self@));
            }
        }
        r
    }

    /// The drop-table statement.
    pub fn drop_table_cql(&self) -> (r: String)
        ensures
            r@ == spec_drop_table(self@),
    {
        let mut r = String::new();
        r.append("DROP TABLE IF EXISTS ");
        self.append_qualified_name(&mut r);
        proof {
            assert(r@ =~= spec_drop_table(self@));
        }
        r
    }
}

/// One column definition of the DDL: the name, the upper-cased storage
/// type, and the ` STATIC` marker for a static column.
pub open spec fn spec_col_def(v: TableMetaView, c: crate::schema::ColumnView) -> Seq<char> {
    if v.is_static_column(c.name) {
        c.name + " "@ + spec_upper(c.col_type) + " STATIC"@
    } else {
        c.name + " "@ + spec_upper(c.col_type)
    }
}

/// The comma-joined column definitions, in declaration order.
pub open spec fn spec_column_defs(v: TableMetaView) -> Seq<char> {
    spec_join(v.columns.map_values(|c: crate::schema::ColumnView| spec_col_def(v, c)), ","@)
}

/// The comma-joined `name direction` pairs of the clustering order.
pub open spec fn spec_cluster_order(v: TableMetaView) -> Seq<char> {
    spec_join(
        v.cluster_keys.map_values(|k: crate::schema::ClusterKeyView| k.name + " "@ + k.order),
        ","@,
    )
}

/// The trailing options of the create statement: the clustering order
/// when clustering keys exist, and the caller's `|`-delimited option
/// clauses, each prefixed with `AND`.
pub open spec fn spec_options_fragment(v: TableMetaView) -> Seq<char> {
    let opts = crate::text::spec_split_nonempty(v.table_options, '|');
    if v.cluster_keys.len() > 0 {
        let base = "WITH CLUSTERING ORDER BY ("@ + spec_cluster_order(v) + ")"@;
        if opts.len() > 0 {
            base + " AND "@ + spec_join(opts, " AND "@)
        } else {
            base
        }
    } else {
        if opts.len() > 0 {
            "AND "@ + spec_join(opts, " AND "@)
        } else {
            Seq::empty()
        }
    }
}

/// The create-table statement: the column definitions, the primary-key
/// clause — composite-partition form when clustering keys exist — and
/// the trailing options.
pub open spec fn spec_create_table(v: TableMetaView) -> Seq<char> {
    let head = "CREATE TABLE IF NOT EXISTS "@ + spec_qualified_name(v) + " "@;
    if v.cluster_keys.len() > 0 {
        head + " ("@ + spec_column_defs(v) + ", PRIMARY KEY (("@ + spec_join(
            v.primary_key_names(),
            ","@,
        ) + "), "@ + spec_join(v.cluster_key_names(), ","@) + ") ) "@ + spec_options_fragment(v)
    } else {
        head + " ("@ + spec_column_defs(v) + ", PRIMARY KEY ("@ + spec_join(
            v.primary_key_names(),
            ","@,
        ) + ") ) "@ + spec_options_fragment(v)
    }
}

impl TableMeta {
    /// The column definitions of the DDL, one string per column.
    fn col_def_parts(&self) -> (r: Vec<String>)
        ensures
            r.deep_view() == self@.columns.map_values(
                |c: crate::schema::ColumnView| spec_col_def(self@, c),
            ),
    {
        let n = self.columns.len();
        let mut r: Vec<String> = Vec::new();
        let mut i: usize = 0;
        while i < n
            invariant
                i <= n,
                n == self.columns.len(),
                r@.len() == i,
                forall|j: int|
                    0 <= j < i ==> (#[trigger] r@[j])@ == spec_col_def(self@, self@.columns[j]),
            decreases n - i,
        {
            let column = &self.columns[i];
            let mut part = column.name.clone();
            part.append(" ");
            let upper = to_ascii_upper(column.col_type.as_str());
            part.append(upper.as_str());
            if contains_name(&self.static_columns, &column.name) {
                part.append(" STATIC");
                proof {
                    assert(part@ =~= spec_col_def(self@, self@.columns[i as int]));
                }
            } else {
                proof {
                    assert(part@ =~= spec_col_def(self@, self@.columns[i as int]));
                }
            }
            r.push(part);
            i = i + 1;
        }
        proof {
            assert forall|j: int| 0 <= j < n implies r.deep_view()[j]
                == self@.columns.map_values(
                |c: crate::schema::ColumnView| spec_col_def(self@, c),
            )[j] by {
                assert(r.deep_view()[j] == r@[j]@);
            }
            assert(r.deep_view() =~= self@.columns.map_values(
                |c: crate::schema::ColumnView| spec_col_def(self@, c),
            ));
        }
        r
    }

    /// The `name direction` pairs of the clustering order, one string
    /// per clustering key.
    fn cluster_order_parts(&self) -> (r: Vec<String>)
        ensures
            r.deep_view() == self@.cluster_keys.map_values(
                |k: crate::schema::ClusterKeyView| k.name + " "@ + k.order,
            ),
    {
        let n = self.cluster_keys.len();
        let mut r: Vec<String> = Vec::new();
        let mut i: usize = 0;
        while i < n
            invariant
                i <= n,
                n == self.cluster_keys.len(),
                r@.len() == i,
                forall|j: int|
                    0 <= j < i ==> (#[trigger] r@[j])@ == self@.cluster_keys[j].name + " "@
                        + self@.cluster_keys[j].order,
            decreases n - i,
        {
            let key = &self.cluster_keys[i];
            let mut part = key.name.clone();
            part.append(" ");
            part.append(key.order.as_str());
            proof {
                assert(part@ =~= self@.cluster_keys[i as int].name + " "@
                    + self@.cluster_keys[i as int].order);
            }
            r.push(part);
            i = i + 1;
        }
        proof {
            assert forall|j: int| 0 <= j < n implies r.deep_view()[j]
                == self@.cluster_keys.map_values(
                |k: crate::schema::ClusterKeyView| k.name + " "@ + k.order,
            )[j] by {
                assert(r.deep_view()[j] == r@[j]@);
            }
            assert(r.deep_view() =~= self@.cluster_keys.map_values(
                |k: crate::schema::ClusterKeyView| k.name + " "@ + k.order,
            ));
        }
        r
    }

    /// The trailing options of the create statement.
    fn options_fragment(&self) -> (r: String)
        ensures
            r@ == spec_options_fragment(self@),
    {
        let opts = crate::text::split_nonempty(self.table_options.as_str(), '|');
        let joined_opts = join_strings(&opts, " AND ");
        if self.cluster_keys.len() > 0 {
            let order_parts = self.cluster_order_parts();
            let order = join_strings(&order_parts, ",");
            let mut r = String::new();
            r.append("WITH CLUSTERING ORDER BY (");
            r.append(order.as_str());
            r.append(")");
            if opts.len() > 0 {
                r.append(" AND ");
                r.append(joined_opts.as_str());
            }
            proof {
                assert(r@ =~= spec_options_fragment(self@));
            }
            r
        } else {
            if opts.len() > 0 {
                let mut r = String::new();
                r.append("AND ");
                r.append(joined_opts.as_str());
                proof {
                    assert(r@ =~= spec_options_fragment(self@));
                }
                r
            } else {
                let r = String::new();
                proof {
                    assert(r@ =~= spec_options_fragment(self@));
                }
                r
            }
        }
    }

    /// The create-table statement: column definitions in declaration
    /// order, the primary-key clause in its simple or composite form,
    /// and the trailing options.
    pub fn create_table_cql(&self) -> (r: String)
        ensures
            r@ == spec_create_table(self@),
    {
        let col_parts = self.col_def_parts();
        let columns = join_strings(&col_parts, ",");
        let pk_names = self.primary_key_name_strings();
        let primary_keys = join_strings(&pk_names, ",");
        let options = self.options_fragment();
        let mut r = String::new();
        r.append("CREATE TABLE IF NOT EXISTS ");
        self.append_qualified_name(&mut r);
        r.append(" ");
        r.append(" (");
        r.append(columns.as_str());
        if self.cluster_keys.len() > 0 {
            let ck_names = self.cluster_key_name_strings();
            let c_keys = join_strings(&ck_names, ",");
            r.append(", PRIMARY KEY ((");
            r.append(primary_keys.as_str());
            r.append("), ");
            r.append(c_keys.as_str());
            r.append(") ) ");
            r.append(options.as_str());
            proof {
                assert(r@ =~= spec_create_table(self@));
            }
        } else {
            r.append(", PRIMARY KEY (");
            r.append(primary_keys.as_str());
            r.append(") ) ");
            r.append(options.as_str());
            proof {
                assert(r@ =~= spec_create_table(self@));
            }
        }
        r
    }

    /// The insert statement over every declared column.
    pub fn store_stmt(&self) -> (r: String)
        ensures
            r@ == spec_store_stmt(self@),
    {
        let names = self.column_name_strings();
        let fields = join_strings(&names, ",");
        let marks = bind_marks(self.columns.len());
        let mut r = String::new();
        r.append("INSERT INTO ");
        self.append_qualified_name(&mut r);
        r.append(" (");
        r.append(fields.as_str());
        r.append(") VALUES (");
        r.append(marks.as_str());
        r.append(")");
        proof {
            assert(r@ =~= spec_store_stmt(self@));
        }
        r
    }

    /// The insert binding order: the column names, in the order their
    /// placeholders appear.
    pub fn store_values(&self) -> (r: Vec<String>)
        ensures
            r.deep_view() == spec_store_values(self@),
    {
        self.column_name_strings()
    }

    /// All key column names as strings: primary keys first, then
    /// clustering keys, each group in position order.
    fn key_name_strings(&self) -> (r: Vec<String>)
        ensures
            r.deep_view() == spec_key_names(self@),
    {
        let mut r = self.primary_key_name_strings();
        let mut cks = self.cluster_key_name_strings();
        let ghost pk_names = r.deep_view();
        let ghost ck_names = cks.deep_view();
        r.append(&mut cks);
        proof {
            assert forall|j: int| 0 <= j < r@.len() implies r.deep_view()[j] == (pk_names
                + ck_names)[j] by {
                assert(r.deep_view()[j] == r@[j]@);
                if j < pk_names.len() {
                    assert(r@[j]@ == pk_names[j]);
                } else {
                    assert(r@[j]@ == ck_names[j - pk_names.len()]);
                }
            }
            assert(r.deep_view() =~= spec_key_names(self@));
        }
        r
    }

    /// The per-instance delete statement with its binding order: every
    /// key column, primary keys first.
    pub fn delete_stmt(&self) -> (r: (String, Vec<String>))
        ensures
            r.0@ == spec_delete_stmt(self@),
            r.1.deep_view() == spec_key_names(self@),
    {
        let keys = self.key_name_strings();
        let parts = eq_parts(&keys);
        let wh = join_strings(&parts, " AND ");
        let mut stmt = String::new();
        stmt.append("DELETE FROM ");
        self.append_qualified_name(&mut stmt);
        stmt.append(" WHERE ");
        stmt.append(wh.as_str());
        proof {
            assert(stmt@ =~= spec_delete_stmt(self@));
        }
        (stmt, keys)
    }

    /// The declared column names that are neither primary nor clustering
    /// keys, in declaration order, as strings.
    fn updatable_column_strings(&self) -> (r: Vec<String>)
        ensures
            r.deep_view() == spec_updatable_columns(self@),
    {
        let pks = self.primary_key_name_strings();
        let cks = self.cluster_key_name_strings();
        let n = self.columns.len();
        let mut r: Vec<String> = Vec::new();
        let mut i: usize = 0;
        proof {
            reveal(Seq::filter);
            assert(self@.column_names().take(0) =~= Seq::<Seq<char>>::empty());
            assert(r.deep_view() =~= self@.column_names().take(0).filter(
                |n: Seq<char>| !self@.is_key_column(n),
            ));
        }
        while i < n
            invariant
                i <= n,
                n == self.columns.len(),
                pks.deep_view() == self@.primary_key_names(),
                cks.deep_view() == self@.cluster_key_names(),
                r.deep_view() == self@.column_names().take(i as int).filter(
                    |n: Seq<char>| !self@.is_key_column(n),
                ),
            decreases n - i,
        {
            let name = &self.columns[i].name;
            let ghost prev = r.deep_view();
            let is_key = contains_name(&pks, name) || contains_name(&cks, name);
            if !is_key {
                r.push(name.clone());
            }
            proof {
                reveal(Seq::filter);
                let pred = |n: Seq<char>| !self@.is_key_column(n);
                let upto = self@.column_names().take(i + 1);
                assert(upto.drop_last() =~= self@.column_names().take(i as int));
                assert(upto.last() == self@.columns[i as int].name);
                assert(is_key == self@.is_key_column(name@));
                if !is_key {
                    assert(r.deep_view() =~= prev.push(name@));
                }
                assert(r.deep_view() =~= upto.filter(pred));
            }
            i = i + 1;
        }
        proof {
            assert(self@.column_names().take(n as int) =~= self@.column_names());
        }
        r
    }

    /// The per-instance update statement with its binding order, or
    /// nothing when every declared column is a key column: such a table
    /// has no updatable column.
    pub fn update_stmt(&self) -> (r: Option<(String, Vec<String>)>)
        ensures
            r is Some <==> spec_updatable_columns(self@).len() > 0,
            r matches Some(p) ==> p.0@ == spec_update_stmt(self@) && p.1.deep_view()
                == spec_update_values(self@),
    {
        let updatable = self.updatable_column_strings();
        if updatable.len() == 0 {
            return None;
        }
        let keys = self.key_name_strings();
        let set_parts = eq_parts(&updatable);
        let set_clause = join_strings(&set_parts, ",");
        let where_parts = eq_parts(&keys);
        let where_clause = join_strings(&where_parts, " AND ");
        let mut stmt = String::new();
        stmt.append("UPDATE ");
        self.append_qualified_name(&mut stmt);
        stmt.append(" SET ");
        stmt.append(set_clause.as_str());
        stmt.append(" WHERE ");
        stmt.append(where_clause.as_str());
        let ghost upd_names = updatable.deep_view();
        let ghost key_names = keys.deep_view();
        let mut values = updatable;
        let mut key_values = keys;
        values.append(&mut key_values);
        proof {
            assert(stmt@ =~= spec_update_stmt(self@));
            assert forall|j: int| 0 <= j < values@.len() implies values.deep_view()[j] == (upd_names
                + key_names)[j] by {
                assert(values.deep_view()[j] == values@[j]@);
                if j < upd_names.len() {
                    assert(values@[j]@ == upd_names[j]);
                } else {
                    assert(values@[j]@ == key_names[j - upd_names.len()]);
                }
            }
            assert(values.deep_view() =~= spec_update_values(self@));
        }
        Some((stmt, values))
    }
}

/// The `?` placeholders for the given column count, joined by commas.
fn bind_marks(n: usize) -> (r: String)
    ensures
        r@ == spec_bind_marks(n as nat),
{
    let mut r = String::new();
    let mut i: usize = 0;
    while i < n
        invariant
            i <= n,
            r@ == spec_join(Seq::new(i as nat, |k: int| "?"@), ","@),
        decreases n - i,
    {
        if i > 0 {
            r.append(",");
        }
        r.append("?");
        proof {
            crate::text::lemma_join_push(Seq::new(i as nat, |k: int| "?"@), ","@, "?"@);
            assert(Seq::new((i + 1) as nat, |k: int| "?"@) =~= Seq::new(
                i as nat,
                |k: int| "?"@,
            ).push("?"@));
        }
        i = i + 1;
    }
    r
}

/// Whether some name in the list equals the given one.
fn contains_name(names: &Vec<String>, name: &String) -> (b: bool)
    ensures
        b == names.deep_view().contains(name@),
{
    let n = names.len();
    let mut i: usize = 0;
    while i < n
        invariant
            i <= n,
            n == names.len(),
            forall|j: int| 0 <= j < i ==> (#[trigger] names.deep_view()[j]) != name@,
        decreases n - i,
    {
        if names[i] == *name {
            proof {
                assert(names.deep_view()[i as int] == name@);
            }
            return true;
        }
        i = i + 1;
    }
    proof {
        assert(!names.deep_view().contains(name@));
    }
    false
}

/// The select template over both key groups equals the primary-key
/// template followed by exactly the clustering-key comparisons — and is
/// textually identical to it when no clustering keys exist. The update
/// and delete families extend their primary-key templates the same way.
pub proof fn lemma_templates_extend_by_cluster_keys(v: TableMetaView)
    ensures
        v.cluster_keys.len() == 0 ==> spec_select_by_keys(v) == spec_select_by_key(v),
        v.cluster_keys.len() > 0 ==> spec_select_by_keys(v) == spec_select_by_key(v) + " AND "@
            + spec_where_clause(v.cluster_key_names()),
        v.cluster_keys.len() == 0 ==> spec_update_by_keys(v) == spec_update_by_key(v),
        v.cluster_keys.len() > 0 ==> spec_update_by_keys(v) == spec_update_by_key(v) + " AND "@
            + spec_where_clause(v.cluster_key_names()),
        v.cluster_keys.len() == 0 ==> spec_delete_by_keys(v) == spec_delete_by_key(v),
        v.cluster_keys.len() > 0 ==> spec_delete_by_keys(v) == spec_delete_by_key(v) + " AND "@
            + spec_where_clause(v.cluster_key_names()),
{
}

/// The create statement carries its primary-key clause as one contiguous
/// segment: `PRIMARY KEY (p1,...,pn)` without nested parentheses when no
/// clustering keys exist, and the composite-partition form
/// `PRIMARY KEY ((p1,...,pn), c1,...,cm)` when they do.
pub proof fn lemma_create_table_primary_key_clause(v: TableMetaView)
    ensures
        v.cluster_keys.len() == 0 ==> spec_create_table(v) == ("CREATE TABLE IF NOT EXISTS "@
            + spec_qualified_name(v) + " "@ + " ("@ + spec_column_defs(v) + ", "@) + (
        "PRIMARY KEY ("@ + spec_join(v.primary_key_names(), ","@) + ")"@) + (" ) "@
            + spec_options_fragment(v)),
        v.cluster_keys.len() > 0 ==> spec_create_table(v) == ("CREATE TABLE IF NOT EXISTS "@
            + spec_qualified_name(v) + " "@ + " ("@ + spec_column_defs(v) + ", "@) + (
        "PRIMARY KEY (("@ + spec_join(v.primary_key_names(), ","@) + "), "@ + spec_join(
            v.cluster_key_names(),
            ","@,
        ) + ")"@) + (" ) "@ + spec_options_fragment(v)),
{
    reveal_strlit(", PRIMARY KEY (");
    reveal_strlit(", PRIMARY KEY ((");
    reveal_strlit(", ");
    reveal_strlit("PRIMARY KEY (");
    reveal_strlit("PRIMARY KEY ((");
    reveal_strlit(") ) ");
    reveal_strlit(")");
    reveal_strlit(" ) ");
    assert(", PRIMARY KEY ("@ =~= ", "@ + "PRIMARY KEY ("@);
    assert(", PRIMARY KEY (("@ =~= ", "@ + "PRIMARY KEY (("@);
    assert(") ) "@ =~= ")"@ + " ) "@);
    if v.cluster_keys.len() == 0 {
        assert(spec_create_table(v) =~= ("CREATE TABLE IF NOT EXISTS "@ + spec_qualified_name(v)
            + " "@ + " ("@ + spec_column_defs(v) + ", "@) + ("PRIMARY KEY ("@ + spec_join(
            v.primary_key_names(),
            ","@,
        ) + ")"@) + (" ) "@ + spec_options_fragment(v)));
    } else {
        assert(spec_create_table(v) =~= ("CREATE TABLE IF NOT EXISTS "@ + spec_qualified_name(v)
            + " "@ + " ("@ + spec_column_defs(v) + ", "@) + ("PRIMARY KEY (("@ + spec_join(
            v.primary_key_names(),
            ","@,
        ) + "), "@ + spec_join(v.cluster_key_names(), ","@) + ")"@) + (" ) "@
            + spec_options_fragment(v)));
    }
}

/// The insert statement holds exactly one `?` placeholder per declared
/// column — provided no identifier itself holds one — and its binding
/// order is exactly the column-name list, so bindings and placeholders
/// agree in number and in order.
pub proof fn lemma_store_stmt_bindings(v: TableMetaView)
    requires
        !v.key_space.contains('?'),
        !v.name.contains('?'),
        forall|i: int| 0 <= i < v.columns.len() ==> !(#[trigger] v.columns[i]).name.contains('?'),
    ensures
        spec_count_char(spec_store_stmt(v), '?') == v.columns.len(),
        spec_store_values(v).len() == v.columns.len(),
        spec_store_values(v) == v.column_names(),
{
    broadcast use crate::text::lemma_count_char_concat;

    reveal_strlit("INSERT INTO ");
    reveal_strlit(".");
    reveal_strlit(" (");
    reveal_strlit(") VALUES (");
    reveal_strlit(")");
    reveal_strlit(",");
    reveal_strlit("?");
    assert(!"INSERT INTO "@.contains('?')) by {
        assert(forall|i: int| 0 <= i < "INSERT INTO "@.len() ==> "INSERT INTO "@[i] != '?');
    }
    lemma_count_char_absent("INSERT INTO "@, '?');
    lemma_count_char_absent("."@, '?');
    assert(!" ("@.contains('?')) by {
        assert(forall|i: int| 0 <= i < " ("@.len() ==> " ("@[i] != '?');
    }
    lemma_count_char_absent(" ("@, '?');
    assert(!") VALUES ("@.contains('?')) by {
        assert(forall|i: int| 0 <= i < ") VALUES ("@.len() ==> ") VALUES ("@[i] != '?');
    }
    lemma_count_char_absent(") VALUES ("@, '?');
    lemma_count_char_absent(")"@, '?');
    lemma_count_char_absent(","@, '?');
    lemma_count_char_absent(v.key_space, '?');
    lemma_count_char_absent(v.name, '?');
    assert forall|i: int| 0 <= i < v.column_names().len() implies spec_count_char(
        #[trigger] v.column_names()[i],
        '?',
    ) == 0 by {
        lemma_count_char_absent(v.columns[i].name, '?');
    }
    lemma_count_char_join_each(v.column_names(), ","@, '?', 0);
    assert(v.column_names().len() * 0 == 0) by (nonlinear_arith);
    let marks = Seq::new(v.columns.len(), |i: int| "?"@);
    assert("?"@[0] == '?');
    assert("?"@.drop_first() =~= Seq::<char>::empty());
    assert(spec_count_char("?"@.drop_first(), '?') == 0);
    assert(spec_count_char("?"@, '?') == 1);
    assert(forall|i: int| 0 <= i < marks.len() ==> spec_count_char(#[trigger] marks[i], '?') == 1);
    lemma_count_char_join_each(marks, ","@, '?', 1);
    assert(marks.len() * 1 == marks.len()) by (nonlinear_arith);
    assert(spec_count_char(spec_bind_marks(v.columns.len()), '?') == v.columns.len());
    assert(spec_count_char(spec_store_stmt(v), '?') == v.columns.len());
}

/// A filter keeps only elements of the original, so a character absent
/// from every element stays absent from every kept element.
proof fn lemma_filter_keeps_absence(s: Seq<Seq<char>>, pred: spec_fn(Seq<char>) -> bool, c: char)
    requires
        forall|i: int| 0 <= i < s.len() ==> !(#[trigger] s[i]).contains(c),
    ensures
        forall|i: int|
            0 <= i < s.filter(pred).len() ==> !(#[trigger] s.filter(pred)[i]).contains(c),
    decreases s.len(),
{
    reveal(Seq::filter);
    if s.len() > 0 {
        assert(forall|i: int| 0 <= i < s.drop_last().len() ==> s.drop_last()[i] == s[i]);
        lemma_filter_keeps_absence(s.drop_last(), pred, c);
        let out = s.filter(pred);
        let sub = s.drop_last().filter(pred);
        assert forall|i: int| 0 <= i < out.len() implies !(#[trigger] out[i]).contains(c) by {
            if pred(s.last()) {
                if i < out.len() - 1 {
                    assert(out[i] == sub[i]);
                } else {
                    assert(out[i] == s.last());
                }
            } else {
                assert(out[i] == sub[i]);
            }
        }
    }
}

/// Every comparison part `name=?` holds exactly one placeholder when the
/// names themselves hold none.
proof fn lemma_eq_parts_count(names: Seq<Seq<char>>, parts: Seq<Seq<char>>, c: char)
    requires
        c == '?',
        parts == names.map_values(|n: Seq<char>| n + "=?"@),
        forall|i: int| 0 <= i < names.len() ==> !(#[trigger] names[i]).contains(c),
    ensures
        forall|i: int| 0 <= i < parts.len() ==> spec_count_char(#[trigger] parts[i], c) == 1,
{
    broadcast use crate::text::lemma_count_char_concat;

    reveal_strlit("=?");
    assert("=?"@[0] == '=');
    assert(seq!['?'].drop_first() =~= Seq::<char>::empty());
    assert(spec_count_char(seq!['?'].drop_first(), c) == 0);
    assert(spec_count_char(seq!['?'], c) == 1);
    assert("=?"@.drop_first() =~= seq!['?']);
    assert(spec_count_char("=?"@, c) == 1);
    assert forall|i: int| 0 <= i < parts.len() implies spec_count_char(#[trigger] parts[i], c)
        == 1 by {
        assert(parts[i] == names[i] + "=?"@);
        lemma_count_char_absent(names[i], c);
    }
}

/// The per-instance update statement holds exactly one `?` placeholder
/// per binding — the updatable columns of the `SET` clause first, then
/// every key column of the `WHERE` clause — provided no identifier
/// itself holds one, so bindings and placeholders agree in number and
/// in order.
pub proof fn lemma_update_stmt_bindings(v: TableMetaView)
    requires
        !v.key_space.contains('?'),
        !v.name.contains('?'),
        forall|i: int| 0 <= i < v.columns.len() ==> !(#[trigger] v.columns[i]).name.contains('?'),
        forall|i: int|
            0 <= i < v.primary_keys.len() ==> !(#[trigger] v.primary_keys[i]).name.contains('?'),
        forall|i: int|
            0 <= i < v.cluster_keys.len() ==> !(#[trigger] v.cluster_keys[i]).name.contains('?'),
    ensures
        spec_count_char(spec_update_stmt(v), '?') == spec_update_values(v).len(),
        spec_update_values(v) == spec_updatable_columns(v) + spec_key_names(v),
{
    broadcast use crate::text::lemma_count_char_concat;

    reveal_strlit("UPDATE ");
    reveal_strlit(".");
    reveal_strlit(" SET ");
    reveal_strlit(" WHERE ");
    reveal_strlit(",");
    reveal_strlit(" AND ");
    assert(!"UPDATE "@.contains('?')) by {
        assert(forall|i: int| 0 <= i < "UPDATE "@.len() ==> "UPDATE "@[i] != '?');
    }
    lemma_count_char_absent("UPDATE "@, '?');
    lemma_count_char_absent("."@, '?');
    assert(!" SET "@.contains('?')) by {
        assert(forall|i: int| 0 <= i < " SET "@.len() ==> " SET "@[i] != '?');
    }
    lemma_count_char_absent(" SET "@, '?');
    assert(!" WHERE "@.contains('?')) by {
        assert(forall|i: int| 0 <= i < " WHERE "@.len() ==> " WHERE "@[i] != '?');
    }
    lemma_count_char_absent(" WHERE "@, '?');
    lemma_count_char_absent(","@, '?');
    assert(!" AND "@.contains('?')) by {
        assert(forall|i: int| 0 <= i < " AND "@.len() ==> " AND "@[i] != '?');
    }
    lemma_count_char_absent(" AND "@, '?');
    lemma_count_char_absent(v.key_space, '?');
    lemma_count_char_absent(v.name, '?');

    assert(forall|i: int|
        0 <= i < v.column_names().len() ==> !(#[trigger] v.column_names()[i]).contains('?'));
    lemma_filter_keeps_absence(v.column_names(), |n: Seq<char>| !v.is_key_column(n), '?');
    let updatable = spec_updatable_columns(v);
    lemma_eq_parts_count(updatable, updatable.map_values(|n: Seq<char>| n + "=?"@), '?');
    lemma_count_char_join_each(updatable.map_values(|n: Seq<char>| n + "=?"@), ","@, '?', 1);
    assert(updatable.map_values(|n: Seq<char>| n + "=?"@).len() * 1 == updatable.len())
        by (nonlinear_arith)
        requires
            updatable.map_values(|n: Seq<char>| n + "=?"@).len() == updatable.len(),
    ;

    let keys = spec_key_names(v);
    assert forall|i: int| 0 <= i < keys.len() implies !(#[trigger] keys[i]).contains('?') by {
        if i < v.primary_key_names().len() {
            assert(keys[i] == v.primary_keys[i].name);
        } else {
            assert(keys[i] == v.cluster_keys[i - v.primary_keys.len()].name);
        }
    }
    lemma_eq_parts_count(keys, keys.map_values(|n: Seq<char>| n + "=?"@), '?');
    lemma_count_char_join_each(keys.map_values(|n: Seq<char>| n + "=?"@), " AND "@, '?', 1);
    assert(keys.map_values(|n: Seq<char>| n + "=?"@).len() * 1 == keys.len()) by (nonlinear_arith)
        requires
            keys.map_values(|n: Seq<char>| n + "=?"@).len() == keys.len(),
    ;

    assert(spec_count_char(spec_update_stmt(v), '?') == updatable.len() + keys.len());
}

/// The per-instance delete statement holds exactly one `?` placeholder
/// per key binding — provided no identifier itself holds one — and its
/// binding order is exactly the key-name list, so bindings and
/// placeholders agree in number and in order.
pub proof fn lemma_delete_stmt_bindings(v: TableMetaView)
    requires
        !v.key_space.contains('?'),
        !v.name.contains('?'),
        forall|i: int|
            0 <= i < v.primary_keys.len() ==> !(#[trigger] v.primary_keys[i]).name.contains('?'),
        forall|i: int|
            0 <= i < v.cluster_keys.len() ==> !(#[trigger] v.cluster_keys[i]).name.contains('?'),
    ensures
        spec_count_char(spec_delete_stmt(v), '?') == spec_key_names(v).len(),
{
    broadcast use crate::text::lemma_count_char_concat;

    reveal_strlit("DELETE FROM ");
    reveal_strlit(".");
    reveal_strlit(" WHERE ");
    reveal_strlit(" AND ");
    assert(!"DELETE FROM "@.contains('?')) by {
        assert(forall|i: int| 0 <= i < "DELETE FROM "@.len() ==> "DELETE FROM "@[i] != '?');
    }
    lemma_count_char_absent("DELETE FROM "@, '?');
    lemma_count_char_absent("."@, '?');
    assert(!" WHERE "@.contains('?')) by {
        assert(forall|i: int| 0 <= i < " WHERE "@.len() ==> " WHERE "@[i] != '?');
    }
    lemma_count_char_absent(" WHERE "@, '?');
    assert(!" AND "@.contains('?')) by {
        assert(forall|i: int| 0 <= i < " AND "@.len() ==> " AND "@[i] != '?');
    }
    lemma_count_char_absent(" AND "@, '?');
    lemma_count_char_absent(v.key_space, '?');
    lemma_count_char_absent(v.name, '?');

    let keys = spec_key_names(v);
    assert forall|i: int| 0 <= i < keys.len() implies !(#[trigger] keys[i]).contains('?') by {
        if i < v.primary_key_names().len() {
            assert(keys[i] == v.primary_keys[i].name);
        } else {
            assert(keys[i] == v.cluster_keys[i - v.primary_keys.len()].name);
        }
    }
    lemma_eq_parts_count(keys, keys.map_values(|n: Seq<char>| n + "=?"@), '?');
    lemma_count_char_join_each(keys.map_values(|n: Seq<char>| n + "=?"@), " AND "@, '?', 1);
    assert(keys.map_values(|n: Seq<char>| n + "=?"@).len() * 1 == keys.len()) by (nonlinear_arith)
        requires
            keys.map_values(|n: Seq<char>| n + "=?"@).len() == keys.len(),
    ;
}

/// Update generation finds no updatable column exactly when every
/// declared column is a primary- or clustering-key column.
pub proof fn lemma_no_updatable_columns(v: TableMetaView)
    ensures
        (spec_updatable_columns(v).len() == 0) <==> (forall|i: int|
            0 <= i < v.columns.len() ==> v.is_key_column(#[trigger] v.columns[i].name)),
{
    let pred = |n: Seq<char>| !v.is_key_column(n);
    lemma_filter_empty(v.column_names(), pred);
    if spec_updatable_columns(v).len() == 0 {
        assert forall|i: int| 0 <= i < v.columns.len() implies v.is_key_column(
            #[trigger] v.columns[i].name,
        ) by {
            assert(v.column_names()[i] == v.columns[i].name);
            assert(!pred(v.column_names()[i]));
        }
    }
    if forall|i: int| 0 <= i < v.columns.len() ==> v.is_key_column(#[trigger] v.columns[i].name) {
        assert forall|i: int| 0 <= i < v.column_names().len() implies !pred(
            #[trigger] v.column_names()[i],
        ) by {
            assert(v.column_names()[i] == v.columns[i].name);
        }
        assert(spec_updatable_columns(v).len() == 0);
    }
}

/// A filter yields nothing exactly when no element satisfies the
/// predicate.
proof fn lemma_filter_empty(s: Seq<Seq<char>>, pred: spec_fn(Seq<char>) -> bool)
    ensures
        (s.filter(pred).len() == 0) <==> (forall|i: int| 0 <= i < s.len() ==> !pred(#[trigger] s[i])),
    decreases s.len(),
{
    reveal(Seq::filter);
    if s.len() > 0 {
        lemma_filter_empty(s.drop_last(), pred);
        assert(forall|i: int| 0 <= i < s.drop_last().len() ==> s.drop_last()[i] == s[i]);
        if s.filter(pred).len() == 0 {
            assert(!pred(s.last()));
        }
        if forall|i: int| 0 <= i < s.len() ==> !pred(#[trigger] s[i]) {
            assert(!pred(s.last()));
        }
    }
}

/// Each name decorated into a bare comparison: `name=?`.
fn eq_parts(names: &Vec<String>) -> (r: Vec<String>)
    ensures
        r.deep_view() == names.deep_view().map_values(|n: Seq<char>| n + "=?"@),
{
    let n = names.len();
    let mut r: Vec<String> = Vec::new();
    let mut i: usize = 0;
    while i < n
        invariant
            i <= n,
            n == names.len(),
            r@.len() == i,
            forall|j: int| 0 <= j < i ==> (#[trigger] r@[j])@ == names.deep_view()[j] + "=?"@,
        decreases n - i,
    {
        let mut part = names[i].clone();
        part.append("=?");
        r.push(part);
        i = i + 1;
    }
    proof {
        assert forall|j: int| 0 <= j < n implies r.deep_view()[j] == names.deep_view().map_values(
            |n: Seq<char>| n + "=?"@,
        )[j] by {
            assert(r.deep_view()[j] == r@[j]@);
        }
        assert(r.deep_view() =~= names.deep_view().map_values(|n: Seq<char>| n + "=?"@));
    }
    r
}

/// Each name decorated into a spaced comparison: ` name=? `.
fn spaced_eq_parts(names: &Vec<String>) -> (r: Vec<String>)
    ensures
        r.deep_view() == names.deep_view().map_values(|n: Seq<char>| " "@ + n + "=? "@),
{
    let n = names.len();
    let mut r: Vec<String> = Vec::new();
    let mut i: usize = 0;
    while i < n
        invariant
            i <= n,
            n == names.len(),
            r@.len() == i,
            forall|j: int|
                0 <= j < i ==> (#[trigger] r@[j])@ == " "@ + names.deep_view()[j] + "=? "@,
        decreases n - i,
    {
        let mut part = String::new();
        part.append(" ");
        part.append(names[i].as_str());
        part.append("=? ");
        proof {
            assert(part@ =~= " "@ + names.deep_view()[i as int] + "=? "@);
        }
        r.push(part);
        i = i + 1;
    }
    proof {
        assert forall|j: int| 0 <= j < n implies r.deep_view()[j] == names.deep_view().map_values(
            |n: Seq<char>| " "@ + n + "=? "@,
        )[j] by {
            assert(r.deep_view()[j] == r@[j]@);
        }
        assert(r.deep_view() =~= names.deep_view().map_values(|n: Seq<char>| " "@ + n + "=? "@));
    }
    r
}

} // verus!
