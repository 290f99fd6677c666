//! The schema model: one table's metadata — name, keyspace, free-form
//! options, columns with their declared storage types, the static-column
//! set, and the ordered primary and clustering keys.
//!
//! Columns keep their declaration order; registering a column under an
//! existing name overwrites its type in place. Primary and clustering
//! keys are kept ordered by their declared position, and a later
//! registration at an already-used position overwrites the earlier one.

use vstd::prelude::*;

verus! {

/// One declared column: its name and its storage type, the latter an
/// opaque string passed through to the generated DDL.
pub struct Column {
    pub name: String,
    pub col_type: String,
}

/// The mathematical value of a [`Column`].
pub struct ColumnView {
    pub name: Seq<char>,
    pub col_type: Seq<char>,
}

impl View for Column {
    type V = ColumnView;

    open spec fn view(&self) -> ColumnView {
        ColumnView { name: self.name@, col_type: self.col_type@ }
    }
}

impl DeepView for Column {
    type V = ColumnView;

    open spec fn deep_view(&self) -> ColumnView {
        self.view()
    }
}

/// One primary-key component: its 1-based position and the column name.
pub struct PrimaryKey {
    pub position: u8,
    pub name: String,
}

/// The mathematical value of a [`PrimaryKey`].
pub struct PrimaryKeyView {
    pub position: u8,
    pub name: Seq<char>,
}

impl View for PrimaryKey {
    type V = PrimaryKeyView;

    open spec fn view(&self) -> PrimaryKeyView {
        PrimaryKeyView { position: self.position, name: self.name@ }
    }
}

impl DeepView for PrimaryKey {
    type V = PrimaryKeyView;

    open spec fn deep_view(&self) -> PrimaryKeyView {
        self.view()
    }
}

/// One clustering-key component: its 1-based position, the column name,
/// and the sort direction (`ASC` or `DESC`).
pub struct ClusterKey {
    pub position: u8,
    pub name: String,
    pub order: String,
}

/// The mathematical value of a [`ClusterKey`].
pub struct ClusterKeyView {
    pub position: u8,
    pub name: Seq<char>,
    pub order: Seq<char>,
}

impl View for ClusterKey {
    type V = ClusterKeyView;

    open spec fn view(&self) -> ClusterKeyView {
        ClusterKeyView { position: self.position, name: self.name@, order: self.order@ }
    }
}

impl DeepView for ClusterKey {
    type V = ClusterKeyView;

    open spec fn deep_view(&self) -> ClusterKeyView {
        self.view()
    }
}

/// One table's metadata, built once through the registration methods and
/// then consumed immutably by the statement generators.
pub struct TableMeta {
    pub name: String,
    pub key_space: String,
    pub table_options: String,
    pub columns: Vec<Column>,
    pub static_columns: Vec<String>,
    pub primary_keys: Vec<PrimaryKey>,
    pub cluster_keys: Vec<ClusterKey>,
}

/// The mathematical value of a [`TableMeta`].
#[verifier::ext_equal]
pub struct TableMetaView {
    pub name: Seq<char>,
    pub key_space: Seq<char>,
    pub table_options: Seq<char>,
    pub columns: Seq<ColumnView>,
    pub static_columns: Seq<Seq<char>>,
    pub primary_keys: Seq<PrimaryKeyView>,
    pub cluster_keys: Seq<ClusterKeyView>,
}

impl View for TableMeta {
    type V = TableMetaView;

    open spec fn view(&self) -> TableMetaView {
        TableMetaView {
            name: self.name@,
            key_space: self.key_space@,
            table_options: self.table_options@,
            columns: self.columns.deep_view(),
            static_columns: self.static_columns.deep_view(),
            primary_keys: self.primary_keys.deep_view(),
            cluster_keys: self.cluster_keys.deep_view(),
        }
    }
}

impl TableMetaView {
    /// Well-formedness: column names are unique, and each key list is
    /// strictly ordered by declared position.
    pub open spec fn wf(self) -> bool {
        &&& forall|i: int, j: int|
            0 <= i < j < self.columns.len() ==> #[trigger] self.columns[i].name
                != #[trigger] self.columns[j].name
        &&& forall|i: int, j: int|
            0 <= i < j < self.primary_keys.len() ==> #[trigger] self.primary_keys[i].position
                < #[trigger] self.primary_keys[j].position
        &&& forall|i: int, j: int|
            0 <= i < j < self.cluster_keys.len() ==> #[trigger] self.cluster_keys[i].position
                < #[trigger] self.cluster_keys[j].position
    }

    /// The primary-key column names, in position order.
    pub open spec fn primary_key_names(self) -> Seq<Seq<char>> {
        self.primary_keys.map_values(|k: PrimaryKeyView| k.name)
    }

    /// The clustering-key column names, in position order.
    pub open spec fn cluster_key_names(self) -> Seq<Seq<char>> {
        self.cluster_keys.map_values(|k: ClusterKeyView| k.name)
    }

    /// The declared column names, in declaration order.
    pub open spec fn column_names(self) -> Seq<Seq<char>> {
        self.columns.map_values(|c: ColumnView| c.name)
    }

    /// Whether the name was registered as static.
    pub open spec fn is_static_column(self, name: Seq<char>) -> bool {
        self.static_columns.contains(name)
    }

    /// Whether the name belongs to a primary- or clustering-key column.
    pub open spec fn is_key_column(self, name: Seq<char>) -> bool {
        self.primary_key_names().contains(name) || self.cluster_key_names().contains(name)
    }
}

/// The column list after registering a column: a new name is appended,
/// an existing one keeps its place with the type overwritten.
pub open spec fn spec_upsert_column(
    cols: Seq<ColumnView>,
    name: Seq<char>,
    col_type: Seq<char>,
) -> Seq<ColumnView>
    decreases cols.len(),
{
    if cols.len() == 0 {
        seq![ColumnView { name, col_type }]
    } else if cols[0].name == name {
        seq![ColumnView { name, col_type }] + cols.drop_first()
    } else {
        seq![cols[0]] + spec_upsert_column(cols.drop_first(), name, col_type)
    }
}

/// Where the scan for an existing name stops determines the shape of
/// the registered column list: replacement in place, or an append.
proof fn lemma_upsert_column_at(cols: Seq<ColumnView>, name: Seq<char>, col_type: Seq<char>, k: int)
    requires
        0 <= k <= cols.len(),
        forall|i: int| 0 <= i < k ==> (#[trigger] cols[i]).name != name,
        k < cols.len() ==> cols[k].name == name,
    ensures
        k < cols.len() ==> spec_upsert_column(cols, name, col_type) == cols.take(k) + seq![
            ColumnView { name, col_type },
        ] + cols.skip(k + 1),
        k == cols.len() ==> spec_upsert_column(cols, name, col_type) == cols + seq![
            ColumnView { name, col_type },
        ],
    decreases cols.len(),
{
    let fresh = ColumnView { name, col_type };
    if cols.len() == 0 {
        assert(spec_upsert_column(cols, name, col_type) =~= cols + seq![fresh]);
    } else if k == 0 {
        assert(cols[0].name == name);
        assert(spec_upsert_column(cols, name, col_type) =~= cols.take(0) + seq![fresh] + cols.skip(
            1,
        ));
    } else {
        lemma_upsert_column_at(cols.drop_first(), name, col_type, k - 1);
        if k < cols.len() {
            assert(cols.drop_first().take(k - 1) =~= cols.take(k).drop_first());
            assert(cols.drop_first().skip(k) =~= cols.skip(k + 1));
            assert(spec_upsert_column(cols, name, col_type) =~= cols.take(k) + seq![fresh]
                + cols.skip(k + 1));
        } else {
            assert(cols.drop_first() + seq![fresh] =~= (cols + seq![fresh]).drop_first());
            assert(spec_upsert_column(cols, name, col_type) =~= cols + seq![fresh]);
        }
    }
}

/// Every name in the registered column list is either the new name or a
/// name that was already present.
proof fn lemma_upsert_column_names(cols: Seq<ColumnView>, name: Seq<char>, col_type: Seq<char>)
    ensures
        forall|m: int|
            0 <= m < spec_upsert_column(cols, name, col_type).len() ==> (#[trigger] spec_upsert_column(
                cols,
                name,
                col_type,
            )[m]).name == name || exists|i: int|
                0 <= i < cols.len() && (#[trigger] cols[i]).name == spec_upsert_column(
                    cols,
                    name,
                    col_type,
                )[m].name,
    decreases cols.len(),
{
    let up = spec_upsert_column(cols, name, col_type);
    if cols.len() == 0 {
    } else if cols[0].name == name {
        assert forall|m: int| 0 <= m < up.len() implies (#[trigger] up[m]).name == name || exists|
            i: int,
        | 0 <= i < cols.len() && (#[trigger] cols[i]).name == up[m].name by {
            if m > 0 {
                assert(cols[m].name == up[m].name);
            }
        }
    } else {
        lemma_upsert_column_names(cols.drop_first(), name, col_type);
        let sub = spec_upsert_column(cols.drop_first(), name, col_type);
        assert forall|m: int| 0 <= m < up.len() implies (#[trigger] up[m]).name == name || exists|
            i: int,
        | 0 <= i < cols.len() && (#[trigger] cols[i]).name == up[m].name by {
            if m == 0 {
                assert(cols[0].name == up[0].name);
            } else {
                assert(up[m] == sub[m - 1]);
                if sub[m - 1].name != name {
                    let i = choose|i: int|
                        0 <= i < cols.drop_first().len() && (#[trigger] cols.drop_first()[i]).name
                            == sub[m - 1].name;
                    assert(cols[i + 1].name == up[m].name);
                }
            }
        }
    }
}

/// Registering a column keeps the column names unique.
proof fn lemma_upsert_column_unique(cols: Seq<ColumnView>, name: Seq<char>, col_type: Seq<char>)
    requires
        forall|i: int, j: int|
            0 <= i < j < cols.len() ==> (#[trigger] cols[i]).name != (#[trigger] cols[j]).name,
    ensures
        forall|i: int, j: int|
            0 <= i < j < spec_upsert_column(cols, name, col_type).len() ==> (
            #[trigger] spec_upsert_column(cols, name, col_type)[i]).name != (
            #[trigger] spec_upsert_column(cols, name, col_type)[j]).name,
    decreases cols.len(),
{
    let up = spec_upsert_column(cols, name, col_type);
    if cols.len() == 0 {
    } else if cols[0].name == name {
        assert forall|i: int, j: int| 0 <= i < j < up.len() implies (#[trigger] up[i]).name != (
        #[trigger] up[j]).name by {
            assert(up[j] == cols[j]);
            if i > 0 {
                assert(up[i] == cols[i]);
            } else {
                assert(cols[0].name != cols[j].name);
            }
        }
    } else {
        assert(forall|i: int, j: int|
            0 <= i < j < cols.drop_first().len() ==> (#[trigger] cols.drop_first()[i]).name != (
            #[trigger] cols.drop_first()[j]).name);
        lemma_upsert_column_unique(cols.drop_first(), name, col_type);
        lemma_upsert_column_names(cols.drop_first(), name, col_type);
        let sub = spec_upsert_column(cols.drop_first(), name, col_type);
        assert forall|i: int, j: int| 0 <= i < j < up.len() implies (#[trigger] up[i]).name != (
        #[trigger] up[j]).name by {
            if i == 0 {
                assert(up[j] == sub[j - 1]);
                if sub[j - 1].name == name {
                    assert(cols[0].name != name);
                } else {
                    let m = choose|m: int|
                        0 <= m < cols.drop_first().len() && (#[trigger] cols.drop_first()[m]).name
                            == sub[j - 1].name;
                    assert(cols[0].name != cols[m + 1].name);
                }
            } else {
                assert(up[i] == sub[i - 1]);
                assert(up[j] == sub[j - 1]);
            }
        }
    }
}

/// A registration position: the declared one, or the default position 1
/// when none was declared.
pub open spec fn position_or_default(position: Option<u8>) -> u8 {
    match position {
        Some(p) => p,
        None => 1,
    }
}

/// The primary-key list after registering a component: inserted in
/// position order; a component already declared at the same position is
/// overwritten.
pub open spec fn spec_insert_primary_key(
    keys: Seq<PrimaryKeyView>,
    position: u8,
    name: Seq<char>,
) -> Seq<PrimaryKeyView>
    decreases keys.len(),
{
    let fresh = PrimaryKeyView { position, name };
    if keys.len() == 0 {
        seq![fresh]
    } else if keys[0].position < position {
        seq![keys[0]] + spec_insert_primary_key(keys.drop_first(), position, name)
    } else if keys[0].position == position {
        seq![fresh] + keys.drop_first()
    } else {
        seq![fresh] + keys
    }
}

/// Where the scan for the position stops determines the shape of the
/// registered key list: replacement in place, or an insertion.
proof fn lemma_insert_primary_key_at(
    keys: Seq<PrimaryKeyView>,
    position: u8,
    name: Seq<char>,
    k: int,
)
    requires
        0 <= k <= keys.len(),
        forall|i: int| 0 <= i < k ==> (#[trigger] keys[i]).position < position,
        k < keys.len() ==> keys[k].position >= position,
    ensures
        k < keys.len() && keys[k].position == position ==> spec_insert_primary_key(
            keys,
            position,
            name,
        ) == keys.take(k) + seq![PrimaryKeyView { position, name }] + keys.skip(k + 1),
        k < keys.len() && keys[k].position != position ==> spec_insert_primary_key(
            keys,
            position,
            name,
        ) == keys.take(k) + seq![PrimaryKeyView { position, name }] + keys.skip(k),
        k == keys.len() ==> spec_insert_primary_key(keys, position, name) == keys + seq![
            PrimaryKeyView { position, name },
        ],
    decreases keys.len(),
{
    let fresh = PrimaryKeyView { position, name };
    if keys.len() == 0 {
        assert(spec_insert_primary_key(keys, position, name) =~= keys + seq![fresh]);
    } else if k == 0 {
        if keys[0].position == position {
            assert(spec_insert_primary_key(keys, position, name) =~= keys.take(0) + seq![fresh]
                + keys.skip(1));
        } else {
            assert(keys[0].position > position);
            assert(spec_insert_primary_key(keys, position, name) =~= keys.take(0) + seq![fresh]
                + keys.skip(0));
        }
    } else {
        lemma_insert_primary_key_at(keys.drop_first(), position, name, k - 1);
        assert(keys.drop_first().take(k - 1) =~= keys.take(k).drop_first());
        if k < keys.len() {
            if keys[k].position == position {
                assert(keys.drop_first().skip(k) =~= keys.skip(k + 1));
                assert(spec_insert_primary_key(keys, position, name) =~= keys.take(k) + seq![fresh]
                    + keys.skip(k + 1));
            } else {
                assert(keys.drop_first().skip(k - 1) =~= keys.skip(k));
                assert(spec_insert_primary_key(keys, position, name) =~= keys.take(k) + seq![fresh]
                    + keys.skip(k));
            }
        } else {
            assert(keys.drop_first() + seq![fresh] =~= (keys + seq![fresh]).drop_first());
            assert(spec_insert_primary_key(keys, position, name) =~= keys + seq![fresh]);
        }
    }
}

/// The clustering-key list after registering a component: inserted in
/// position order; a component already declared at the same position is
/// overwritten.
pub open spec fn spec_insert_cluster_key(
    keys: Seq<ClusterKeyView>,
    position: u8,
    name: Seq<char>,
    order: Seq<char>,
) -> Seq<ClusterKeyView>
    decreases keys.len(),
{
    let fresh = ClusterKeyView { position, name, order };
    if keys.len() == 0 {
        seq![fresh]
    } else if keys[0].position < position {
        seq![keys[0]] + spec_insert_cluster_key(keys.drop_first(), position, name, order)
    } else if keys[0].position == position {
        seq![fresh] + keys.drop_first()
    } else {
        seq![fresh] + keys
    }
}

/// Where the scan for the position stops determines the shape of the
/// registered key list: replacement in place, or an insertion.
proof fn lemma_insert_cluster_key_at(
    keys: Seq<ClusterKeyView>,
    position: u8,
    name: Seq<char>,
    order: Seq<char>,
    k: int,
)
    requires
        0 <= k <= keys.len(),
        forall|i: int| 0 <= i < k ==> (#[trigger] keys[i]).position < position,
        k < keys.len() ==> keys[k].position >= position,
    ensures
        k < keys.len() && keys[k].position == position ==> spec_insert_cluster_key(
            keys,
            position,
            name,
            order,
        ) == keys.take(k) + seq![ClusterKeyView { position, name, order }] + keys.skip(k + 1),
        k < keys.len() && keys[k].position != position ==> spec_insert_cluster_key(
            keys,
            position,
            name,
            order,
        ) == keys.take(k) + seq![ClusterKeyView { position, name, order }] + keys.skip(k),
        k == keys.len() ==> spec_insert_cluster_key(keys, position, name, order) == keys + seq![
            ClusterKeyView { position, name, order },
        ],
    decreases keys.len(),
{
    let fresh = ClusterKeyView { position, name, order };
    if keys.len() == 0 {
        assert(spec_insert_cluster_key(keys, position, name, order) =~= keys + seq![fresh]);
    } else if k == 0 {
        if keys[0].position == position {
            assert(spec_insert_cluster_key(keys, position, name, order) =~= keys.take(0)
                + seq![fresh] + keys.skip(1));
        } else {
            assert(keys[0].position > position);
            assert(spec_insert_cluster_key(keys, position, name, order) =~= keys.take(0)
                + seq![fresh] + keys.skip(0));
        }
    } else {
        lemma_insert_cluster_key_at(keys.drop_first(), position, name, order, k - 1);
        assert(keys.drop_first().take(k - 1) =~= keys.take(k).drop_first());
        if k < keys.len() {
            if keys[k].position == position {
                assert(keys.drop_first().skip(k) =~= keys.skip(k + 1));
                assert(spec_insert_cluster_key(keys, position, name, order) =~= keys.take(k)
                    + seq![fresh] + keys.skip(k + 1));
            } else {
                assert(keys.drop_first().skip(k - 1) =~= keys.skip(k));
                assert(spec_insert_cluster_key(keys, position, name, order) =~= keys.take(k)
                    + seq![fresh] + keys.skip(k));
            }
        } else {
            assert(keys.drop_first() + seq![fresh] =~= (keys + seq![fresh]).drop_first());
            assert(spec_insert_cluster_key(keys, position, name, order) =~= keys + seq![fresh]);
        }
    }
}

/// Registering a primary-key component keeps the list strictly ordered
/// by position.
proof fn lemma_insert_primary_key_sorted(
    keys: Seq<PrimaryKeyView>,
    position: u8,
    name: Seq<char>,
    k: int,
)
    requires
        forall|i: int, j: int|
            0 <= i < j < keys.len() ==> (#[trigger] keys[i]).position < (
            #[trigger] keys[j]).position,
        0 <= k <= keys.len(),
        forall|i: int| 0 <= i < k ==> (#[trigger] keys[i]).position < position,
        k < keys.len() ==> keys[k].position >= position,
    ensures
        forall|i: int, j: int|
            0 <= i < j < spec_insert_primary_key(keys, position, name).len() ==> (
            #[trigger] spec_insert_primary_key(keys, position, name)[i]).position < (
            #[trigger] spec_insert_primary_key(keys, position, name)[j]).position,
{
    lemma_insert_primary_key_at(keys, position, name, k);
    let up = spec_insert_primary_key(keys, position, name);
    assert forall|i: int, j: int| 0 <= i < j < up.len() implies (#[trigger] up[i]).position < (
    #[trigger] up[j]).position by {
        if k < keys.len() && keys[k].position == position {
            assert(i < k ==> up[i] == keys[i]);
            assert(i > k ==> up[i] == keys[i]);
            assert(j < k ==> up[j] == keys[j]);
            assert(j > k ==> up[j] == keys[j]);
        } else if k < keys.len() {
            assert(i < k ==> up[i] == keys[i]);
            assert(i > k ==> up[i] == keys[i - 1]);
            assert(j < k ==> up[j] == keys[j]);
            assert(j > k ==> up[j] == keys[j - 1]);
            assert(keys[k].position > position);
        } else {
            assert(i < k ==> up[i] == keys[i]);
            assert(j < k ==> up[j] == keys[j]);
        }
    }
}

/// Registering a clustering-key component keeps the list strictly
/// ordered by position.
proof fn lemma_insert_cluster_key_sorted(
    keys: Seq<ClusterKeyView>,
    position: u8,
    name: Seq<char>,
    order: Seq<char>,
    k: int,
)
    requires
        forall|i: int, j: int|
            0 <= i < j < keys.len() ==> (#[trigger] keys[i]).position < (
            #[trigger] keys[j]).position,
        0 <= k <= keys.len(),
        forall|i: int| 0 <= i < k ==> (#[trigger] keys[i]).position < position,
        k < keys.len() ==> keys[k].position >= position,
    ensures
        forall|i: int, j: int|
            0 <= i < j < spec_insert_cluster_key(keys, position, name, order).len() ==> (
            #[trigger] spec_insert_cluster_key(keys, position, name, order)[i]).position < (
            #[trigger] spec_insert_cluster_key(keys, position, name, order)[j]).position,
{
    lemma_insert_cluster_key_at(keys, position, name, order, k);
    let up = spec_insert_cluster_key(keys, position, name, order);
    assert forall|i: int, j: int| 0 <= i < j < up.len() implies (#[trigger] up[i]).position < (
    #[trigger] up[j]).position by {
        if k < keys.len() && keys[k].position == position {
            assert(i < k ==> up[i] == keys[i]);
            assert(i > k ==> up[i] == keys[i]);
            assert(j < k ==> up[j] == keys[j]);
            assert(j > k ==> up[j] == keys[j]);
        } else if k < keys.len() {
            assert(i < k ==> up[i] == keys[i]);
            assert(i > k ==> up[i] == keys[i - 1]);
            assert(j < k ==> up[j] == keys[j]);
            assert(j > k ==> up[j] == keys[j - 1]);
            assert(keys[k].position > position);
        } else {
            assert(i < k ==> up[i] == keys[i]);
            assert(j < k ==> up[j] == keys[j]);
        }
    }
}

impl TableMeta {
    /// A fresh, empty schema for a table of the given (already derived)
    /// name.
    pub fn with_name(name: &String) -> (t: TableMeta)
        ensures
            t@.name == name@,
            t@.key_space == Seq::<char>::empty(),
            t@.table_options == Seq::<char>::empty(),
            t@.columns == Seq::<ColumnView>::empty(),
            t@.static_columns == Seq::<Seq<char>>::empty(),
            t@.primary_keys == Seq::<PrimaryKeyView>::empty(),
            t@.cluster_keys == Seq::<ClusterKeyView>::empty(),
            t@.wf(),
    {
        let t = TableMeta {
            name: name.clone(),
            key_space: String::new(),
            table_options: String::new(),
            columns: Vec::new(),
            static_columns: Vec::new(),
            primary_keys: Vec::new(),
            cluster_keys: Vec::new(),
        };
        proof {
            assert(t@.columns =~= Seq::<ColumnView>::empty());
            assert(t@.static_columns =~= Seq::<Seq<char>>::empty());
            assert(t@.primary_keys =~= Seq::<PrimaryKeyView>::empty());
            assert(t@.cluster_keys =~= Seq::<ClusterKeyView>::empty());
        }
        t
    }

    /// Sets the keyspace; a plain overwrite, with no validation.
    pub fn set_key_space(&mut self, key_space: &String)
        ensures
            final(self)@ == (TableMetaView { key_space: key_space@, ..old(self)@ }),
    {
        self.key_space = key_space.clone();
    }

    /// Sets the `|`-delimited free-form table options; a plain
    /// overwrite, with no validation.
    pub fn set_table_options(&mut self, table_options: &String)
        ensures
            final(self)@ == (TableMetaView { table_options: table_options@, ..old(self)@ }),
    {
        self.table_options = table_options.clone();
    }

    /// The keyspace.
    pub fn key_space(&self) -> (r: &String)
        ensures
            r@ == self@.key_space,
    {
        &self.key_space
    }

    /// The table name.
    pub fn table_name(&self) -> (r: &String)
        ensures
            r@ == self@.name,
    {
        &self.name
    }

    /// The index of the column with this name, or the column count when
    /// no column carries it.
    fn find_column_index(&self, name: &String) -> (k: usize)
        ensures
            k <= self@.columns.len(),
            forall|i: int| 0 <= i < k ==> (#[trigger] self@.columns[i]).name != name@,
            k < self@.columns.len() ==> self@.columns[k as int].name == name@,
    {
        let n = self.columns.len();
        let mut k: usize = 0;
        while k < n
            invariant
                n == self.columns.len(),
                k <= n,
                forall|i: int| 0 <= i < k ==> (#[trigger] self@.columns[i]).name != name@,
            decreases n - k,
        {
            if self.columns[k].name == *name {
                return k;
            }
            k = k + 1;
        }
        k
    }

    /// Registers a column with its storage type. A column already
    /// registered under this name keeps its place and has its type
    /// overwritten; otherwise the column is appended.
    pub fn new_column(&mut self, name: &String, data_type: &String)
        ensures
            final(self)@ == (TableMetaView {
                columns: spec_upsert_column(old(self)@.columns, name@, data_type@),
                ..old(self)@
            }),
            old(self)@.wf() ==> final(self)@.wf(),
    {
        let fresh = Column { name: name.clone(), col_type: data_type.clone() };
        let ghost old_cols = self.columns.deep_view();
        let n = self.columns.len();
        let k = self.find_column_index(name);
        proof {
            lemma_upsert_column_at(old_cols, name@, data_type@, k as int);
            if old(self)@.wf() {
                lemma_upsert_column_unique(old_cols, name@, data_type@);
            }
        }
        if k < n {
            self.columns.remove(k);
            self.columns.insert(k, fresh);
            proof {
                assert(self.columns.deep_view() =~= old_cols.take(k as int) + seq![fresh@]
                    + old_cols.skip(k as int + 1));
                assert(self@ =~= (TableMetaView {
                    columns: spec_upsert_column(old(self)@.columns, name@, data_type@),
                    ..old(self)@
                }));
            }
        } else {
            self.columns.push(fresh);
            proof {
                assert(self.columns.deep_view() =~= old_cols + seq![fresh@]);
                assert(self@ =~= (TableMetaView {
                    columns: spec_upsert_column(old(self)@.columns, name@, data_type@),
                    ..old(self)@
                }));
            }
        }
    }

    /// The index of the first primary-key component at or past this
    /// position, or the component count when the position is largest.
    fn find_primary_key_index(&self, position: u8) -> (k: usize)
        ensures
            k <= self@.primary_keys.len(),
            forall|i: int| 0 <= i < k ==> (#[trigger] self@.primary_keys[i]).position < position,
            k < self@.primary_keys.len() ==> self@.primary_keys[k as int].position >= position,
    {
        let n = self.primary_keys.len();
        let mut k: usize = 0;
        while k < n
            invariant
                n == self.primary_keys.len(),
                k <= n,
                forall|i: int|
                    0 <= i < k ==> (#[trigger] self@.primary_keys[i]).position < position,
            decreases n - k,
        {
            if self.primary_keys[k].position >= position {
                return k;
            }
            k = k + 1;
        }
        k
    }

    /// Registers a primary-key component at its declared position, 1
    /// when unspecified. A component already declared at the same
    /// position is silently overwritten: the last registration wins.
    pub fn new_primary_key(&mut self, key: &String, position: Option<u8>)
        ensures
            final(self)@ == (TableMetaView {
                primary_keys: spec_insert_primary_key(
                    old(self)@.primary_keys,
                    position_or_default(position),
                    key@,
                ),
                ..old(self)@
            }),
            old(self)@.wf() ==> final(self)@.wf(),
    {
        let pos: u8 = match position {
            Some(p) => p,
            None => 1,
        };
        let fresh = PrimaryKey { position: pos, name: key.clone() };
        let ghost old_keys = self.primary_keys.deep_view();
        let n = self.primary_keys.len();
        let k = self.find_primary_key_index(pos);
        proof {
            lemma_insert_primary_key_at(old_keys, pos, key@, k as int);
        }
        if k < n && self.primary_keys[k].position == pos {
            self.primary_keys.remove(k);
            self.primary_keys.insert(k, fresh);
            proof {
                assert(self.primary_keys.deep_view() =~= old_keys.take(k as int) + seq![fresh@]
                    + old_keys.skip(k as int + 1));
            }
        } else {
            self.primary_keys.insert(k, fresh);
            proof {
                assert(self.primary_keys.deep_view() =~= old_keys.take(k as int) + seq![fresh@]
                    + old_keys.skip(k as int));
            }
        }
        proof {
            assert(self@ =~= (TableMetaView {
                primary_keys: spec_insert_primary_key(old(self)@.primary_keys, pos, key@),
                ..old(self)@
            }));
            if old(self)@.wf() {
                lemma_insert_primary_key_sorted(old_keys, pos, key@, k as int);
            }
        }
    }

    /// The index of the first clustering-key component at or past this
    /// position, or the component count when the position is largest.
    fn find_cluster_key_index(&self, position: u8) -> (k: usize)
        ensures
            k <= self@.cluster_keys.len(),
            forall|i: int| 0 <= i < k ==> (#[trigger] self@.cluster_keys[i]).position < position,
            k < self@.cluster_keys.len() ==> self@.cluster_keys[k as int].position >= position,
    {
        let n = self.cluster_keys.len();
        let mut k: usize = 0;
        while k < n
            invariant
                n == self.cluster_keys.len(),
                k <= n,
                forall|i: int|
                    0 <= i < k ==> (#[trigger] self@.cluster_keys[i]).position < position,
            decreases n - k,
        {
            if self.cluster_keys[k].position >= position {
                return k;
            }
            k = k + 1;
        }
        k
    }

    /// Registers a clustering-key component with its sort direction at
    /// its declared position, 1 when unspecified. A component already
    /// declared at the same position is silently overwritten: the last
    /// registration wins.
    pub fn new_cluster_key(&mut self, name: &String, order: &String, position: Option<u8>)
        ensures
            final(self)@ == (TableMetaView {
                cluster_keys: spec_insert_cluster_key(
                    old(self)@.cluster_keys,
                    position_or_default(position),
                    name@,
                    order@,
                ),
                ..old(self)@
            }),
            old(self)@.wf() ==> final(self)@.wf(),
    {
        let pos: u8 = match position {
            Some(p) => p,
            None => 1,
        };
        let fresh = ClusterKey { position: pos, name: name.clone(), order: order.clone() };
        let ghost old_keys = self.cluster_keys.deep_view();
        let n = self.cluster_keys.len();
        let k = self.find_cluster_key_index(pos);
        proof {
            lemma_insert_cluster_key_at(old_keys, pos, name@, order@, k as int);
        }
        if k < n && self.cluster_keys[k].position == pos {
            self.cluster_keys.remove(k);
            self.cluster_keys.insert(k, fresh);
            proof {
                assert(self.cluster_keys.deep_view() =~= old_keys.take(k as int) + seq![fresh@]
                    + old_keys.skip(k as int + 1));
            }
        } else {
            self.cluster_keys.insert(k, fresh);
            proof {
                assert(self.cluster_keys.deep_view() =~= old_keys.take(k as int) + seq![fresh@]
                    + old_keys.skip(k as int));
            }
        }
        proof {
            assert(self@ =~= (TableMetaView {
                cluster_keys: spec_insert_cluster_key(old(self)@.cluster_keys, pos, name@, order@),
                ..old(self)@
            }));
            if old(self)@.wf() {
                lemma_insert_cluster_key_sorted(old_keys, pos, name@, order@, k as int);
            }
        }
    }

    /// Marks a column name as static. Idempotence is not enforced: a
    /// repeated registration appends a duplicate, which is tolerated.
    pub fn set_column_as_static(&mut self, name: &String)
        ensures
            final(self)@ == (TableMetaView {
                static_columns: old(self)@.static_columns.push(name@),
                ..old(self)@
            }),
            old(self)@.wf() ==> final(self)@.wf(),
    {
        self.static_columns.push(name.clone());
        proof {
            assert(self.static_columns.deep_view() =~= old(self).static_columns.deep_view().push(
                name@,
            ));
        }
    }
}

} // verus!
