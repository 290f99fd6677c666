//! The caller-facing query layer: projection substitution on the select
//! templates, assignment substitution on the update templates, and the
//! per-instance query objects that pair a statement with the ordered
//! binding list its placeholders expect.

use vstd::prelude::*;

use crate::schema::TableMeta;
use crate::statements::{
    spec_delete_by_key, spec_delete_by_keys, spec_delete_stmt, spec_key_names, spec_select_by_key,
    spec_select_by_keys, spec_store_stmt, spec_store_values, spec_update_by_key,
    spec_update_by_keys, spec_update_stmt, spec_update_values, spec_updatable_columns,
};
use crate::text::{join_strings, replace_all, spec_join, spec_replace};

verus! {

/// The column selection of a read query: a row count, every column, or
/// an explicit column list.
pub enum Projection {
    Count,
    All,
    Columns(Vec<String>),
}

/// What replaces the `*` placeholder of a select template.
pub open spec fn spec_projection_fragment(projection: Projection) -> Seq<char> {
    match projection {
        Projection::Count => "count(*) as count"@,
        Projection::All => "*"@,
        Projection::Columns(columns) => spec_join(columns.deep_view(), ","@),
    }
}

/// A select template under a projection: unchanged for `All`, otherwise
/// every `*` replaced by the projection fragment.
pub open spec fn spec_apply_projection(template: Seq<char>, projection: Projection) -> Seq<char> {
    match projection {
        Projection::All => template,
        _ => spec_replace(template, "*"@, spec_projection_fragment(projection)),
    }
}

/// The caller-chosen assignment list of the generic update forms: each
/// column as ` column=?`, comma-joined.
pub open spec fn spec_update_columns_fragment(columns: Seq<Seq<char>>) -> Seq<char> {
    spec_join(columns.map_values(|n: Seq<char>| " "@ + n + "=?"@), ","@)
}

/// An update template with its `:columns` placeholder replaced by the
/// assignment list.
pub open spec fn spec_apply_update_columns(
    template: Seq<char>,
    columns: Seq<Seq<char>>,
) -> Seq<char> {
    spec_replace(template, ":columns"@, spec_update_columns_fragment(columns))
}

/// Applies the projection to a select template holding a `*` placeholder.
fn apply_projection(template: &String, projection: Projection) -> (r: String)
    ensures
        r@ == spec_apply_projection(template@, projection),
{
    proof {
        reveal_strlit("*");
    }
    match projection {
        Projection::Count => replace_all(template.as_str(), "*", "count(*) as count"),
        Projection::All => template.clone(),
        Projection::Columns(columns) => {
            let fragment = join_strings(&columns, ",");
            replace_all(template.as_str(), "*", fragment.as_str())
        },
    }
}

/// Each column decorated into a spaced assignment: ` column=?`.
fn assign_parts(columns: &Vec<String>) -> (r: Vec<String>)
    ensures
        r.deep_view() == columns.deep_view().map_values(|n: Seq<char>| " "@ + n + "=?"@),
{
    let n = columns.len();
    let mut r: Vec<String> = Vec::new();
    let mut i: usize = 0;
    while i < n
        invariant
            i <= n,
            n == columns.len(),
            r@.len() == i,
            forall|j: int|
                0 <= j < i ==> (#[trigger] r@[j])@ == " "@ + columns.deep_view()[j] + "=?"@,
        decreases n - i,
    {
        let mut part = String::new();
        part.append(" ");
        part.append(columns[i].as_str());
        part.append("=?");
        proof {
            assert(part@ =~= " "@ + columns.deep_view()[i as int] + "=?"@);
        }
        r.push(part);
        i = i + 1;
    }
    proof {
        assert forall|j: int| 0 <= j < n implies r.deep_view()[j] == columns.deep_view().map_values(
            |n: Seq<char>| " "@ + n + "=?"@,
        )[j] by {
            assert(r.deep_view()[j] == r@[j]@);
        }
        assert(r.deep_view() =~= columns.deep_view().map_values(|n: Seq<char>| " "@ + n + "=?"@));
    }
    r
}

/// Substitutes the assignment list into an update template.
fn apply_update_columns(template: &String, columns: &Vec<String>) -> (r: String)
    ensures
        r@ == spec_apply_update_columns(template@, columns.deep_view()),
{
    let parts = assign_parts(columns);
    let fragment = join_strings(&parts, ",");
    proof {
        reveal_strlit(":columns");
    }
    replace_all(template.as_str(), ":columns", fragment.as_str())
}

/// Projection substitution on a template holding exactly one `*` — split
/// here into a star-free prefix and suffix: the projection fragment
/// lands at that one place and nothing else changes. In particular
/// `Count` puts `count(*) as count` there, consuming the template's own
/// `*`, and an explicit column list puts its comma-joined names there.
pub proof fn lemma_projection_substitution(a: Seq<char>, b: Seq<char>, projection: Projection)
    requires
        !a.contains('*'),
        !b.contains('*'),
    ensures
        spec_apply_projection(a + "*"@ + b, projection) == a + spec_projection_fragment(projection)
            + b,
{
    reveal_strlit("*");
    assert("*"@.len() == 1);
    assert("*"@[0] == '*');
    match projection {
        Projection::All => {
        },
        _ => {
            crate::text::lemma_replace_single_occurrence(
                a,
                b,
                "*"@,
                spec_projection_fragment(projection),
            );
        },
    }
}

/// A ready-to-execute insert: the statement and the columns whose values
/// feed its placeholders, in placeholder order.
#[derive(Debug)]
pub struct StoreQuery {
    pub query: String,
    pub values: Vec<String>,
}

impl StoreQuery {
    /// A store query from its statement and binding order.
    pub fn new(query: String, values: Vec<String>) -> (r: StoreQuery)
        ensures
            r.query@ == query@,
            r.values.deep_view() == values.deep_view(),
    {
        StoreQuery { query, values }
    }

    /// The insert statement.
    pub fn query(&self) -> (r: &String)
        ensures
            r@ == self.query@,
    {
        &self.query
    }

    /// The binding order matching the statement's placeholders.
    pub fn values(&self) -> (r: &Vec<String>)
        ensures
            r.deep_view() == self.values.deep_view(),
    {
        &self.values
    }
}

/// A ready-to-execute update: the statement and the columns whose values
/// feed its placeholders, in placeholder order.
#[derive(Debug)]
pub struct UpdateQuery {
    pub query: String,
    pub values: Vec<String>,
}

impl UpdateQuery {
    /// An update query from its statement and binding order.
    pub fn new(query: String, values: Vec<String>) -> (r: UpdateQuery)
        ensures
            r.query@ == query@,
            r.values.deep_view() == values.deep_view(),
    {
        UpdateQuery { query, values }
    }

    /// The update statement.
    pub fn query(&self) -> (r: &String)
        ensures
            r@ == self.query@,
    {
        &self.query
    }

    /// The binding order matching the statement's placeholders.
    pub fn values(&self) -> (r: &Vec<String>)
        ensures
            r.deep_view() == self.values.deep_view(),
    {
        &self.values
    }
}

/// A ready-to-execute delete: the statement and the columns whose values
/// feed its placeholders, in placeholder order.
#[derive(Debug)]
pub struct DeleteQuery {
    pub query: String,
    pub values: Vec<String>,
}

impl DeleteQuery {
    /// A delete query from its statement and binding order.
    pub fn new(query: String, values: Vec<String>) -> (r: DeleteQuery)
        ensures
            r.query@ == query@,
            r.values.deep_view() == values.deep_view(),
    {
        DeleteQuery { query, values }
    }

    /// The delete statement.
    pub fn query(&self) -> (r: &String)
        ensures
            r@ == self.query@,
    {
        &self.query
    }

    /// The binding order matching the statement's placeholders.
    pub fn values(&self) -> (r: &Vec<String>)
        ensures
            r.deep_view() == self.values.deep_view(),
    {
        &self.values
    }
}

/// The recoverable condition of update generation: every declared column
/// is a key column, so no `SET` clause can be formed.
#[derive(Debug)]
pub struct TableWithNoUpdatableColumnsError {
    pub message: String,
}

impl TableWithNoUpdatableColumnsError {
    /// An error carrying its description.
    pub fn new(message: String) -> (r: TableWithNoUpdatableColumnsError)
        ensures
            r.message@ == message@,
    {
        TableWithNoUpdatableColumnsError { message }
    }

    /// The error's description.
    pub fn message(&self) -> (r: &String)
        ensures
            r@ == self.message@,
    {
        &self.message
    }
}

impl TableMeta {
    /// The select-by-primary-keys statement under the given projection.
    pub fn select_by_primary_keys(&self, projection: Projection) -> (r: String)
        ensures
            r@ == spec_apply_projection(spec_select_by_key(self@), projection),
    {
        let template = self.select_by_key();
        apply_projection(&template, projection)
    }

    /// The select statement over primary and clustering keys under the
    /// given projection.
    pub fn select_by_primary_and_cluster_keys(&self, projection: Projection) -> (r: String)
        ensures
            r@ == spec_apply_projection(spec_select_by_keys(self@), projection),
    {
        let template = self.select_by_keys();
        apply_projection(&template, projection)
    }

    /// The update-by-primary-keys statement over the caller-chosen
    /// columns.
    pub fn update_by_primary_keys(&self, columns: Vec<String>) -> (r: String)
        ensures
            r@ == spec_apply_update_columns(spec_update_by_key(self@), columns.deep_view()),
    {
        let template = self.update_by_key();
        apply_update_columns(&template, &columns)
    }

    /// The update statement over primary and clustering keys over the
    /// caller-chosen columns.
    pub fn update_by_primary_and_cluster_keys(&self, columns: Vec<String>) -> (r: String)
        ensures
            r@ == spec_apply_update_columns(spec_update_by_keys(self@), columns.deep_view()),
    {
        let template = self.update_by_keys();
        apply_update_columns(&template, &columns)
    }

    /// The delete-by-primary-keys statement.
    pub fn delete_by_primary_keys(&self) -> (r: String)
        ensures
            r@ == spec_delete_by_key(self@),
    {
        self.delete_by_key()
    }

    /// The delete statement over primary and clustering keys.
    pub fn delete_by_primary_and_cluster_keys(&self) -> (r: String)
        ensures
            r@ == spec_delete_by_keys(self@),
    {
        self.delete_by_keys()
    }

    /// The ready-to-execute insert for one record of this table.
    pub fn store_query(&self) -> (r: StoreQuery)
        ensures
            r.query@ == spec_store_stmt(self@),
            r.values.deep_view() == spec_store_values(self@),
    {
        let query = self.store_stmt();
        let values = self.store_values();
        StoreQuery::new(query, values)
    }

    /// The ready-to-execute update for one record of this table, or the
    /// no-updatable-columns condition when every declared column is a
    /// key column.
    pub fn update_query(&self) -> (r: Result<UpdateQuery, TableWithNoUpdatableColumnsError>)
        ensures
            r is Ok <==> spec_updatable_columns(self@).len() > 0,
            r matches Ok(q) ==> q.query@ == spec_update_stmt(self@) && q.values.deep_view()
                == spec_update_values(self@),
            r matches Err(e) ==> e.message@ == "Table "@ + self@.name
                + " does not have any updatable column"@,
    {
        match self.update_stmt() {
            Some((query, values)) => Ok(UpdateQuery::new(query, values)),
            None => {
                let mut message = String::new();
                message.append("Table ");
                message.append(self.name.as_str());
                message.append(" does not have any updatable column");
                proof {
                    assert(message@ =~= "Table "@ + self@.name
                        + " does not have any updatable column"@);
                }
                Err(TableWithNoUpdatableColumnsError::new(message))
            },
        }
    }

    /// The ready-to-execute delete for one record of this table.
    pub fn delete_query(&self) -> (r: DeleteQuery)
        ensures
            r.query@ == spec_delete_stmt(self@),
            r.values.deep_view() == spec_key_names(self@),
    {
        let (query, values) = self.delete_stmt();
        DeleteQuery::new(query, values)
    }
}

} // verus!
