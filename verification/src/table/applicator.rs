//! Applying table commands to the local store.

use vstd::prelude::*;
use vstd::string::StringExecFns;

use crate::base::entry::{Entry, EntryView};
use crate::base::error::{ErrorView, RelosError};
use crate::base::text;
use crate::base::types::LogPos;
use crate::engine::traits;
use crate::engine::traits::{Applicator, ReturnValue, ReturnView, Step};
use crate::store::sorted_map;
use crate::store::sorted_map::Contents;
use crate::store::traits::WriteTransaction;
use crate::table::command::{CommandView, ResponseView, TableCommand, TableResponse};
use crate::table::command_laws;
use crate::table::keys;
use crate::table::schema;
use crate::table::schema::{ColumnView, Row, SchemaView, TableSchema, Value, ValueView};

verus! {

/// The text that reports a table that exists.
pub open spec fn exists_text(table: Seq<char>) -> Seq<char> {
    "table '"@ + table + "' already exists"@
}

/// The text that reports a table that does not exist.
pub open spec fn absent_text(table: Seq<char>) -> Seq<char> {
    "table '"@ + table + "' does not exist"@
}

/// The text that reports a row of the wrong length.
pub open spec fn length_text(values: nat, columns: nat) -> Seq<char> {
    "row has "@ + text::decimal_text(values) + " values but schema has "@ + text::decimal_text(
        columns,
    ) + " columns"@
}

/// The text that reports a primary key column that the schema lacks.
pub open spec fn no_column_text(name: Seq<char>) -> Seq<char> {
    "primary key column '"@ + name + "' not found in schema"@
}

/// The text that reports a row that ends before a primary key column.
pub open spec fn short_row_text(values: nat, name: Seq<char>, index: nat) -> Seq<char> {
    "row has "@ + text::decimal_text(values) + " values but primary key column '"@ + name
        + "' is at index "@ + text::decimal_text(index)
}

/// The first column of this name.
pub open spec fn column_index(columns: Seq<ColumnView>, name: Seq<char>) -> Option<nat>
    decreases columns.len(),
{
    if columns.len() == 0 {
        None
    } else {
        match column_index(columns.drop_last(), name) {
            Some(i) => Some(i),
            None => if columns.last().name == name {
                Some((columns.len() - 1) as nat)
            } else {
                None
            },
        }
    }
}

/// The value of a primary key column in a row.
pub open spec fn key_value(columns: Seq<ColumnView>, row: Seq<ValueView>, name: Seq<char>) -> Result<
    ValueView,
    ErrorView,
> {
    match column_index(columns, name) {
        None => Err(ErrorView::InvalidOperation(no_column_text(name))),
        Some(i) => if i >= row.len() {
            Err(ErrorView::InvalidOperation(short_row_text(row.len(), name, i)))
        } else {
            Ok(row[i as int])
        },
    }
}

/// The values of the primary key columns in a row; the first that is missing is
/// reported.
pub open spec fn primary_key_of(
    columns: Seq<ColumnView>,
    row: Seq<ValueView>,
    names: Seq<Seq<char>>,
) -> Result<Seq<ValueView>, ErrorView>
    decreases names.len(),
{
    if names.len() == 0 {
        Ok(Seq::empty())
    } else {
        match primary_key_of(columns, row, names.drop_last()) {
            Err(e) => Err(e),
            Ok(values) => match key_value(columns, row, names.last()) {
                Err(e) => Err(e),
                Ok(v) => Ok(values.push(v)),
            },
        }
    }
}

/// The schema of a table.
pub open spec fn schema_in(contents: Contents, table: Seq<char>) -> Result<
    Option<SchemaView>,
    ErrorView,
> {
    match sorted_map::value_at(contents, keys::schema_key(table)) {
        None => Ok(None),
        Some(b) => match schema::parse_schema(b) {
            Ok((s, _)) => Ok(Some(s)),
            Err(m) => Err(ErrorView::Serialization(m)),
        },
    }
}

/// What remains without the rows of a table.
pub open spec fn without_rows(contents: Contents, table: Seq<char>) -> Contents {
    Map::new(
        |k: Seq<u8>| contents.contains_key(k) && !keys::is_row_of(table, k),
        |k: Seq<u8>| contents[k],
    )
}

/// A command that was carried out, or refused, with this response.
pub open spec fn answered(contents: Contents, response: ResponseView) -> Step<()> {
    Step { model: (), contents, result: Ok(ReturnView::Data(response.bytes())) }
}

/// A command that failed with this error.
pub open spec fn failed(contents: Contents, error: ErrorView) -> Step<()> {
    Step { model: (), contents, result: Err(error) }
}

/// What creating a table changes and returns.
pub open spec fn create_step(contents: Contents, s: SchemaView) -> Step<()> {
    if contents.contains_key(keys::schema_key(s.name)) {
        answered(contents, ResponseView::Error(exists_text(s.name)))
    } else {
        answered(
            contents.insert(keys::schema_key(s.name), schema::schema_bytes(s)),
            ResponseView::Done,
        )
    }
}

/// What dropping a table changes and returns.
pub open spec fn drop_step(contents: Contents, table: Seq<char>) -> Step<()> {
    if !contents.contains_key(keys::schema_key(table)) {
        answered(contents, ResponseView::Error(absent_text(table)))
    } else {
        answered(
            without_rows(contents.remove(keys::schema_key(table)), table),
            ResponseView::Done,
        )
    }
}

/// What putting a row changes and returns.
pub open spec fn put_step(contents: Contents, table: Seq<char>, row: Seq<ValueView>) -> Step<()> {
    match schema_in(contents, table) {
        Err(e) => failed(contents, e),
        Ok(None) => answered(contents, ResponseView::Error(absent_text(table))),
        Ok(Some(s)) => if row.len() != s.columns.len() {
            answered(contents, ResponseView::Error(length_text(row.len(), s.columns.len())))
        } else {
            match primary_key_of(s.columns, row, s.primary_key) {
                Err(e) => failed(contents, e),
                Ok(key) => answered(
                    contents.insert(keys::row_key(table, key), schema::row_bytes(row)),
                    ResponseView::Done,
                ),
            }
        },
    }
}

/// What deleting a row changes and returns.
pub open spec fn delete_step(contents: Contents, table: Seq<char>, key: Seq<ValueView>) -> Step<
    (),
> {
    match schema_in(contents, table) {
        Err(e) => failed(contents, e),
        Ok(None) => answered(contents, ResponseView::Error(absent_text(table))),
        Ok(Some(_)) => answered(contents.remove(keys::row_key(table, key)), ResponseView::Done),
    }
}

/// What a command changes and returns.
pub open spec fn command_step(contents: Contents, command: CommandView) -> Step<()> {
    match command {
        CommandView::CreateTable(s) => create_step(contents, s),
        CommandView::DropTable { table } => drop_step(contents, table),
        CommandView::Put { table, row } => put_step(contents, table, row),
        CommandView::Delete { table, key } => delete_step(contents, table, key),
    }
}

/// What an entry changes and returns.
pub open spec fn table_step(contents: Contents, entry: EntryView) -> Step<()> {
    match CommandView::parse(entry.payload) {
        Err(m) => failed(contents, ErrorView::Serialization(m)),
        Ok(command) => command_step(contents, command),
    }
}

/// Whether an executed step did on `txn` what it should.
pub open spec fn stepped<T: WriteTransaction>(
    before: T,
    after: T,
    r: Result<ReturnValue, RelosError>,
    s: Step<()>,
) -> bool {
    &&& after.reliable() == before.reliable()
    &&& before.reliable() || r is Ok ==> traits::returned(r) == s.result && after.contents()
        == s.contents
}

/// The DelosTable applicator — applies table commands to the LocalStore.
///
/// Key layout in the LocalStore:
/// - Table schemas: key = `schema/{table_name}`, value = serialized TableSchema
/// - Row data: key = `data/{table_name}/{primary_key_encoded}`, value = serialized Row
/// - Primary key encoding: each Value serialized, hex-encoded, joined with `\x00`
pub struct TableApplicator;

impl TableApplicator {
    pub fn new() -> (app: Self)
        ensures
            app == TableApplicator,
    {
        TableApplicator
    }

    /// Build the store key for a table schema.
    pub fn schema_key(table_name: &str) -> (key: Vec<u8>)
        ensures
            key@ == keys::schema_key(table_name@),
    {
        keys::schema_key_of(table_name)
    }

    /// Build the store key for a row.
    pub fn row_key(table_name: &str, pk_values: &[Value]) -> (key: Vec<u8>)
        ensures
            key@ == keys::row_key(table_name@, schema::values_view(pk_values@)),
    {
        keys::row_key_of(table_name, pk_values)
    }

    /// Build the prefix for all rows of a table.
    pub fn row_prefix(table_name: &str) -> (prefix: Vec<u8>)
        ensures
            prefix@ == keys::row_prefix(table_name@),
    {
        keys::row_prefix_of(table_name)
    }

    /// Load a table schema from the store.
    fn load_schema<T: WriteTransaction>(txn: &T, table_name: &str) -> (r: Result<
        Option<TableSchema>,
        RelosError,
    >)
        ensures
            match (r, schema_in(txn.contents(), table_name@)) {
                (Ok(None), Ok(None)) => true,
                (Ok(Some(s)), Ok(Some(v))) => s@ == v,
                (Err(e), Err(v)) => txn.reliable() ==> e@ == v,
                (Err(_), _) => !txn.reliable(),
                _ => false,
            },
    {
        let key = Self::schema_key(table_name);
        match txn.get(key.as_slice()) {
            Err(e) => Err(e),
            Ok(None) => Ok(None),
            Ok(Some(bytes)) => match schema::take_schema(bytes.as_slice()) {
                Ok((s, _)) => Ok(Some(s)),
                Err(e) => Err(RelosError::Serialization(e)),
            },
        }
    }

    /// The first column of this name.
    fn position(columns: &Vec<schema::ColumnDef>, name: &String) -> (r: Option<usize>)
        ensures
            match (r, column_index(schema::columns_view(columns@), name@)) {
                (Some(i), Some(j)) => i == j && i < columns@.len(),
                (None, None) => true,
                _ => false,
            },
    {
        let ghost all = schema::columns_view(columns@);
        let mut i: usize = 0;
        proof {
            assert(all.take(0) == Seq::<ColumnView>::empty());
        }
        while i < columns.len()
            invariant
                i <= columns@.len(),
                all == schema::columns_view(columns@),
                column_index(all.take(i as int), name@) is None,
            decreases columns.len() - i,
        {
            proof {
                let next = all.take(i + 1);
                assert(next.drop_last() == all.take(i as int));
                assert(next.last() == all[i as int]);
            }
            if columns[i].name == *name {
                proof {
                    index_is_stable(all, name@, i + 1);
                }
                return Some(i);
            }
            i = i + 1;
        }
        assert(all.take(i as int) == all);
        None
    }

    /// Extract primary key values from a row given the schema.
    pub fn extract_pk(schema: &TableSchema, row: &Row) -> (r: Result<Vec<Value>, RelosError>)
        ensures
            match (r, primary_key_of(schema@.columns, row@, schema@.primary_key)) {
                (Ok(values), Ok(v)) => schema::values_view(values@) == v,
                (Err(e), Err(v)) => e@ == v,
                _ => false,
            },
            r is Ok ==> {
                let key = schema::values_view(r->Ok_0@);
                let names = schema@.primary_key;
                &&& key.len() == names.len()
                &&& forall|i: int, j: int|
                    0 <= i < names.len() && #[trigger] command_laws::first_of_name(
                        schema@.columns,
                        names[i],
                        j,
                    ) ==> j < row@.len() && key[i] == row@[j]
            },
    {
        let ghost columns = schema@.columns;
        let ghost names = schema@.primary_key;
        let mut pk_values: Vec<Value> = Vec::new();
        let mut i: usize = 0;
        proof {
            assert(names.take(0) == Seq::<Seq<char>>::empty());
            assert(schema::values_view(pk_values@) == Seq::<ValueView>::empty());
        }
        while i < schema.primary_key.len()
            invariant
                i <= schema.primary_key@.len(),
                columns == schema@.columns,
                names == schema@.primary_key,
                primary_key_of(columns, row@, names.take(i as int)) == Result::<
                    Seq<ValueView>,
                    ErrorView,
                >::Ok(schema::values_view(pk_values@)),
            decreases schema.primary_key.len() - i,
        {
            let pk_col_name = &schema.primary_key[i];
            proof {
                let next = names.take(i + 1);
                assert(next.drop_last() == names.take(i as int));
                assert(next.last() == pk_col_name@);
            }
            let idx: usize = match Self::position(&schema.columns, pk_col_name) {
                Some(k) => k,
                None => {
                    proof {
                        error_is_stable(columns, row@, names, i + 1);
                    }
                    return Err(
                        RelosError::InvalidOperation(
                            "primary key column '".to_owned().concat(
                                pk_col_name.as_str(),
                            ).concat("' not found in schema"),
                        ),
                    );
                },
            };
            if idx >= row.values.len() {
                proof {
                    error_is_stable(columns, row@, names, i + 1);
                }
                return Err(
                    RelosError::InvalidOperation(
                        "row has ".to_owned().concat(
                            text::decimal(row.values.len() as u64).as_str(),
                        ).concat(" values but primary key column '").concat(
                            pk_col_name.as_str(),
                        ).concat("' is at index ").concat(text::decimal(idx as u64).as_str()),
                    ),
                );
            }
            let value = row.values[idx].clone();
            proof {
                assert(schema::values_view(pk_values@.push(value)) == schema::values_view(
                    pk_values@,
                ).push(value@));
            }
            pk_values.push(value);
            i = i + 1;
        }
        proof {
            assert(names.take(i as int) == names);
            command_laws::key_holds_every_column(columns, row@, names);
        }
        Ok(pk_values)
    }

    pub fn make_response(resp: TableResponse) -> (r: Result<ReturnValue, RelosError>)
        ensures
            r is Ok,
            r->Ok_0@ == ReturnView::Data(resp@.bytes()),
    {
        match resp.to_bytes() {
            Ok(bytes) => Ok(ReturnValue::Data(bytes)),
            Err(e) => Err(e),
        }
    }

    fn apply_create_table<T: WriteTransaction>(txn: &mut T, schema: TableSchema) -> (r: Result<
        ReturnValue,
        RelosError,
    >)
        ensures
            stepped(*old(txn), *final(txn), r, create_step(old(txn).contents(), schema@)),
    {
        let key = Self::schema_key(schema.name.as_str());
        match txn.get(key.as_slice()) {
            Err(e) => return Err(e),
            Ok(Some(_)) => {
                return Self::make_response(
                    TableResponse::Error(
                        "table '".to_owned().concat(schema.name.as_str()).concat(
                            "' already exists",
                        ),
                    ),
                );
            },
            Ok(None) => {},
        }
        let mut value: Vec<u8> = Vec::new();
        schema::put_schema(&mut value, &schema);
        assert(value@ == schema::schema_bytes(schema@));
        match txn.put(key.as_slice(), value.as_slice()) {
            Ok(_) => {},
            Err(e) => return Err(e),
        }
        Self::make_response(TableResponse::Success)
    }

    pub fn apply_drop_table<T: WriteTransaction>(txn: &mut T, table: &str) -> (r: Result<
        ReturnValue,
        RelosError,
    >)
        ensures
            stepped(*old(txn), *final(txn), r, drop_step(old(txn).contents(), table@)),
            old(txn).reliable() && old(txn).contents().contains_key(keys::schema_key(table@)) ==> r
                is Ok && r->Ok_0@ == ReturnView::Data(ResponseView::Done.bytes()),
    {
        let schema_key = Self::schema_key(table);
        match txn.get(schema_key.as_slice()) {
            Err(e) => return Err(e),
            Ok(None) => {
                return Self::make_response(
                    TableResponse::Error(
                        "table '".to_owned().concat(table).concat("' does not exist"),
                    ),
                );
            },
            Ok(Some(_)) => {},
        }
        // Delete schema
        match txn.delete(schema_key.as_slice()) {
            Ok(_) => {},
            Err(e) => return Err(e),
        }
        // Delete all rows with prefix data/{table}/, but for those of a table whose
        // name goes on behind the slash
        let prefix = Self::row_prefix(table);
        let ghost whole = txn.contents();
        let rows = match txn.prefix_scan(prefix.as_slice()) {
            Ok(r) => r,
            Err(e) => return Err(e),
        };
        let ghost pairs = sorted_map::pairs_view(rows@);
        let mut i: usize = 0;
        while i < rows.len()
            invariant
                i <= rows@.len(),
                pairs == sorted_map::pairs_view(rows@),
                prefix@ == keys::row_prefix(table@),
                forall|j: int|
                    0 <= j < pairs.len() ==> sorted_map::starts_with(
                        (#[trigger] pairs[j]).0,
                        prefix@,
                    ),
                txn.reliable() == old(txn).reliable(),
                forall|k: Seq<u8>| #[trigger]
                    txn.contents().contains_key(k) <==> whole.contains_key(k) && !(
                    keys::is_row_of(table@, k) && sorted_map::has_key(pairs.take(i as int), k)),
                forall|k: Seq<u8>| #[trigger]
                    txn.contents().contains_key(k) ==> txn.contents()[k] == whole[k],
            decreases rows.len() - i,
        {
            assert(rows@[i as int].0@ == pairs[i as int].0);
            if keys::ends_in_one_part(rows[i].0.as_slice(), prefix.len()) {
                match txn.delete(rows[i].0.as_slice()) {
                    Ok(_) => {},
                    Err(e) => return Err(e),
                }
            }
            proof {
                let next = pairs.take(i + 1);
                assert(next == pairs.take(i as int).push(pairs[i as int]));
                assert forall|k: Seq<u8>| #[trigger] sorted_map::has_key(next, k)
                    <==> sorted_map::has_key(pairs.take(i as int), k) || k == pairs[i as int].0 by {
                    has_key_push(pairs.take(i as int), pairs[i as int], k);
                }
            }
            i = i + 1;
        }
        proof {
            assert(pairs.take(i as int) == pairs);
            let target = without_rows(whole, table@);
            assert forall|k: Seq<u8>| txn.contents().contains_key(k) == target.contains_key(k) by {
                if whole.contains_key(k) && keys::is_row_of(table@, k) {
                    assert(sorted_map::has_key(pairs, k));
                }
            }
            assert(txn.contents() =~= target);
        }
        Self::make_response(TableResponse::Success)
    }

    fn apply_put<T: WriteTransaction>(txn: &mut T, table: &str, row: Row) -> (r: Result<
        ReturnValue,
        RelosError,
    >)
        ensures
            stepped(*old(txn), *final(txn), r, put_step(old(txn).contents(), table@, row@)),
    {
        let schema = match Self::load_schema(txn, table) {
            Err(e) => return Err(e),
            Ok(None) => {
                return Self::make_response(
                    TableResponse::Error(
                        "table '".to_owned().concat(table).concat("' does not exist"),
                    ),
                );
            },
            Ok(Some(s)) => s,
        };

        // Validate row length matches schema
        if row.values.len() != schema.columns.len() {
            return Self::make_response(
                TableResponse::Error(
                    "row has ".to_owned().concat(
                        text::decimal(row.values.len() as u64).as_str(),
                    ).concat(" values but schema has ").concat(
                        text::decimal(schema.columns.len() as u64).as_str(),
                    ).concat(" columns"),
                ),
            );
        }
        let pk_values = match Self::extract_pk(&schema, &row) {
            Ok(v) => v,
            Err(e) => return Err(e),
        };
        let key = Self::row_key(table, pk_values.as_slice());
        let mut value: Vec<u8> = Vec::new();
        schema::put_values(&mut value, &row.values);
        assert(value@ == schema::row_bytes(row@));
        match txn.put(key.as_slice(), value.as_slice()) {
            Ok(_) => {},
            Err(e) => return Err(e),
        }
        Self::make_response(TableResponse::Success)
    }

    fn apply_delete<T: WriteTransaction>(txn: &mut T, table: &str, key_values: &[Value]) -> (r:
        Result<ReturnValue, RelosError>)
        ensures
            stepped(
                *old(txn),
                *final(txn),
                r,
                delete_step(old(txn).contents(), table@, schema::values_view(key_values@)),
            ),
    {
        match Self::load_schema(txn, table) {
            Err(e) => return Err(e),
            Ok(None) => {
                return Self::make_response(
                    TableResponse::Error(
                        "table '".to_owned().concat(table).concat("' does not exist"),
                    ),
                );
            },
            Ok(Some(_)) => {},
        }
        let key = Self::row_key(table, key_values);
        match txn.delete(key.as_slice()) {
            Ok(_) => {},
            Err(e) => return Err(e),
        }
        Self::make_response(TableResponse::Success)
    }
}

impl Default for TableApplicator {
    fn default() -> (app: Self)
        ensures
            app == TableApplicator,
    {
        Self::new()
    }
}

impl Applicator for TableApplicator {
    type Model = ();

    open spec fn model(&self) -> () {
        ()
    }

    open spec fn step(model: (), contents: Contents, entry: EntryView, pos: LogPos) -> Step<()> {
        table_step(contents, entry)
    }

    fn apply<T: WriteTransaction>(&mut self, txn: &mut T, entry: &Entry, pos: LogPos) -> (r: Result<
        ReturnValue,
        RelosError,
    >)
        ensures
            CommandView::parse(entry@.payload) is Err ==> *final(txn) == *old(txn)
                && traits::returned(r) == table_step(old(txn).contents(), entry@).result,
    {
        let cmd = match TableCommand::from_bytes(entry.payload.as_slice()) {
            Ok(c) => c,
            Err(e) => return Err(e),
        };
        match cmd {
            TableCommand::CreateTable(schema) => Self::apply_create_table(txn, schema),
            TableCommand::DropTable { table } => Self::apply_drop_table(txn, table.as_str()),
            TableCommand::Put { table, row } => Self::apply_put(txn, table.as_str(), row),
            TableCommand::Delete { table, key } => Self::apply_delete(txn, table.as_str(), key.as_slice()),
        }
    }
}

proof fn has_key_push(pairs: Seq<sorted_map::PairView>, pair: sorted_map::PairView, k: Seq<u8>)
    ensures
        sorted_map::has_key(pairs.push(pair), k) <==> sorted_map::has_key(pairs, k) || k == pair.0,
{
    let longer = pairs.push(pair);
    if sorted_map::has_key(pairs, k) {
        let j = choose|j: int| 0 <= j < pairs.len() && (#[trigger] pairs[j]).0 == k;
        assert(longer[j].0 == k);
    }
    if k == pair.0 {
        assert(longer[pairs.len() as int].0 == k);
    }
    if sorted_map::has_key(longer, k) && k != pair.0 {
        let j = choose|j: int| 0 <= j < longer.len() && (#[trigger] longer[j]).0 == k;
        assert(pairs[j].0 == k);
    }
}

/// A column that was found among the first columns is the first of all.
proof fn index_is_stable(columns: Seq<ColumnView>, name: Seq<char>, n: int)
    requires
        0 <= n <= columns.len(),
        column_index(columns.take(n), name) is Some,
    ensures
        column_index(columns, name) == column_index(columns.take(n), name),
    decreases columns.len() - n,
{
    if n < columns.len() {
        let next = columns.take(n + 1);
        assert(next.drop_last() == columns.take(n));
        index_is_stable(columns, name, n + 1);
    } else {
        assert(columns.take(n) == columns);
    }
}

/// The first key column that fails decides.
proof fn error_is_stable(
    columns: Seq<ColumnView>,
    row: Seq<ValueView>,
    names: Seq<Seq<char>>,
    n: int,
)
    requires
        0 <= n <= names.len(),
        primary_key_of(columns, row, names.take(n)) is Err,
    ensures
        primary_key_of(columns, row, names) == primary_key_of(columns, row, names.take(n)),
    decreases names.len() - n,
{
    if n < names.len() {
        let next = names.take(n + 1);
        assert(next.drop_last() == names.take(n));
        error_is_stable(columns, row, names, n + 1);
    } else {
        assert(names.take(n) == names);
    }
}

} // verus!
