//! When commands are carried out, and what they do, in terms of the store and of the
//! columns and values that they name.

use vstd::prelude::*;

use crate::base::codec;
use crate::base::entry::EntryView;
use crate::base::error::{ErrorView, RelosError};
use crate::base::text;
use crate::base::types::LogPos;
use crate::engine::batching;
use crate::engine::batching::BatchingApplicator;
use crate::engine::traits::{Applicator, Engine, Outcome, ReturnValue, ReturnView, Step};
use crate::store::sorted_map::{Contents, PairView};
use crate::store::traits::WriteTransaction;
use crate::table::applicator;
use crate::table::applicator::TableApplicator;
use crate::table::command;
use crate::table::command::{CommandView, ResponseView};
use crate::table::key_laws;
use crate::table::keys;
use crate::table::laws;
use crate::table::layer_laws;
use crate::table::schema;
use crate::table::schema::{ColumnDef, ColumnView, Row, SchemaView, Value, ValueView};
use crate::table::table;
use crate::table::table::DelosTable;

verus! {

// Primary keys

/// The `j`-th column is the first of this name.
pub open spec fn first_of_name(columns: Seq<ColumnView>, name: Seq<char>, j: int) -> bool {
    &&& 0 <= j < columns.len()
    &&& columns[j].name == name
    &&& forall|k: int| 0 <= k < j ==> (#[trigger] columns[k]).name != name
}

/// A row has a value in the first column of this name.
pub open spec fn has_value(columns: Seq<ColumnView>, row: Seq<ValueView>, name: Seq<char>) -> bool {
    exists|j: int| #[trigger] first_of_name(columns, name, j) && j < row.len()
}

/// A column is found by its name exactly where one has that name, and it is the first.
pub proof fn column_is_found_by_name(columns: Seq<ColumnView>, name: Seq<char>)
    ensures
        applicator::column_index(columns, name) is None <==> forall|k: int|
            0 <= k < columns.len() ==> (#[trigger] columns[k]).name != name,
        applicator::column_index(columns, name) is Some ==> first_of_name(
            columns,
            name,
            applicator::column_index(columns, name)->0 as int,
        ),
    decreases columns.len(),
{
    if columns.len() > 0 {
        let front = columns.drop_last();
        column_is_found_by_name(front, name);
        if applicator::column_index(front, name) is Some {
            let j = applicator::column_index(front, name)->0 as int;
            assert(columns[j] == front[j]);
            assert forall|k: int| 0 <= k < j implies (#[trigger] columns[k]).name != name by {
                assert(columns[k] == front[k]);
            }
        } else {
            assert forall|k: int| 0 <= k < front.len() implies (#[trigger] columns[k]).name
                != name by {
                assert(columns[k] == front[k]);
            }
            assert(columns[columns.len() - 1] == columns.last());
        }
    }
}

/// The column that was found is the only one that is the first of its name.
proof fn found_column_is(columns: Seq<ColumnView>, name: Seq<char>, j: int)
    requires
        first_of_name(columns, name, j),
    ensures
        applicator::column_index(columns, name) == Some(j as nat),
{
    column_is_found_by_name(columns, name);
    let i = applicator::column_index(columns, name)->0 as int;
    assert(columns[j].name == name);
    if i < j {
        assert(columns[i].name != name);
    }
}

/// A primary key that was taken from a row has one value for each key column, in
/// order: the row's value in the first column of that name.
pub proof fn key_holds_every_column(
    columns: Seq<ColumnView>,
    row: Seq<ValueView>,
    names: Seq<Seq<char>>,
)
    requires
        applicator::primary_key_of(columns, row, names) is Ok,
    ensures
        ({
            let key = applicator::primary_key_of(columns, row, names)->Ok_0;
            &&& key.len() == names.len()
            &&& forall|i: int|
                0 <= i < names.len() ==> has_value(columns, row, #[trigger] names[i])
            &&& forall|i: int, j: int|
                0 <= i < names.len() && #[trigger] first_of_name(columns, names[i], j) ==> j
                    < row.len() && key[i] == row[j]
        }),
    decreases names.len(),
{
    if names.len() > 0 {
        let front = names.drop_last();
        key_holds_every_column(columns, row, front);
        let before = applicator::primary_key_of(columns, row, front)->Ok_0;
        let key = applicator::primary_key_of(columns, row, names)->Ok_0;
        let n = names.len() - 1;
        column_is_found_by_name(columns, names.last());
        let last = applicator::column_index(columns, names.last())->0 as int;
        assert forall|i: int| 0 <= i < names.len() implies has_value(
            columns,
            row,
            #[trigger] names[i],
        ) by {
            if i < n {
                assert(front[i] == names[i]);
            } else {
                assert(first_of_name(columns, names[i], last));
            }
        }
        assert forall|i: int, j: int|
            0 <= i < names.len() && #[trigger] first_of_name(columns, names[i], j) implies j
            < row.len() && key[i] == row[j] by {
            if i < n {
                assert(front[i] == names[i]);
                assert(first_of_name(columns, front[i], j));
            } else {
                found_column_is(columns, names[i], j);
            }
        }
    }
}

/// A primary key can be taken from a row where every key column is among the columns
/// and the row has a value for it.
pub proof fn key_is_taken(columns: Seq<ColumnView>, row: Seq<ValueView>, names: Seq<Seq<char>>)
    requires
        forall|i: int| 0 <= i < names.len() ==> has_value(columns, row, #[trigger] names[i]),
    ensures
        applicator::primary_key_of(columns, row, names) is Ok,
    decreases names.len(),
{
    if names.len() > 0 {
        let front = names.drop_last();
        assert forall|i: int| 0 <= i < front.len() implies has_value(
            columns,
            row,
            #[trigger] front[i],
        ) by {
            assert(front[i] == names[i]);
        }
        key_is_taken(columns, row, front);
        let n = names.len() - 1;
        assert(has_value(columns, row, names[n]));
        let j = choose|j: int| #[trigger] first_of_name(columns, names[n], j) && j < row.len();
        found_column_is(columns, names[n], j);
    }
}

/// The first key column that is not among the columns, or for which the row has no
/// value, is reported.
pub proof fn missing_key_column_is_reported(
    columns: Seq<ColumnView>,
    row: Seq<ValueView>,
    names: Seq<Seq<char>>,
    k: int,
)
    requires
        0 <= k < names.len(),
        forall|i: int| 0 <= i < k ==> has_value(columns, row, #[trigger] names[i]),
    ensures
        (forall|j: int| 0 <= j < columns.len() ==> (#[trigger] columns[j]).name != names[k])
            ==> applicator::primary_key_of(columns, row, names) == Result::<
            Seq<ValueView>,
            ErrorView,
        >::Err(ErrorView::InvalidOperation(applicator::no_column_text(names[k]))),
        forall|j: int|
            #[trigger] first_of_name(columns, names[k], j) && j >= row.len()
                ==> applicator::primary_key_of(columns, row, names) == Result::<
                Seq<ValueView>,
                ErrorView,
            >::Err(
                ErrorView::InvalidOperation(
                    applicator::short_row_text(row.len(), names[k], j as nat),
                ),
            ),
    decreases names.len(),
{
    let front = names.drop_last();
    assert forall|i: int| 0 <= i < k && i < front.len() implies has_value(
        columns,
        row,
        #[trigger] front[i],
    ) by {
        assert(front[i] == names[i]);
    }
    if k < front.len() {
        assert(front[k] == names[k]);
        missing_key_column_is_reported(columns, row, front, k);
        if forall|j: int| 0 <= j < columns.len() ==> (#[trigger] columns[j]).name != names[k] {
            assert(applicator::primary_key_of(columns, row, front) is Err);
        }
        assert forall|j: int|
            #[trigger] first_of_name(columns, names[k], j) && j >= row.len() implies
            applicator::primary_key_of(columns, row, names) == Result::<
            Seq<ValueView>,
            ErrorView,
        >::Err(
            ErrorView::InvalidOperation(
                applicator::short_row_text(row.len(), names[k], j as nat),
            ),
        ) by {
            assert(first_of_name(columns, front[k], j));
        }
    } else {
        key_is_taken(columns, row, front);
        column_is_found_by_name(columns, names[k]);
        assert forall|j: int|
            #[trigger] first_of_name(columns, names[k], j) && j >= row.len() implies
            applicator::primary_key_of(columns, row, names) == Result::<
            Seq<ValueView>,
            ErrorView,
        >::Err(
            ErrorView::InvalidOperation(
                applicator::short_row_text(row.len(), names[k], j as nat),
            ),
        ) by {
            found_column_is(columns, names[k], j);
        }
    }
}

// Commands

/// A table is created if and only if the store holds no schema of its name, whatever
/// else it holds. Its schema is then stored under its name, and nothing else changes.
pub proof fn create_is_carried_out(contents: Contents, s: SchemaView, k: Seq<u8>)
    ensures
        ({
            let c = CommandView::CreateTable(s);
            let key = vstd::utf8::encode_utf8("schema/"@ + s.name);
            let next = laws::after(contents, c);
            &&& laws::carried_out(contents, c) <==> !contents.contains_key(key)
            &&& laws::carried_out(contents, c) ==> next.contains_key(key) && next[key]
                == schema::schema_bytes(s)
            &&& k != key ==> next.contains_key(k) == contents.contains_key(k)
            &&& k != key && contents.contains_key(k) ==> next[k] == contents[k]
            &&& contents.contains_key(key) ==> applicator::command_step(contents, c).result
                == Result::<ReturnView, ErrorView>::Ok(
                ReturnView::Data(ResponseView::Error(applicator::exists_text(s.name)).bytes()),
            )
        }),
{
    laws::error_is_no_success(applicator::exists_text(s.name));
}

/// A table is dropped if and only if the store holds its schema, whatever rows it
/// holds. No row of it is left then, nor its schema, and what lies elsewhere in the
/// store stays.
pub proof fn drop_is_carried_out(
    contents: Contents,
    t: Seq<char>,
    key: Seq<ValueView>,
    k: Seq<u8>,
)
    ensures
        ({
            let c = CommandView::DropTable { table: t };
            let schema = vstd::utf8::encode_utf8("schema/"@ + t);
            let rows = vstd::utf8::encode_utf8("data/"@ + t + "/"@);
            let next = laws::after(contents, c);
            &&& laws::carried_out(contents, c) <==> contents.contains_key(schema)
            &&& laws::carried_out(contents, c) ==> !next.contains_key(schema)
                && !next.contains_key(keys::row_key(t, key))
            &&& next.contains_key(k) ==> contents.contains_key(k) && next[k] == contents[k]
            &&& contents.contains_key(k) && k != schema && !(rows.len() <= k.len() && k.take(
                rows.len() as int,
            ) == rows) ==> next.contains_key(k)
            &&& !contents.contains_key(schema) ==> applicator::command_step(contents, c).result
                == Result::<ReturnView, ErrorView>::Ok(
                ReturnView::Data(ResponseView::Error(applicator::absent_text(t)).bytes()),
            )
        }),
{
    laws::error_is_no_success(applicator::absent_text(t));
    key_laws::row_tells_its_table(t, t, key);
    key_laws::kinds_are_apart(t, t, key);
    let rows = keys::row_prefix(t);
    if keys::is_row_of(t, k) {
        assert(k.take(rows.len() as int) == rows);
    }
}

/// A row is put if and only if the table's schema can be read, the row has a value for
/// each column, and every key column is among the columns. It is then stored under the
/// primary key that it holds, and nothing else changes.
pub proof fn put_is_carried_out(
    contents: Contents,
    t: Seq<char>,
    row: Seq<ValueView>,
    s: SchemaView,
    k: Seq<u8>,
)
    requires
        applicator::schema_in(contents, t) == Result::<Option<SchemaView>, ErrorView>::Ok(Some(s)),
    ensures
        ({
            let c = CommandView::Put { table: t, row };
            let next = laws::after(contents, c);
            let key = applicator::primary_key_of(s.columns, row, s.primary_key)->Ok_0;
            &&& laws::carried_out(contents, c) <==> row.len() == s.columns.len() && forall|i: int|
                0 <= i < s.primary_key.len() ==> has_value(
                    s.columns,
                    row,
                    #[trigger] s.primary_key[i],
                )
            &&& laws::carried_out(contents, c) ==> {
                &&& next.contains_key(keys::row_key(t, key))
                &&& next[keys::row_key(t, key)] == schema::row_bytes(row)
                &&& k != keys::row_key(t, key) ==> next.contains_key(k) == contents.contains_key(k)
                &&& k != keys::row_key(t, key) && contents.contains_key(k) ==> next[k]
                    == contents[k]
            }
            &&& !laws::carried_out(contents, c) ==> next == contents
            &&& row.len() != s.columns.len() ==> applicator::command_step(contents, c).result
                == Result::<ReturnView, ErrorView>::Ok(
                ReturnView::Data(
                    ResponseView::Error(
                        applicator::length_text(row.len(), s.columns.len()),
                    ).bytes(),
                ),
            )
        }),
{
    let c = CommandView::Put { table: t, row };
    laws::error_is_no_success(applicator::length_text(row.len(), s.columns.len()));
    if row.len() == s.columns.len() {
        if forall|i: int|
            0 <= i < s.primary_key.len() ==> has_value(
                s.columns,
                row,
                #[trigger] s.primary_key[i],
            ) {
            key_is_taken(s.columns, row, s.primary_key);
        }
        if laws::carried_out(contents, c) {
            key_holds_every_column(s.columns, row, s.primary_key);
        }
    }
}

/// A row with a value for each column has one in every key column that is among them.
pub proof fn named_column_has_value(
    columns: Seq<ColumnView>,
    row: Seq<ValueView>,
    name: Seq<char>,
    j: int,
)
    requires
        row.len() == columns.len(),
        0 <= j < columns.len(),
        columns[j].name == name,
    ensures
        has_value(columns, row, name),
{
    column_is_found_by_name(columns, name);
    assert(first_of_name(columns, name, applicator::column_index(columns, name)->0 as int));
}

/// A row is deleted if and only if the table's schema can be read, whether or not there
/// is such a row. The store then holds nothing under the key's values, all of them, and
/// nothing else changes.
pub proof fn delete_is_carried_out(
    contents: Contents,
    t: Seq<char>,
    key: Seq<ValueView>,
    k: Seq<u8>,
)
    ensures
        ({
            let c = CommandView::Delete { table: t, key };
            let name = vstd::utf8::encode_utf8("schema/"@ + t);
            let next = laws::after(contents, c);
            &&& laws::carried_out(contents, c) <==> contents.contains_key(name)
                && schema::parse_schema(contents[name]) is Ok
            &&& laws::carried_out(contents, c) ==> !next.contains_key(keys::row_key(t, key))
            &&& k != keys::row_key(t, key) ==> next.contains_key(k) == contents.contains_key(k)
            &&& next.contains_key(k) ==> next[k] == contents[k]
            &&& !laws::carried_out(contents, c) ==> next == contents
        }),
{
    laws::error_is_no_success(applicator::absent_text(t));
}

/// A command on a table whose schema cannot be read fails, and the error says why.
pub proof fn unreadable_schema_fails(
    contents: Contents,
    t: Seq<char>,
    row: Seq<ValueView>,
    key: Seq<ValueView>,
)
    requires
        contents.contains_key(vstd::utf8::encode_utf8("schema/"@ + t)),
        schema::parse_schema(contents[vstd::utf8::encode_utf8("schema/"@ + t)]) is Err,
    ensures
        ({
            let e = ErrorView::Serialization(
                schema::parse_schema(contents[vstd::utf8::encode_utf8("schema/"@ + t)])->Err_0,
            );
            let put = applicator::command_step(contents, CommandView::Put { table: t, row });
            let delete = applicator::command_step(contents, CommandView::Delete { table: t, key });
            &&& put.result == Result::<ReturnView, ErrorView>::Err(e)
            &&& put.contents == contents
            &&& delete.result == Result::<ReturnView, ErrorView>::Err(e)
            &&& delete.contents == contents
        }),
{
}

/// An entry is applied as the command that its payload stands for. One that stands for
/// none fails and changes nothing.
pub proof fn entry_is_applied_as_its_command(
    contents: Contents,
    c: CommandView,
    entry: EntryView,
    pos: LogPos,
)
    requires
        c.bytes().len() <= u64::MAX,
    ensures
        entry.payload == c.bytes() ==> TableApplicator::step((), contents, entry, pos)
            == applicator::command_step(contents, c),
        CommandView::parse(entry.payload) is Err ==> {
            let s = TableApplicator::step((), contents, entry, pos);
            &&& s.contents == contents
            &&& s.result == Result::<ReturnView, ErrorView>::Err(
                ErrorView::Serialization(CommandView::parse(entry.payload)->Err_0),
            )
        },
{
    command::command_round_trip(c);
}

// Batches

/// The payloads of puts of these rows.
pub open spec fn put_payloads(t: Seq<char>, rows: Seq<Seq<ValueView>>) -> Seq<Seq<u8>> {
    Seq::new(rows.len(), |i: int| (CommandView::Put { table: t, row: rows[i] }).bytes())
}

/// The primary key of a row of a table.
pub open spec fn key_in(s: SchemaView, row: Seq<ValueView>) -> Seq<ValueView> {
    applicator::primary_key_of(s.columns, row, s.primary_key)->Ok_0
}

/// A row that can be put into a table.
pub open spec fn fits_table(t: Seq<char>, s: SchemaView, row: Seq<ValueView>) -> bool {
    &&& row.len() == s.columns.len()
    &&& applicator::primary_key_of(s.columns, row, s.primary_key) is Ok
    &&& (CommandView::Put { table: t, row }).bytes().len() <= u64::MAX
}

proof fn puts_in_turn(
    contents: Contents,
    t: Seq<char>,
    s: SchemaView,
    rows: Seq<Seq<ValueView>>,
    pos: LogPos,
    last: ReturnView,
)
    requires
        applicator::schema_in(contents, t) == Result::<Option<SchemaView>, ErrorView>::Ok(Some(s)),
        forall|i: int| 0 <= i < rows.len() ==> fits_table(t, s, #[trigger] rows[i]),
    ensures
        ({
            let r = batching::apply_each::<TableApplicator>(
                (),
                contents,
                put_payloads(t, rows),
                pos,
                last,
            );
            &&& r.result is Ok
            &&& rows.len() > 0 ==> r.result == Result::<ReturnView, ErrorView>::Ok(
                ReturnView::Data(ResponseView::Done.bytes()),
            )
            &&& rows.len() == 0 ==> r.result == Result::<ReturnView, ErrorView>::Ok(last)
            &&& forall|i: int|
                0 <= i < rows.len() && (forall|j: int|
                    i < j < rows.len() ==> key_in(s, #[trigger] rows[j]) != key_in(s, rows[i]))
                    ==> table::row_in(r.contents, t, key_in(s, #[trigger] rows[i])) == Result::<
                    Option<Seq<ValueView>>,
                    ErrorView,
                >::Ok(Some(rows[i]))
            &&& forall|key: Seq<ValueView>|
                key_laws::key_fits(key) && (forall|j: int|
                    0 <= j < rows.len() ==> key_in(s, #[trigger] rows[j]) != key)
                    ==> #[trigger] table::row_in(r.contents, t, key) == table::row_in(
                    contents,
                    t,
                    key,
                )
        }),
    decreases rows.len(),
{
    let payloads = put_payloads(t, rows);
    if rows.len() > 0 {
        let row = rows[0];
        let others = rows.drop_first();
        let c = CommandView::Put { table: t, row };
        let key = key_in(s, row);
        assert(fits_table(t, s, row));
        assert(payloads[0] == c.bytes());
        assert(payloads.drop_first() == put_payloads(t, others));
        command::command_round_trip(c);
        let next = laws::after(contents, c);
        assert(laws::carried_out(contents, c));
        codec::u32_round_trip(2, Seq::empty());
        assert(schema::row_bytes(row).len() <= u64::MAX);
        laws::key_of_row_fits(s.columns, row, s.primary_key);
        laws::put_then_get(contents, t, row, t, key);
        assert forall|i: int| 0 <= i < others.len() implies fits_table(
            t,
            s,
            #[trigger] others[i],
        ) by {
            assert(others[i] == rows[i + 1]);
        }
        let done = ReturnView::Data(ResponseView::Done.bytes());
        puts_in_turn(next, t, s, others, pos, done);
        let r = batching::apply_each::<TableApplicator>((), contents, payloads, pos, last);
        assert(r == batching::apply_each::<TableApplicator>(
            (),
            next,
            put_payloads(t, others),
            pos,
            done,
        ));
        assert forall|i: int|
            0 <= i < rows.len() && (forall|j: int|
                i < j < rows.len() ==> key_in(s, #[trigger] rows[j]) != key_in(
                    s,
                    rows[i],
                )) implies table::row_in(r.contents, t, key_in(s, #[trigger] rows[i]))
            == Result::<Option<Seq<ValueView>>, ErrorView>::Ok(Some(rows[i])) by {
            if i > 0 {
                assert(others[i - 1] == rows[i]);
                assert forall|j: int| i - 1 < j < others.len() implies key_in(
                    s,
                    #[trigger] others[j],
                ) != key_in(s, others[i - 1]) by {
                    assert(others[j] == rows[j + 1]);
                }
            } else {
                assert forall|j: int| 0 <= j < others.len() implies key_in(
                    s,
                    #[trigger] others[j],
                ) != key by {
                    assert(others[j] == rows[j + 1]);
                }
                assert(table::row_in(r.contents, t, key) == table::row_in(next, t, key));
            }
        }
        assert forall|k: Seq<ValueView>|
            key_laws::key_fits(k) && (forall|j: int|
                0 <= j < rows.len() ==> key_in(
                    s,
                    #[trigger] rows[j],
                ) != k) implies #[trigger] table::row_in(r.contents, t, k) == table::row_in(
            contents,
            t,
            k,
        ) by {
            assert(key_in(s, rows[0]) != k);
            assert forall|j: int| 0 <= j < others.len() implies key_in(
                s,
                #[trigger] others[j],
            ) != k by {
                assert(others[j] == rows[j + 1]);
            }
            laws::put_then_get(contents, t, row, t, k);
            assert(table::row_in(r.contents, t, k) == table::row_in(next, t, k));
        }
    } else {
        assert(payloads == Seq::<Seq<u8>>::empty());
    }
}

/// A batch of puts, however many they are, leaves every row readable under its primary
/// key. Of rows with one key the last stays.
pub proof fn batch_of_puts_is_readable(
    contents: Contents,
    t: Seq<char>,
    s: SchemaView,
    rows: Seq<Seq<ValueView>>,
    pos: LogPos,
    i: int,
)
    requires
        applicator::schema_in(contents, t) == Result::<Option<SchemaView>, ErrorView>::Ok(Some(s)),
        forall|i: int| 0 <= i < rows.len() ==> fits_table(t, s, #[trigger] rows[i]),
        rows.len() <= usize::MAX,
        batching::batch_bytes(put_payloads(t, rows)).len() <= u64::MAX,
        0 <= i < rows.len(),
        forall|j: int| i < j < rows.len() ==> key_in(s, #[trigger] rows[j]) != key_in(s, rows[i]),
    ensures
        ({
            let r = BatchingApplicator::<TableApplicator>::step(
                (),
                contents,
                batching::batch_entry(put_payloads(t, rows)),
                pos,
            );
            &&& r.result == Result::<ReturnView, ErrorView>::Ok(
                ReturnView::Data(ResponseView::Done.bytes()),
            )
            &&& table::row_in(r.contents, t, key_in(s, rows[i])) == Result::<
                Option<Seq<ValueView>>,
                ErrorView,
            >::Ok(Some(rows[i]))
        }),
{
    batching::batch_is_unpacked(put_payloads(t, rows));
    puts_in_turn(contents, t, s, rows, pos, ReturnView::Success);
}

// Reads and replies

/// What is found under a primary key is what the store holds there.
pub proof fn get_reads_the_store(contents: Contents, t: Seq<char>, key: Seq<ValueView>)
    ensures
        ({
            let k = keys::row_key(t, key);
            let r = table::row_in(contents, t, key);
            &&& !contents.contains_key(k) ==> r == Result::<
                Option<Seq<ValueView>>,
                ErrorView,
            >::Ok(None)
            &&& contents.contains_key(k) ==> match schema::parse_row(contents[k]) {
                Ok((row, _)) => r == Result::<Option<Seq<ValueView>>, ErrorView>::Ok(Some(row)),
                Err(m) => r == Result::<Option<Seq<ValueView>>, ErrorView>::Err(
                    ErrorView::Serialization(m),
                ),
            }
        }),
{
}

/// Rows are read from store entries one for one and in order. The first that cannot be
/// read is reported.
pub proof fn rows_are_read_in_order(pairs: Seq<PairView>, k: int)
    requires
        0 <= k <= pairs.len(),
        forall|i: int| 0 <= i < k ==> schema::parse_row((#[trigger] pairs[i]).1) is Ok,
        k < pairs.len() ==> schema::parse_row(pairs[k].1) is Err,
    ensures
        k < pairs.len() ==> table::decoded_rows(pairs) == Result::<
            Seq<Seq<ValueView>>,
            ErrorView,
        >::Err(ErrorView::Serialization(schema::parse_row(pairs[k].1)->Err_0)),
        k == pairs.len() ==> {
            let rows = table::decoded_rows(pairs);
            &&& rows is Ok
            &&& rows->Ok_0.len() == pairs.len()
            &&& forall|i: int|
                0 <= i < pairs.len() ==> #[trigger] rows->Ok_0[i] == schema::parse_row(
                    pairs[i].1,
                )->Ok_0.0
        },
    decreases pairs.len(),
{
    if pairs.len() > 0 {
        let front = pairs.drop_last();
        let n = pairs.len() - 1;
        assert forall|i: int| 0 <= i < k && i < front.len() implies schema::parse_row(
            (#[trigger] front[i]).1,
        ) is Ok by {
            assert(front[i] == pairs[i]);
        }
        if k <= n {
            rows_are_read_in_order(front, k);
            if k < n {
                assert(front[k] == pairs[k]);
            }
        } else {
            rows_are_read_in_order(front, n);
            assert(schema::parse_row(pairs[n].1) is Ok);
            let rows = table::decoded_rows(pairs)->Ok_0;
            assert forall|i: int| 0 <= i < pairs.len() implies #[trigger] rows[i]
                == schema::parse_row(pairs[i].1)->Ok_0.0 by {
                if i < n {
                    assert(front[i] == pairs[i]);
                    assert(rows[i] == table::decoded_rows(front)->Ok_0[i]);
                }
            }
        }
    }
}

/// A command is proposed as it is, in an entry of its own. It succeeds exactly where it
/// was carried out, a refusal is an invalid operation, and a failure is handed on.
pub proof fn replies_are_told_apart<E: Engine>(m: E::Model, c: CommandView, reason: Seq<char>)
    requires
        ResponseView::Error(reason).bytes().len() <= u64::MAX,
    ensures
        ({
            let entry = EntryView { headers: Seq::empty(), payload: c.bytes() };
            let (below, o) = E::propose_step(m, entry);
            let (next, r) = DelosTable::<E>::execute(m, c);
            &&& next == below
            &&& o == Outcome::Done(ReturnView::Success) ==> r == Outcome::<()>::Done(())
            &&& o == Outcome::Done(ReturnView::Data(ResponseView::Done.bytes())) ==> r
                == Outcome::<()>::Done(())
            &&& o == Outcome::Done(ReturnView::Data(ResponseView::Error(reason).bytes())) ==> r
                == Outcome::<()>::Failed(ErrorView::InvalidOperation(reason))
            &&& o is Failed ==> r == Outcome::<()>::Failed(o->Failed_0)
        }),
{
    assert(EntryView::plain(c.bytes()) == (EntryView {
        headers: Seq::empty(),
        payload: c.bytes(),
    }));
    codec::u32_round_trip(0, Seq::empty());
    command::response_round_trip(ResponseView::Done);
    command::response_round_trip(ResponseView::Error(reason));
}

/// A read syncs first and reads what the store holds then. Where the sync fails it fails
/// with the same error.
pub proof fn reads_follow_a_sync<E: Engine, T>(
    m: E::Model,
    read: spec_fn(Contents) -> Result<T, ErrorView>,
)
    ensures
        ({
            let (synced, s) = E::sync_step(m);
            let (next, o) = table::after_sync::<E, T>(m, read);
            &&& next == synced
            &&& s is Failed ==> o == Outcome::<T>::Failed(s->Failed_0)
            &&& s is Done ==> match read(E::contents_of(synced)) {
                Ok(v) => o == Outcome::<T>::Done(v),
                Err(e) => o == Outcome::<T>::Failed(e),
            }
        }),
{
}

// On an engine

/// Above any engine that serves it and has what a sync brings, a command that can be
/// carried out succeeds.
pub proof fn valid_command_succeeds<E: Engine>(m: E::Model, c: CommandView)
    requires
        layer_laws::serves::<E>(m, table::command_entry(c), c),
        E::sync_step(m).1 is Done,
        laws::carried_out(E::contents_of(E::sync_step(m).0), c),
    ensures
        DelosTable::<E>::execute(m, c).1 == Outcome::<()>::Done(()),
        layer_laws::same_tables(
            E::contents_of(DelosTable::<E>::execute(m, c).0),
            laws::after(E::contents_of(E::sync_step(m).0), c),
        ),
{
    reveal(layer_laws::serves);
    codec::u32_round_trip(0, Seq::empty());
    command::response_round_trip(ResponseView::Done);
}

/// Above any engine that serves it, a drop of a table that is there succeeds, whatever
/// rows it has. A put of a row that fits the table and a delete in it succeed, and so
/// does the creation of a table that is not there.
pub proof fn table_commands_succeed<E: Engine>(
    m: E::Model,
    t: Seq<char>,
    s: SchemaView,
    row: Seq<ValueView>,
    key: Seq<ValueView>,
    fresh: SchemaView,
)
    requires
        E::sync_step(m).1 is Done,
        applicator::schema_in(E::contents_of(E::sync_step(m).0), t) == Result::<
            Option<SchemaView>,
            ErrorView,
        >::Ok(Some(s)),
        row.len() == s.columns.len(),
        forall|i: int|
            0 <= i < s.primary_key.len() ==> has_value(s.columns, row, #[trigger] s.primary_key[i]),
        applicator::schema_in(E::contents_of(E::sync_step(m).0), fresh.name) == Result::<
            Option<SchemaView>,
            ErrorView,
        >::Ok(None),
    ensures
        ({
            let c = CommandView::DropTable { table: t };
            layer_laws::serves::<E>(m, table::command_entry(c), c) ==> DelosTable::<E>::execute(
                m,
                c,
            ).1 == Outcome::<()>::Done(())
        }),
        ({
            let c = CommandView::Put { table: t, row };
            layer_laws::serves::<E>(m, table::command_entry(c), c) ==> DelosTable::<E>::execute(
                m,
                c,
            ).1 == Outcome::<()>::Done(())
        }),
        ({
            let c = CommandView::Delete { table: t, key };
            layer_laws::serves::<E>(m, table::command_entry(c), c) ==> DelosTable::<E>::execute(
                m,
                c,
            ).1 == Outcome::<()>::Done(())
        }),
        ({
            let c = CommandView::CreateTable(fresh);
            layer_laws::serves::<E>(m, table::command_entry(c), c) ==> DelosTable::<E>::execute(
                m,
                c,
            ).1 == Outcome::<()>::Done(())
        }),
{
    let held = E::contents_of(E::sync_step(m).0);
    let drop = CommandView::DropTable { table: t };
    let put = CommandView::Put { table: t, row };
    let delete = CommandView::Delete { table: t, key };
    let create = CommandView::CreateTable(fresh);
    drop_is_carried_out(held, t, key, Seq::empty());
    put_is_carried_out(held, t, row, s, Seq::empty());
    delete_is_carried_out(held, t, key, Seq::empty());
    create_is_carried_out(held, fresh, Seq::empty());
    if layer_laws::serves::<E>(m, table::command_entry(drop), drop) {
        valid_command_succeeds::<E>(m, drop);
    }
    if layer_laws::serves::<E>(m, table::command_entry(put), put) {
        valid_command_succeeds::<E>(m, put);
    }
    if layer_laws::serves::<E>(m, table::command_entry(delete), delete) {
        valid_command_succeeds::<E>(m, delete);
    }
    if layer_laws::serves::<E>(m, table::command_entry(create), create) {
        valid_command_succeeds::<E>(m, create);
    }
}

// Store keys

/// The text of a primary key is built up value by value: the hexadecimal notation of
/// each one's bytes, with a NUL between each two.
pub proof fn key_text_is_joined(key: Seq<ValueView>, v: ValueView)
    ensures
        keys::key_text(Seq::empty()) == Seq::<char>::empty(),
        keys::key_text(seq![v]) == keys::hex_text(schema::value_bytes(v)),
        key.len() > 0 ==> keys::key_text(key.push(v)) == keys::key_text(key) + seq!['\0']
            + keys::hex_text(schema::value_bytes(v)),
{
    let one = keys::key_parts(seq![v]);
    assert(one.len() == 1 && one[0] == keys::hex_text(schema::value_bytes(v)));
    assert(keys::key_parts(Seq::empty()) == Seq::<Seq<char>>::empty());
    let parts = keys::key_parts(key.push(v));
    assert(parts.drop_last() == keys::key_parts(key));
    assert(parts.last() == keys::hex_text(schema::value_bytes(v)));
    let text = keys::key_text(key);
    assert(text.push('\0') == text + seq!['\0']);
}

/// A schema lies under `schema/` and the table's name, and a row under `data/`, the
/// table's name, a slash and the text of its primary key.
pub proof fn store_keys_are_spelled_out(t: Seq<char>, key: Seq<ValueView>)
    ensures
        keys::schema_key(t) == vstd::utf8::encode_utf8("schema/"@ + t),
        keys::row_prefix(t) == vstd::utf8::encode_utf8("data/"@ + t + "/"@),
        keys::row_key(t, key) == vstd::utf8::encode_utf8(
            "data/"@ + t + "/"@ + keys::key_text(key),
        ),
{
}

// Values

/// Two values are equal if and only if they are of one kind and hold the same. Of
/// numbers with a fraction the two zeros are equal, and what is no number equals nothing.
pub proof fn equality_is_by_value(a: ValueView, b: ValueView)
    ensures
        !(a is Float64) || !(b is Float64) ==> (schema::same_value(a, b) <==> a == b),
        schema::same_value(a, b) == schema::same_value(b, a),
        a is Float64 && b is Float64 ==> {
            let x = a->Float64_0;
            let y = b->Float64_0;
            &&& x % 0x8000_0000_0000_0000 > 0x7ff0_0000_0000_0000 ==> !schema::same_value(a, b)
            &&& y % 0x8000_0000_0000_0000 > 0x7ff0_0000_0000_0000 ==> !schema::same_value(a, b)
            &&& x % 0x8000_0000_0000_0000 <= 0x7ff0_0000_0000_0000 ==> schema::same_value(a, a)
            &&& x % 0x8000_0000_0000_0000 == 0 && y % 0x8000_0000_0000_0000 == 0
                ==> schema::same_value(a, b)
            &&& x != y && x % 0x8000_0000_0000_0000 != 0 ==> !schema::same_value(a, b)
        },
{
}

// Results

/// What a write, a get and a scan returned is the outcome that it is held to: success
/// with the same rows, or failure with the same error.
pub proof fn results_are_the_outcomes(
    w: Result<(), RelosError>,
    wo: Outcome<()>,
    g: Result<Option<Row>, RelosError>,
    go: Outcome<Option<Seq<ValueView>>>,
    s: Result<Vec<Row>, RelosError>,
    so: Outcome<Seq<Seq<ValueView>>>,
)
    ensures
        table::wrote(w, wo) && w is Ok ==> wo is Done,
        table::wrote(w, wo) && w is Err ==> wo == Outcome::<()>::Failed(w->Err_0@),
        table::got(g, go) && g is Ok ==> go is Done && (g->Ok_0 is Some ==> go->Done_0 == Some(
            g->Ok_0->0@,
        )) && (g->Ok_0 is None ==> go->Done_0 is None),
        table::got(g, go) && g is Err ==> go == Outcome::<Option<Seq<ValueView>>>::Failed(
            g->Err_0@,
        ),
        table::scanned(s, so) && s is Ok ==> so is Done && so->Done_0.len() == s->Ok_0@.len()
            && forall|i: int|
            0 <= i < s->Ok_0@.len() ==> so->Done_0[i] == (#[trigger] s->Ok_0@[i])@,
        table::scanned(s, so) && s is Err ==> so == Outcome::<Seq<Seq<ValueView>>>::Failed(
            s->Err_0@,
        ),
{
    if table::scanned(s, so) && s is Ok {
        let rows = table::rows_view(s->Ok_0@);
        assert(rows == so->Done_0);
        assert forall|i: int| 0 <= i < s->Ok_0@.len() implies so->Done_0[i] == (
        #[trigger] s->Ok_0@[i])@ by {
            assert(rows[i] == s->Ok_0@[i]@);
        }
    }
}

/// The contents of names, columns and values are those of each.
pub proof fn lists_are_seen_one_by_one(
    names: Seq<String>,
    columns: Seq<ColumnDef>,
    values: Seq<Value>,
    i: int,
)
    ensures
        schema::names_view(names).len() == names.len(),
        schema::columns_view(columns).len() == columns.len(),
        schema::values_view(values).len() == values.len(),
        0 <= i < names.len() ==> schema::names_view(names)[i] == names[i]@,
        0 <= i < columns.len() ==> schema::columns_view(columns)[i] == columns[i]@,
        0 <= i < values.len() ==> schema::values_view(values)[i] == values[i]@,
{
}

/// What was done in a transaction that does not fail is the step that it is held to.
pub proof fn step_was_made<T: WriteTransaction>(
    before: T,
    after: T,
    r: Result<ReturnValue, RelosError>,
    s: Step<()>,
)
    requires
        applicator::stepped(before, after, r, s),
    ensures
        after.reliable() == before.reliable(),
        before.reliable() || r is Ok ==> after.contents() == s.contents,
        r is Ok ==> s.result == Result::<ReturnView, ErrorView>::Ok(r->Ok_0@),
        before.reliable() && r is Err ==> s.result == Result::<ReturnView, ErrorView>::Err(
            r->Err_0@,
        ),
{
}

/// A write to a table whose engine does not fail executes its command, and returns what
/// it came to.
pub proof fn write_executes_its_command<E: Engine>(
    before: DelosTable<E>,
    after: DelosTable<E>,
    c: CommandView,
    r: Result<(), RelosError>,
)
    requires
        DelosTable::<E>::written(before, after, c, r),
        before.steady(),
    ensures
        after.steady(),
        after.model() == DelosTable::<E>::execute(before.model(), c).0,
        r is Ok <==> DelosTable::<E>::execute(before.model(), c).1 is Done,
        r is Err ==> DelosTable::<E>::execute(before.model(), c).1 == Outcome::<()>::Failed(
            r->Err_0@,
        ),
{
}

/// A refusal names the table, the column or the numbers that it is about.
pub proof fn refusals_name_their_reason(t: Seq<char>, name: Seq<char>, a: nat, b: nat)
    ensures
        applicator::exists_text(t) == "table '"@ + t + "' already exists"@,
        applicator::absent_text(t) == "table '"@ + t + "' does not exist"@,
        applicator::length_text(a, b) == "row has "@ + text::decimal_text(a)
            + " values but schema has "@ + text::decimal_text(b) + " columns"@,
        applicator::no_column_text(name) == "primary key column '"@ + name
            + "' not found in schema"@,
        applicator::short_row_text(a, name, b) == "row has "@ + text::decimal_text(a)
            + " values but primary key column '"@ + name + "' is at index "@ + text::decimal_text(
            b,
        ),
{
}

} // verus!
