//! What requests ask for and what they are answered, value by value.

use vstd::prelude::*;

use crate::base::error::ErrorView;
use crate::engine::traits::{Engine, Outcome};
use crate::server::convert;
use crate::server::messages;
use crate::server::messages::{
    Code,
    ColumnDefView,
    DeleteResponse,
    GetResponse,
    KindView,
    PutResponse,
    ScanResponse,
    Status,
    StatusView,
    TableSchemaView,
};
use crate::server::service;
use crate::server::service::RelosTableService;
use crate::store::sorted_map::Contents;
use crate::table::applicator;
use crate::table::command::CommandView;
use crate::table::key_laws;
use crate::table::layer_laws;
use crate::table::schema;
use crate::table::schema::{ColumnType, SchemaView, ValueView};
use crate::table::table;
use crate::table::table::DelosTable;

verus! {

// Values

/// The value `v` is the one that stands in a message as `kind`. Nothing, and a mark of
/// what is null, stand for null.
pub open spec fn stands_for(kind: Option<KindView>, v: ValueView) -> bool {
    match v {
        ValueView::Null => kind is None || kind->0 is IsNull,
        ValueView::Int64(n) => kind == Some(KindView::Int64Value(n)),
        ValueView::Utf8(s) => kind == Some(KindView::StringValue(s)),
        ValueView::Bytes(b) => kind == Some(KindView::BytesValue(b)),
        ValueView::Bool(b) => kind == Some(KindView::BoolValue(b)),
        ValueView::Float64(bits) => kind == Some(KindView::Float64Value(bits)),
    }
}

/// A list of values stands in a message value by value.
pub open spec fn stand_for(kinds: Seq<Option<KindView>>, values: Seq<ValueView>) -> bool {
    &&& kinds.len() == values.len()
    &&& forall|i: int|
        0 <= i < kinds.len() ==> stands_for(#[trigger] kinds[i], #[trigger] values[i])
}

/// Lists of values are converted value by value, from messages and into them.
pub proof fn values_are_converted_one_by_one(
    kinds: Seq<Option<KindView>>,
    values: Seq<ValueView>,
)
    ensures
        stand_for(kinds, convert::values_of(kinds)),
        stand_for(convert::kinds_of(values), values),
        forall|i: int|
            0 <= i < values.len() ==> (#[trigger] convert::kinds_of(values)[i]) is Some,
{
}

/// What stands in a message stands for one list of values only.
pub proof fn message_has_one_meaning(
    kinds: Seq<Option<KindView>>,
    a: Seq<ValueView>,
    b: Seq<ValueView>,
)
    requires
        stand_for(kinds, a),
        stand_for(kinds, b),
    ensures
        a == b,
{
    assert forall|i: int| 0 <= i < a.len() implies a[i] == b[i] by {
        assert(stands_for(kinds[i], a[i]));
        assert(stands_for(kinds[i], b[i]));
    }
    assert(a =~= b);
}

// Schemas

/// The column type that a number in a message names.
pub open spec fn type_named(n: i32, t: ColumnType) -> bool {
    match t {
        ColumnType::Int64 => n == 1,
        ColumnType::Utf8 => n == 2,
        ColumnType::Bytes => n == 3,
        ColumnType::Bool => n == 4,
        ColumnType::Float64 => n == 5,
    }
}

/// A message describes a schema: the same name and key columns, and the columns one by
/// one.
pub open spec fn describes(m: TableSchemaView, s: SchemaView) -> bool {
    &&& m.name == s.name
    &&& m.primary_key == s.primary_key
    &&& m.columns.len() == s.columns.len()
    &&& forall|i: int|
        0 <= i < m.columns.len() ==> {
            &&& (#[trigger] m.columns[i]).name == (#[trigger] s.columns[i]).name
            &&& m.columns[i].nullable == s.columns[i].nullable
            &&& type_named(m.columns[i].column_type, s.columns[i].col_type)
        }
}

proof fn columns_one_by_one(columns: Seq<ColumnDefView>, k: int)
    requires
        0 <= k <= columns.len(),
        forall|i: int| 0 <= i < k ==> 1 <= (#[trigger] columns[i]).column_type <= 5,
        k < columns.len() ==> !(1 <= columns[k].column_type <= 5),
    ensures
        k < columns.len() ==> convert::columns_of(columns) == Result::<
            Seq<schema::ColumnView>,
            StatusView,
        >::Err(
            StatusView {
                code: Code::InvalidArgument,
                message: "unspecified or unknown column type"@,
            },
        ),
        k == columns.len() ==> {
            let r = convert::columns_of(columns);
            &&& r is Ok
            &&& r->Ok_0.len() == columns.len()
            &&& forall|i: int|
                0 <= i < columns.len() ==> {
                    &&& (#[trigger] columns[i]).name == (#[trigger] r->Ok_0[i]).name
                    &&& columns[i].nullable == r->Ok_0[i].nullable
                    &&& type_named(columns[i].column_type, r->Ok_0[i].col_type)
                }
        },
    decreases columns.len(),
{
    if columns.len() > 0 {
        let front = columns.drop_last();
        let n = columns.len() - 1;
        assert forall|i: int| 0 <= i < k && i < front.len() implies 1 <= (
        #[trigger] front[i]).column_type <= 5 by {
            assert(front[i] == columns[i]);
        }
        if k <= n {
            columns_one_by_one(front, k);
            if k < n {
                assert(front[k] == columns[k]);
            }
        } else {
            columns_one_by_one(front, n);
            assert(1 <= columns[n].column_type <= 5);
            let all = convert::columns_of(columns)->Ok_0;
            let before = convert::columns_of(front)->Ok_0;
            assert forall|i: int| 0 <= i < columns.len() implies {
                &&& (#[trigger] columns[i]).name == (#[trigger] all[i]).name
                &&& columns[i].nullable == all[i].nullable
                &&& type_named(columns[i].column_type, all[i].col_type)
            } by {
                if i < n {
                    assert(front[i] == columns[i]);
                    assert(before[i] == all[i]);
                }
            }
        }
    }
}

/// A message whose columns all have a known type describes the schema that is made of
/// it, column by column.
pub proof fn schema_is_made_of_message(m: TableSchemaView)
    requires
        forall|i: int|
            0 <= i < m.columns.len() ==> 1 <= (#[trigger] m.columns[i]).column_type <= 5,
    ensures
        convert::schema_of(m) is Ok,
        describes(m, convert::schema_of(m)->Ok_0),
{
    columns_one_by_one(m.columns, m.columns.len() as int);
}

/// A message with a column of an unknown type is refused.
pub proof fn unknown_type_is_refused(m: TableSchemaView, i: int)
    requires
        0 <= i < m.columns.len(),
        !(1 <= m.columns[i].column_type <= 5),
    ensures
        convert::schema_of(m) == Result::<SchemaView, StatusView>::Err(
            StatusView {
                code: Code::InvalidArgument,
                message: "unspecified or unknown column type"@,
            },
        ),
    decreases i,
{
    if forall|j: int| 0 <= j < i ==> 1 <= (#[trigger] m.columns[j]).column_type <= 5 {
        columns_one_by_one(m.columns, i);
    } else {
        let j = choose|j: int|
            0 <= j < i && !(1 <= (#[trigger] m.columns[j]).column_type <= 5);
        unknown_type_is_refused(m, j);
    }
}

/// A schema is described by the message that is made of it.
pub proof fn message_is_made_of_schema(s: SchemaView)
    ensures
        describes(convert::schema_message(s), s),
{
}

// Requests

/// A request to delete asks for the row under the key that it holds, value by value.
/// One that names no table is refused.
pub proof fn delete_asks_for_its_key(
    t: Seq<char>,
    kinds: Seq<Option<KindView>>,
    key: Seq<ValueView>,
)
    requires
        stand_for(kinds, key),
    ensures
        t.len() > 0 ==> service::delete_command(t, kinds) == Result::<CommandView, StatusView>::Ok(
            CommandView::Delete { table: t, key },
        ),
        t.len() == 0 ==> service::delete_command(t, kinds) == Result::<
            CommandView,
            StatusView,
        >::Err(
            StatusView {
                code: Code::InvalidArgument,
                message: "table name must not be empty"@,
            },
        ),
{
    values_are_converted_one_by_one(kinds, key);
    message_has_one_meaning(kinds, convert::values_of(kinds), key);
}

/// A request to put asks for the row that it holds, value by value. One without a row
/// or a table's name is refused.
pub proof fn put_asks_for_its_row(
    t: Seq<char>,
    message: messages::Row,
    row: Seq<ValueView>,
)
    requires
        stand_for(message@, row),
    ensures
        t.len() > 0 ==> service::put_command(t, Some(message)) == Result::<
            CommandView,
            StatusView,
        >::Ok(CommandView::Put { table: t, row }),
        t.len() > 0 ==> service::put_command(t, None) == Result::<CommandView, StatusView>::Err(
            StatusView { code: Code::InvalidArgument, message: "missing row"@ },
        ),
        t.len() == 0 ==> service::put_command(t, Some(message)) == Result::<
            CommandView,
            StatusView,
        >::Err(
            StatusView {
                code: Code::InvalidArgument,
                message: "table name must not be empty"@,
            },
        ),
{
    values_are_converted_one_by_one(message@, row);
    message_has_one_meaning(message@, convert::values_of(message@), row);
}

/// A request to drop asks for the table that it names.
pub proof fn drop_asks_for_its_table(t: Seq<char>)
    ensures
        t.len() > 0 ==> service::drop_command(t) == Result::<CommandView, StatusView>::Ok(
            CommandView::DropTable { table: t },
        ),
        t.len() == 0 ==> service::drop_command(t) == Result::<CommandView, StatusView>::Err(
            StatusView {
                code: Code::InvalidArgument,
                message: "table name must not be empty"@,
            },
        ),
{
}

/// A request to create a table asks for the schema that it describes. One without a
/// schema, or with a column of an unknown type, is refused.
pub proof fn create_asks_for_its_schema(message: messages::TableSchema)
    ensures
        ({
            let r = service::create_command(Some(message));
            let known = forall|i: int|
                0 <= i < message@.columns.len() ==> 1 <= (
                #[trigger] message@.columns[i]).column_type <= 5;
            &&& known ==> r is Ok && r->Ok_0 is CreateTable && describes(
                message@,
                r->Ok_0->CreateTable_0,
            )
            &&& !known ==> r == Result::<CommandView, StatusView>::Err(
                StatusView {
                    code: Code::InvalidArgument,
                    message: "unspecified or unknown column type"@,
                },
            )
        }),
        service::create_command(None) == Result::<CommandView, StatusView>::Err(
            StatusView { code: Code::InvalidArgument, message: "missing schema"@ },
        ),
{
    let m = message@;
    if forall|i: int| 0 <= i < m.columns.len() ==> 1 <= (#[trigger] m.columns[i]).column_type <= 5 {
        schema_is_made_of_message(m);
    } else {
        let i = choose|i: int|
            0 <= i < m.columns.len() && !(1 <= (#[trigger] m.columns[i]).column_type <= 5);
        unknown_type_is_refused(m, i);
    }
}

// Answers

/// What is not found and what is not valid is reported as such, with the reason, and
/// everything else as an internal failure.
pub proof fn errors_are_reported(e: ErrorView)
    ensures
        ({
            let s = convert::status_of(e);
            &&& match e {
                ErrorView::NotFound(m) => s.code == Code::NotFound && s.message == m,
                ErrorView::InvalidOperation(m) => s.code == Code::InvalidArgument && s.message
                    == m,
                ErrorView::Internal(m) => s.code == Code::Internal && s.message == m,
                _ => s.code == Code::Internal && s.message == e.text(),
            }
        }),
{
}

/// A write is answered with success exactly where it succeeded, and else with its error.
pub proof fn write_is_answered<T>(r: Result<T, Status>, o: Outcome<()>)
    requires
        service::answered(r, o),
    ensures
        r is Ok <==> o is Done,
        o is Failed ==> r->Err_0@ == convert::status_of(o->Failed_0),
{
}

/// A get is answered with the row that was found, value by value, or with the word that
/// there is none.
pub proof fn get_answers_the_row(
    r: Result<GetResponse, Status>,
    o: Outcome<Option<Seq<ValueView>>>,
)
    requires
        service::got(r, o),
    ensures
        r is Ok <==> o is Done,
        o is Failed ==> r->Err_0@ == convert::status_of(o->Failed_0),
        o is Done && o->Done_0 is Some ==> {
            &&& r->Ok_0.found
            &&& r->Ok_0.row is Some
            &&& stand_for(r->Ok_0.row->0@, o->Done_0->0)
        },
        o is Done && o->Done_0 is None ==> !r->Ok_0.found && r->Ok_0.row is None,
{
}

/// A scan is answered with all rows that were found, in order and value by value.
pub proof fn scan_answers_every_row(
    r: Result<ScanResponse, Status>,
    o: Outcome<Seq<Seq<ValueView>>>,
)
    requires
        service::scanned(r, o),
    ensures
        r is Ok <==> o is Done,
        o is Failed ==> r->Err_0@ == convert::status_of(o->Failed_0),
        o is Done ==> {
            &&& r->Ok_0.rows@.len() == o->Done_0.len()
            &&& forall|i: int|
                0 <= i < o->Done_0.len() ==> stand_for(
                    (#[trigger] r->Ok_0.rows@[i])@,
                    #[trigger] o->Done_0[i],
                )
        },
{
    if o is Done {
        let sent = r->Ok_0.rows@.map_values(|row: messages::Row| row@);
        let rows = o->Done_0;
        assert(sent.len() == service::row_messages(rows).len());
        assert forall|i: int| 0 <= i < rows.len() implies stand_for(
            (#[trigger] r->Ok_0.rows@[i])@,
            #[trigger] rows[i],
        ) by {
            assert(sent[i] == service::row_messages(rows)[i]);
            values_are_converted_one_by_one(Seq::empty(), rows[i]);
        }
    }
}

// One request after the other

/// What a get request asks of the table: the row under the key that it holds.
pub open spec fn asked_for<E: Engine>(
    service: RelosTableService<E>,
    t: Seq<char>,
    kinds: Seq<Option<KindView>>,
) -> Outcome<Option<Seq<ValueView>>> {
    table::after_sync::<E, Option<Seq<ValueView>>>(
        service.table_of().model(),
        |c: Contents| table::row_in(c, t, convert::values_of(kinds)),
    ).1
}

/// After a delete request that succeeded, a get request with the same table and key is
/// answered that nothing is found.
pub proof fn deleted_row_is_not_found<E: Engine>(
    before: RelosTableService<E>,
    after: RelosTableService<E>,
    t: Seq<char>,
    kinds: Seq<Option<KindView>>,
    r: Result<DeleteResponse, Status>,
    answer: Result<GetResponse, Status>,
)
    requires
        RelosTableService::<E>::served(before, after, service::delete_command(t, kinds), r),
        r is Ok,
        before.table_of().steady() || before.table_of().coherent(),
        key_laws::key_fits(convert::values_of(kinds)),
        ({
            let c = CommandView::Delete { table: t, key: convert::values_of(kinds) };
            layer_laws::serves::<E>(before.table_of().model(), table::command_entry(c), c)
        }),
        service::got(answer, asked_for(after, t, kinds)),
    ensures
        answer is Ok,
        !answer->Ok_0.found,
        answer->Ok_0.row is None,
{
    let m = before.table_of().model();
    let c = service::delete_command(t, kinds)->Ok_0;
    let key = convert::values_of(kinds);
    delete_asks_for_its_key(t, kinds, key);
    assert(layer_laws::serves::<E>(m, table::command_entry(c), c));
    layer_laws::delete_is_seen::<E>(m, t, key);
    assert(asked_for(after, t, kinds) == layer_laws::get::<E>(
        DelosTable::<E>::execute(m, c).0,
        t,
        key,
    ));
}

/// After a put request that succeeded, a get request with the same table and the row's
/// primary key is answered with the row, value by value.
pub proof fn put_row_is_found<E: Engine>(
    before: RelosTableService<E>,
    after: RelosTableService<E>,
    t: Seq<char>,
    message: messages::Row,
    s: SchemaView,
    kinds: Seq<Option<KindView>>,
    r: Result<PutResponse, Status>,
    answer: Result<GetResponse, Status>,
)
    requires
        RelosTableService::<E>::served(before, after, service::put_command(t, Some(message)), r),
        r is Ok,
        before.table_of().steady() || before.table_of().coherent(),
        schema::row_bytes(convert::values_of(message@)).len() <= u64::MAX,
        ({
            let c = CommandView::Put { table: t, row: convert::values_of(message@) };
            layer_laws::serves::<E>(before.table_of().model(), table::command_entry(c), c)
        }),
        applicator::schema_in(E::contents_of(after.table_of().model()), t) == Result::<
            Option<SchemaView>,
            ErrorView,
        >::Ok(Some(s)),
        applicator::primary_key_of(s.columns, convert::values_of(message@), s.primary_key)
            == Result::<Seq<ValueView>, ErrorView>::Ok(convert::values_of(kinds)),
        service::got(answer, asked_for(after, t, kinds)),
    ensures
        answer is Ok,
        answer->Ok_0.found,
        answer->Ok_0.row is Some,
        stand_for(answer->Ok_0.row->0@, convert::values_of(message@)),
{
    let m = before.table_of().model();
    let row = convert::values_of(message@);
    let c = service::put_command(t, Some(message))->Ok_0;
    values_are_converted_one_by_one(message@, row);
    put_asks_for_its_row(t, message, row);
    assert(layer_laws::serves::<E>(m, table::command_entry(c), c));
    layer_laws::put_is_read_back::<E>(m, t, row);
    assert(asked_for(after, t, kinds) == layer_laws::get::<E>(
        DelosTable::<E>::execute(m, c).0,
        t,
        convert::values_of(kinds),
    ));
    get_answers_the_row(answer, asked_for(after, t, kinds));
}

/// A request that is not valid changes nothing. The command of one that is valid is
/// executed, and the answer is what it came to.
pub proof fn write_request_is_served<E: Engine, T>(
    before: RelosTableService<E>,
    after: RelosTableService<E>,
    command: Result<CommandView, StatusView>,
    r: Result<T, Status>,
)
    requires
        RelosTableService::<E>::served(before, after, command, r),
    ensures
        command is Err ==> after == before && r is Err && r->Err_0@ == command->Err_0,
        command is Ok && before.table_of().steady() ==> {
            let (next, o) = DelosTable::<E>::execute(before.table_of().model(), command->Ok_0);
            &&& after.table_of().steady()
            &&& after.table_of().model() == next
            &&& o is Done <==> r is Ok
            &&& o is Failed ==> r->Err_0@ == convert::status_of(o->Failed_0)
        },
{
}

/// The contents of the values of a message are those of each.
pub proof fn message_is_seen_one_by_one(values: Seq<messages::Value>, i: int)
    ensures
        messages::values_view(values).len() == values.len(),
        0 <= i < values.len() ==> messages::values_view(values)[i] == values[i]@,
{
}

/// What a conversion returned is what it is held to: the same value, or the same failure.
pub proof fn conversion_is_exact<T: View>(r: Result<T, Status>, o: Result<T::V, StatusView>)
    requires
        convert::converted(r, o),
    ensures
        r is Ok ==> o == Result::<T::V, StatusView>::Ok(r->Ok_0@),
        r is Err ==> o == Result::<T::V, StatusView>::Err(r->Err_0@),
{
}

} // verus!
