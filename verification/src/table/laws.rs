//! What holds between table operations.

use vstd::prelude::*;

use crate::base::codec;
use crate::base::error::ErrorView;
use crate::base::types::LogPos;
use crate::engine::base_engine;
use crate::engine::base_engine::BaseModel;
use crate::engine::traits::{Outcome, ReturnView};
use crate::store::sorted_map;
use crate::store::sorted_map::{Contents, PairView};
use crate::table::applicator;
use crate::table::applicator::TableApplicator;
use crate::table::command;
use crate::table::command::{CommandView, ResponseView};
use crate::table::key_laws;
use crate::table::keys;
use crate::table::schema;
use crate::table::schema::{SchemaView, ValueView};
use crate::table::table;

verus! {

/// A command that was carried out on `contents`.
pub open spec fn carried_out(contents: Contents, c: CommandView) -> bool {
    applicator::command_step(contents, c).result == Result::<ReturnView, ErrorView>::Ok(
        ReturnView::Data(ResponseView::Done.bytes()),
    )
}

/// The contents after a command.
pub open spec fn after(contents: Contents, c: CommandView) -> Contents {
    applicator::command_step(contents, c).contents
}

/// An error response differs from the response of a command that was carried out.
pub(crate) proof fn error_is_no_success(m: Seq<char>)
    ensures
        ResponseView::Error(m).bytes() != ResponseView::Done.bytes(),
{
    codec::u32_round_trip(0, Seq::empty());
    codec::u32_round_trip(1, Seq::empty());
    codec::u64_round_trip(vstd::utf8::encode_utf8(m).len() as u64, Seq::empty());
    assert(ResponseView::Error(m).bytes().len() >= 12);
}

/// A command that is refused or fails changes nothing.
pub proof fn refusal_changes_nothing(contents: Contents, c: CommandView)
    requires
        !carried_out(contents, c),
    ensures
        after(contents, c) == contents,
{
}

/// What a put that is carried out says of the table and the row: the table exists,
/// the row has a value for each column, and the primary key is in it.
proof fn put_conditions(contents: Contents, table: Seq<char>, row: Seq<ValueView>) -> (r: (
    SchemaView,
    Seq<ValueView>,
))
    requires
        carried_out(contents, CommandView::Put { table, row }),
    ensures
        applicator::schema_in(contents, table) == Result::<Option<SchemaView>, ErrorView>::Ok(
            Some(r.0),
        ),
        row.len() == r.0.columns.len(),
        applicator::primary_key_of(r.0.columns, row, r.0.primary_key) == Result::<
            Seq<ValueView>,
            ErrorView,
        >::Ok(r.1),
        after(contents, CommandView::Put { table, row }) == contents.insert(
            keys::row_key(table, r.1),
            schema::row_bytes(row),
        ),
{
    error_is_no_success(applicator::absent_text(table));
    let s = applicator::schema_in(contents, table)->Ok_0->0;
    error_is_no_success(applicator::length_text(row.len(), s.columns.len()));
    let key = applicator::primary_key_of(s.columns, row, s.primary_key)->Ok_0;
    (s, key)
}

/// A row that was put is found under its primary key, the other rows stay, and no
/// schema changes.
pub proof fn put_then_get(
    contents: Contents,
    table: Seq<char>,
    row: Seq<ValueView>,
    u: Seq<char>,
    other: Seq<ValueView>,
)
    requires
        carried_out(contents, CommandView::Put { table, row }),
        schema::row_bytes(row).len() <= u64::MAX,
        key_laws::key_fits(other),
    ensures
        ({
            let next = after(contents, CommandView::Put { table, row });
            let s = applicator::schema_in(contents, table)->Ok_0->0;
            let key = applicator::primary_key_of(s.columns, row, s.primary_key)->Ok_0;
            &&& table::row_in(next, table, key) == Result::<Option<Seq<ValueView>>, ErrorView>::Ok(
                Some(row),
            )
            &&& (u, other) != (table, key) ==> table::row_in(next, u, other) == table::row_in(
                contents,
                u,
                other,
            )
            &&& applicator::schema_in(next, u) == applicator::schema_in(contents, u)
        }),
{
    let (s, key) = put_conditions(contents, table, row);
    schema::row_round_trip(row, Seq::empty());
    assert(schema::row_bytes(row) + Seq::<u8>::empty() == schema::row_bytes(row));
    key_of_row_fits(s.columns, row, s.primary_key);
    if keys::row_key(u, other) == keys::row_key(table, key) {
        key_laws::row_key_injective(u, other, table, key);
    }
    key_laws::kinds_are_apart(u, table, key);
}

/// The values of a row that fits are values that fit.
pub(crate) proof fn key_of_row_fits(
    columns: Seq<schema::ColumnView>,
    row: Seq<ValueView>,
    names: Seq<Seq<char>>,
)
    requires
        schema::row_bytes(row).len() <= u64::MAX,
        applicator::primary_key_of(columns, row, names) is Ok,
    ensures
        key_laws::key_fits(applicator::primary_key_of(columns, row, names)->Ok_0),
    decreases names.len(),
{
    if names.len() > 0 {
        key_of_row_fits(columns, row, names.drop_last());
        let front = applicator::primary_key_of(columns, row, names.drop_last())->Ok_0;
        let i = applicator::column_index(columns, names.last())->0 as int;
        let write = |v: ValueView| schema::value_bytes(v);
        codec::items_bytes_len(row, write, 0);
        assert(write(row[i]).len() <= codec::items_bytes(row, write).len());
        codec::u64_round_trip(row.len() as u64, Seq::empty());
        let key = front.push(row[i]);
        assert forall|j: int| 0 <= j < key.len() implies (
        #[trigger] schema::value_bytes(key[j])).len() <= u64::MAX by {
            if j < front.len() {
                assert(key[j] == front[j]);
            }
        }
    }
}

/// A row that was deleted is not found, the other rows stay, and no schema
/// changes.
pub proof fn delete_then_get(
    contents: Contents,
    table: Seq<char>,
    key: Seq<ValueView>,
    u: Seq<char>,
    other: Seq<ValueView>,
)
    requires
        carried_out(contents, CommandView::Delete { table, key }),
        key_laws::key_fits(key),
        key_laws::key_fits(other),
    ensures
        ({
            let next = after(contents, CommandView::Delete { table, key });
            &&& table::row_in(next, table, key) == Result::<Option<Seq<ValueView>>, ErrorView>::Ok(
                None,
            )
            &&& (u, other) != (table, key) ==> table::row_in(next, u, other) == table::row_in(
                contents,
                u,
                other,
            )
            &&& applicator::schema_in(next, u) == applicator::schema_in(contents, u)
        }),
{
    error_is_no_success(applicator::absent_text(table));
    if keys::row_key(u, other) == keys::row_key(table, key) {
        key_laws::row_key_injective(u, other, table, key);
    }
    key_laws::kinds_are_apart(u, table, key);
}

/// A table that was created has its schema, the other schemas stay, and no row
/// changes. It cannot be created a second time.
pub proof fn create_then_use(
    contents: Contents,
    s: SchemaView,
    u: Seq<char>,
    key: Seq<ValueView>,
    again: SchemaView,
)
    requires
        carried_out(contents, CommandView::CreateTable(s)),
        schema::schema_bytes(s).len() <= u64::MAX,
        again.name == s.name,
    ensures
        ({
            let next = after(contents, CommandView::CreateTable(s));
            &&& applicator::schema_in(next, s.name) == Result::<Option<SchemaView>, ErrorView>::Ok(
                Some(s),
            )
            &&& u != s.name ==> applicator::schema_in(next, u) == applicator::schema_in(
                contents,
                u,
            )
            &&& table::row_in(next, u, key) == table::row_in(contents, u, key)
            &&& applicator::command_step(next, CommandView::CreateTable(again))
                == applicator::answered(
                next,
                ResponseView::Error(applicator::exists_text(s.name)),
            )
        }),
{
    error_is_no_success(applicator::exists_text(s.name));
    schema::schema_round_trip(s, Seq::empty());
    assert(schema::schema_bytes(s) + Seq::<u8>::empty() == schema::schema_bytes(s));
    if keys::schema_key(u) == keys::schema_key(s.name) {
        key_laws::schema_key_injective(u, s.name);
    }
    key_laws::kinds_are_apart(s.name, u, key);
}

/// A table that was dropped is gone with all its rows. Other tables stay, with
/// their rows.
pub proof fn drop_then_get(
    contents: Contents,
    table: Seq<char>,
    key: Seq<ValueView>,
    u: Seq<char>,
    other: Seq<ValueView>,
)
    requires
        carried_out(contents, CommandView::DropTable { table }),
        u != table,
    ensures
        ({
            let next = after(contents, CommandView::DropTable { table });
            &&& applicator::schema_in(next, table) == Result::<
                Option<SchemaView>,
                ErrorView,
            >::Ok(None)
            &&& table::row_in(next, table, key) == Result::<Option<Seq<ValueView>>, ErrorView>::Ok(
                None,
            )
            &&& applicator::schema_in(next, u) == applicator::schema_in(contents, u)
            &&& table::row_in(next, u, other) == table::row_in(contents, u, other)
        }),
{
    error_is_no_success(applicator::absent_text(table));
    key_laws::row_tells_its_table(table, table, key);
    key_laws::row_tells_its_table(table, u, other);
    key_laws::kinds_are_apart(table, u, other);
    key_laws::kinds_are_apart(table, table, key);
    if keys::schema_key(u) == keys::schema_key(table) {
        key_laws::schema_key_injective(u, table);
    }
}

/// Commands on a table that does not exist are refused with the text that says so.
pub proof fn absent_table_is_refused(
    contents: Contents,
    table: Seq<char>,
    row: Seq<ValueView>,
    key: Seq<ValueView>,
)
    requires
        !contents.contains_key(keys::schema_key(table)),
    ensures
        ({
            let refused = applicator::answered(
                contents,
                ResponseView::Error(applicator::absent_text(table)),
            );
            &&& applicator::command_step(contents, CommandView::Put { table, row }) == refused
            &&& applicator::command_step(contents, CommandView::Delete { table, key }) == refused
            &&& applicator::command_step(contents, CommandView::DropTable { table }) == refused
        }),
{
}

proof fn decoded_row(pairs: Seq<PairView>, i: int)
    requires
        table::decoded_rows(pairs) is Ok,
        0 <= i < pairs.len(),
    ensures
        table::decoded_rows(pairs)->Ok_0.len() == pairs.len(),
        schema::parse_row(pairs[i].1) is Ok,
        table::decoded_rows(pairs)->Ok_0[i] == schema::parse_row(pairs[i].1)->Ok_0.0,
    decreases pairs.len(),
{
    if i < pairs.len() - 1 {
        decoded_row(pairs.drop_last(), i);
        assert(pairs.drop_last()[i] == pairs[i]);
    } else if pairs.len() > 1 {
        decoded_row(pairs.drop_last(), 0);
    }
}

/// The store entries that hold rows of a table: those under its prefix that are
/// none of another table's.
pub open spec fn row_entries(contents: Contents, table: Seq<char>) -> Seq<PairView> {
    table::own_pairs(sorted_map::scan_of(contents, keys::row_prefix(table)), table)
}

/// Part of ascending store entries is ascending.
proof fn own_pairs_ascend(pairs: Seq<PairView>, table: Seq<char>, n: int)
    requires
        sorted_map::ascending(pairs),
        0 <= n <= pairs.len(),
    ensures
        sorted_map::ascending(table::own_pairs(pairs.take(n), table)),
        forall|i: int|
            0 <= i < table::own_pairs(pairs.take(n), table).len() ==> exists|j: int|
                0 <= j < n && #[trigger] pairs[j] == (#[trigger] table::own_pairs(
                    pairs.take(n),
                    table,
                )[i]),
    decreases n,
{
    if n == 0 {
        reveal(Seq::filter);
    } else {
        own_pairs_ascend(pairs, table, n - 1);
        table::own_pairs_next(pairs, table, n - 1);
        let before = table::own_pairs(pairs.take(n - 1), table);
        let now = table::own_pairs(pairs.take(n), table);
        assert forall|i: int| 0 <= i < now.len() implies exists|j: int|
            0 <= j < n && #[trigger] pairs[j] == #[trigger] now[i] by {
            if i < before.len() {
                assert(now[i] == before[i]);
                let j = choose|j: int| 0 <= j < n - 1 && #[trigger] pairs[j] == before[i];
                assert(pairs[j] == now[i]);
            } else {
                assert(pairs[n - 1] == now[i]);
            }
        }
    }
}

/// The entries that hold rows of a table are those in the store whose keys are of
/// its rows, each once and in ascending order.
proof fn row_entries_are_rows(contents: Contents, table: Seq<char>)
    requires
        contents.dom().finite(),
    ensures
        ({
            let pairs = row_entries(contents, table);
            &&& sorted_map::ascending(pairs)
            &&& forall|i: int|
                0 <= i < pairs.len() ==> keys::is_row_of(table, (#[trigger] pairs[i]).0)
                    && contents.contains_key(pairs[i].0) && contents[pairs[i].0] == pairs[i].1
            &&& forall|k: Seq<u8>|
                contents.contains_key(k) && keys::is_row_of(table, k)
                    ==> #[trigger] sorted_map::has_key(pairs, k)
        }),
{
    broadcast use vstd::seq_lib::group_filter_ensures;

    let all = sorted_map::scan_of(contents, keys::row_prefix(table));
    let pairs = row_entries(contents, table);
    sorted_map::scan_exists(contents, keys::row_prefix(table));
    own_pairs_ascend(all, table, all.len() as int);
    assert(all.take(all.len() as int) == all);
    assert forall|k: Seq<u8>|
        contents.contains_key(k) && keys::is_row_of(
            table,
            k,
        ) implies #[trigger] sorted_map::has_key(pairs, k) by {
        assert(sorted_map::has_key(all, k));
        let i = choose|i: int| 0 <= i < all.len() && (#[trigger] all[i]).0 == k;
        assert(pairs.contains(all[i]));
        let j = choose|j: int| 0 <= j < pairs.len() && pairs[j] == all[i];
        assert(pairs[j].0 == k);
    }
}

/// A scan returns every row of the table.
pub proof fn scan_finds_row(contents: Contents, table: Seq<char>, key: Seq<ValueView>)
    requires
        contents.dom().finite(),
        table::rows_in(contents, table) is Ok,
        contents.contains_key(keys::row_key(table, key)),
    ensures
        table::row_in(contents, table, key) is Ok,
        table::row_in(contents, table, key)->Ok_0 is Some,
        table::rows_in(contents, table)->Ok_0.contains(
            table::row_in(contents, table, key)->Ok_0->0,
        ),
{
    let pairs = row_entries(contents, table);
    row_entries_are_rows(contents, table);
    key_laws::row_tells_its_table(table, table, key);
    assert(sorted_map::has_key(pairs, keys::row_key(table, key)));
    let i = choose|i: int|
        0 <= i < pairs.len() && (#[trigger] pairs[i]).0 == keys::row_key(table, key);
    decoded_row(pairs, i);
    let rows = table::rows_in(contents, table)->Ok_0;
    assert(rows[i] == table::row_in(contents, table, key)->Ok_0->0);
}

/// What a scan returns is what the store holds under the keys of the table's rows,
/// each once and in the ascending order of the keys: it holds no row of another
/// table.
pub proof fn scan_returns_stored_rows(contents: Contents, table: Seq<char>, i: int)
    requires
        contents.dom().finite(),
        table::rows_in(contents, table) is Ok,
        0 <= i < table::rows_in(contents, table)->Ok_0.len(),
    ensures
        ({
            let pairs = row_entries(contents, table);
            let rows = table::rows_in(contents, table)->Ok_0;
            &&& sorted_map::ascending(pairs)
            &&& rows.len() == pairs.len()
            &&& contents.contains_key(pairs[i].0)
            &&& keys::is_row_of(table, pairs[i].0)
            &&& schema::parse_row(contents[pairs[i].0]) is Ok
            &&& rows[i] == schema::parse_row(contents[pairs[i].0])->Ok_0.0
            &&& forall|u: Seq<char>, key: Seq<ValueView>|
                u != table ==> pairs[i].0 != #[trigger] keys::row_key(u, key)
        }),
{
    let pairs = row_entries(contents, table);
    row_entries_are_rows(contents, table);
    if pairs.len() > 0 {
        decoded_row(pairs, 0);
    }
    decoded_row(pairs, i);
    assert(contents[pairs[i].0] == pairs[i].1);
    assert forall|u: Seq<char>, key: Seq<ValueView>| u != table implies pairs[i].0
        != #[trigger] keys::row_key(u, key) by {
        key_laws::row_tells_its_table(table, u, key);
    }
}

/// A table that was dropped has no rows to scan.
pub proof fn drop_then_scan(contents: Contents, table: Seq<char>)
    requires
        contents.dom().finite(),
        carried_out(contents, CommandView::DropTable { table }),
    ensures
        table::rows_in(after(contents, CommandView::DropTable { table }), table) == Result::<
            Seq<Seq<ValueView>>,
            ErrorView,
        >::Ok(Seq::empty()),
{
    let next = after(contents, CommandView::DropTable { table });
    error_is_no_success(applicator::absent_text(table));
    assert(next.dom().subset_of(contents.dom()));
    vstd::set_lib::lemma_set_subset_finite(contents.dom(), next.dom());
    row_entries_are_rows(next, table);
    let pairs = row_entries(next, table);
    if pairs.len() > 0 {
        assert(keys::is_row_of(table, pairs[0].0));
        assert(next.contains_key(pairs[0].0));
    }
}

/// Whatever the store holds for tables can be read: each row and each schema.
pub open spec fn readable(contents: Contents) -> bool {
    &&& contents.dom().finite()
    &&& forall|t: Seq<char>, k: Seq<u8>|
        contents.contains_key(k) && #[trigger] keys::is_row_of(t, k) ==> schema::parse_row(
            contents[k],
        ) is Ok
    &&& forall|t: Seq<char>|
        contents.contains_key(#[trigger] keys::schema_key(t)) ==> schema::parse_schema(
            contents[keys::schema_key(t)],
        ) is Ok
}

/// The encodings of what a command stores are within the limits of the encoding.
pub open spec fn command_fits(c: CommandView) -> bool {
    match c {
        CommandView::CreateTable(s) => schema::schema_bytes(s).len() <= u64::MAX,
        CommandView::Put { table: _, row } => schema::row_bytes(row).len() <= u64::MAX,
        _ => true,
    }
}

/// Commands store what can be read, and the engine's cursor is no part of a table:
/// from an empty store on, everything can be read.
pub proof fn tables_stay_readable(contents: Contents, c: CommandView, cursor: LogPos)
    requires
        readable(contents),
        command_fits(c),
    ensures
        readable(Map::empty()),
        readable(after(contents, c)),
        readable(base_engine::with_cursor(contents, cursor)),
{
    let next = after(contents, c);
    let marked = base_engine::with_cursor(contents, cursor);
    match c {
        CommandView::CreateTable(s) => {
            schema::schema_round_trip(s, Seq::empty());
            assert(schema::schema_bytes(s) + Seq::<u8>::empty() == schema::schema_bytes(s));
        },
        CommandView::Put { table: _, row } => {
            schema::row_round_trip(row, Seq::empty());
            assert(schema::row_bytes(row) + Seq::<u8>::empty() == schema::row_bytes(row));
        },
        CommandView::DropTable { table: _ } => {
            assert(next.dom().subset_of(contents.dom()));
            vstd::set_lib::lemma_set_subset_finite(contents.dom(), next.dom());
        },
        CommandView::Delete { table: _, key: _ } => {},
    }
    assert forall|t: Seq<char>, k: Seq<u8>|
        next.contains_key(k) && #[trigger] keys::is_row_of(t, k) implies schema::parse_row(
        next[k],
    ) is Ok by {
        if let CommandView::CreateTable(s) = c {
            key_laws::row_tells_its_table(t, s.name, Seq::empty());
        }
        if contents.contains_key(k) {
            assert(schema::parse_row(contents[k]) is Ok);
        }
    }
    assert forall|t: Seq<char>|
        next.contains_key(#[trigger] keys::schema_key(t)) implies schema::parse_schema(
        next[keys::schema_key(t)],
    ) is Ok by {
        if let CommandView::Put { table, row } = c {
            let s = applicator::schema_in(contents, table)->Ok_0->0;
            let key = applicator::primary_key_of(s.columns, row, s.primary_key)->Ok_0;
            key_laws::kinds_are_apart(t, table, key);
        }
        if contents.contains_key(keys::schema_key(t)) {
            assert(schema::parse_schema(contents[keys::schema_key(t)]) is Ok);
        }
    }
    assert forall|t: Seq<char>, k: Seq<u8>|
        marked.contains_key(k) && #[trigger] keys::is_row_of(t, k) implies schema::parse_row(
        marked[k],
    ) is Ok by {
        key_laws::row_tells_its_table(t, t, Seq::empty());
        assert(k != base_engine::cursor_key());
    }
    assert forall|t: Seq<char>|
        marked.contains_key(#[trigger] keys::schema_key(t)) implies schema::parse_schema(
        marked[keys::schema_key(t)],
    ) is Ok by {
        key_laws::kinds_are_apart(t, t, Seq::empty());
    }
}

proof fn all_decoded(pairs: Seq<PairView>)
    requires
        forall|i: int| 0 <= i < pairs.len() ==> schema::parse_row((#[trigger] pairs[i]).1) is Ok,
    ensures
        table::decoded_rows(pairs) is Ok,
    decreases pairs.len(),
{
    if pairs.len() > 0 {
        all_decoded(pairs.drop_last());
        assert(schema::parse_row(pairs[pairs.len() - 1].1) is Ok);
    }
}

/// Where everything can be read, gets and scans succeed.
pub proof fn readable_tables_are_read(contents: Contents, table: Seq<char>, key: Seq<ValueView>)
    requires
        readable(contents),
    ensures
        table::row_in(contents, table, key) is Ok,
        table::rows_in(contents, table) is Ok,
        applicator::schema_in(contents, table) is Ok,
{
    key_laws::row_tells_its_table(table, table, key);
    assert(keys::is_row_of(table, keys::row_key(table, key)));
    row_entries_are_rows(contents, table);
    let pairs = row_entries(contents, table);
    assert forall|i: int| 0 <= i < pairs.len() implies schema::parse_row(
        (#[trigger] pairs[i]).1,
    ) is Ok by {
        assert(keys::is_row_of(table, pairs[i].0));
    }
    all_decoded(pairs);
}

// On an engine

/// A command on a table above a [`BaseEngine`](crate::engine::BaseEngine).
pub open spec fn execute(m: BaseModel<()>, c: CommandView) -> (BaseModel<()>, Outcome<()>) {
    let (next, o) = base_engine::base_propose::<TableApplicator>(m, table::command_entry(c));
    (next, table::checked(o))
}

/// A get on a table above a [`BaseEngine`](crate::engine::BaseEngine).
pub open spec fn get(m: BaseModel<()>, table: Seq<char>, key: Seq<ValueView>) -> (
    BaseModel<()>,
    Outcome<Option<Seq<ValueView>>>,
) {
    match base_engine::base_sync::<TableApplicator>(m) {
        (next, Outcome::Done(_)) => match table::row_in(next.contents, table, key) {
            Ok(v) => (next, Outcome::Done(v)),
            Err(e) => (next, Outcome::Failed(e)),
        },
        (next, Outcome::Failed(e)) => (next, Outcome::Failed(e)),
    }
}

/// A table's commands and gets are those of an engine stack that is a base engine.
pub proof fn table_on_base_engine<
    L: crate::log::loglet::Loglet,
    S: crate::store::traits::LocalStore,
>(m: BaseModel<()>, c: CommandView, table: Seq<char>, key: Seq<ValueView>)
    ensures
        table::DelosTable::<
            crate::engine::base_engine::BaseEngine<L, S, TableApplicator>,
        >::execute(m, c) == execute(m, c),
        table::after_sync::<
            crate::engine::base_engine::BaseEngine<L, S, TableApplicator>,
            Option<Seq<ValueView>>,
        >(m, |x: Contents| table::row_in(x, table, key)) == get(m, table, key),
{
}

/// What a command is answered that came to `r` when it was applied.
pub open spec fn answer(r: Result<ReturnView, ErrorView>) -> Outcome<()> {
    match r {
        Ok(v) => table::checked(Outcome::Done(v)),
        Err(e) => Outcome::Failed(e),
    }
}

/// A command is applied to what the store holds once the log before it is
/// applied, and answered with what that comes to. Where it fails the store keeps
/// what it held.
pub proof fn command_is_executed(m: BaseModel<()>, c: CommandView)
    requires
        m.log.wf(),
        m.log.trim <= m.log.tail < u64::MAX,
        m.cursor <= m.log.tail,
        m.log.sealed ==> m.chained,
        c.bytes().len() <= u64::MAX,
        base_engine::base_sync::<TableApplicator>(m).1 is Done,
    ensures
        ({
            let before = base_engine::base_sync::<TableApplicator>(m).0.contents;
            let step = applicator::command_step(before, c);
            &&& execute(m, c).1 == answer(step.result)
            &&& step.result is Ok ==> execute(m, c).0.contents == base_engine::with_cursor(
                step.contents,
                (m.log.tail + 1) as LogPos,
            )
            &&& step.result is Err ==> execute(m, c).0.contents == before
        }),
{
    let e = table::command_entry(c);
    let log = if m.log.sealed {
        m.log.reopened().appended(e)
    } else {
        m.log.appended(e)
    };
    let start = BaseModel { log, ..m };
    let tail = m.log.tail;
    let end = (tail + 1) as LogPos;
    assert forall|p: LogPos| p < m.log.tail implies #[trigger] log.entry(p) == m.log.entry(p) by {}
    base_engine::play_same_prefix::<TableApplicator>(m, log, tail, ReturnView::Success);
    base_engine::play_splits::<TableApplicator>(start, tail, end, ReturnView::Success);
    base_engine::play_reaches::<TableApplicator>(start, tail, ReturnView::Success);
    let (mid, first) = base_engine::play::<TableApplicator>(start, tail, ReturnView::Success);
    assert(first is Done);
    assert(mid.cursor == tail);
    assert(mid.contents == base_engine::base_sync::<TableApplicator>(m).0.contents);
    reveal_with_fuel(base_engine::play, 2);
    assert(log.entry(tail) == Some(e));
    command::command_round_trip(c);
}

/// A command that can be carried out succeeds.
pub proof fn valid_command_succeeds(m: BaseModel<()>, c: CommandView)
    requires
        m.log.wf(),
        m.log.trim <= m.log.tail < u64::MAX,
        m.cursor <= m.log.tail,
        m.log.sealed ==> m.chained,
        c.bytes().len() <= u64::MAX,
        base_engine::base_sync::<TableApplicator>(m).1 is Done,
        carried_out(base_engine::base_sync::<TableApplicator>(m).0.contents, c),
    ensures
        execute(m, c).1 == Outcome::<()>::Done(()),
        execute(m, c).0.contents == base_engine::with_cursor(
            after(base_engine::base_sync::<TableApplicator>(m).0.contents, c),
            (m.log.tail + 1) as LogPos,
        ),
{
    command_is_executed(m, c);
    codec::u32_round_trip(0, Seq::empty());
    command::response_round_trip(ResponseView::Done);
}

/// A command that is refused is answered with the reason, as an invalid
/// operation, and the tables stay as they were.
pub proof fn refusal_is_reported(m: BaseModel<()>, c: CommandView, reason: Seq<char>)
    requires
        m.log.wf(),
        m.log.trim <= m.log.tail < u64::MAX,
        m.cursor <= m.log.tail,
        m.log.sealed ==> m.chained,
        c.bytes().len() <= u64::MAX,
        ResponseView::Error(reason).bytes().len() <= u64::MAX,
        base_engine::base_sync::<TableApplicator>(m).1 is Done,
        ({
            let before = base_engine::base_sync::<TableApplicator>(m).0.contents;
            applicator::command_step(before, c) == applicator::answered(
                before,
                ResponseView::Error(reason),
            )
        }),
    ensures
        execute(m, c).1 == Outcome::<()>::Failed(ErrorView::InvalidOperation(reason)),
        execute(m, c).0.contents == base_engine::with_cursor(
            base_engine::base_sync::<TableApplicator>(m).0.contents,
            (m.log.tail + 1) as LogPos,
        ),
{
    command_is_executed(m, c);
    command::response_round_trip(ResponseView::Error(reason));
}

/// A command that succeeded was carried out on what the store held once the log
/// before it was applied, and the engine has applied the whole log.
pub proof fn success_was_carried_out(m: BaseModel<()>, c: CommandView) -> (before: Contents)
    requires
        m.cursor <= m.log.tail < u64::MAX,
        c.bytes().len() <= u64::MAX,
        execute(m, c).1 is Done,
    ensures
        carried_out(before, c),
        execute(m, c).0.contents == base_engine::with_cursor(
            after(before, c),
            (m.log.tail + 1) as LogPos,
        ),
        execute(m, c).0.cursor == execute(m, c).0.log.tail,
        base_engine::base_sync::<TableApplicator>(execute(m, c).0) == (
            execute(m, c).0,
            Outcome::<LogPos>::Done(execute(m, c).0.log.tail),
        ),
{
    let e = table::command_entry(c);
    let log = if m.log.sealed {
        m.log.reopened().appended(e)
    } else {
        m.log.appended(e)
    };
    let start = BaseModel { log, ..m };
    let tail = m.log.tail;
    let end = (tail + 1) as LogPos;
    base_engine::play_splits::<TableApplicator>(start, tail, end, ReturnView::Success);
    base_engine::play_reaches::<TableApplicator>(start, tail, ReturnView::Success);
    let (mid, first) = base_engine::play::<TableApplicator>(start, tail, ReturnView::Success);
    assert(first is Done);
    assert(mid.cursor == tail);
    let (next, o) = base_engine::apply_next::<TableApplicator>(mid);
    reveal_with_fuel(base_engine::play, 2);
    assert(o is Done);
    assert(log.entry(tail) == Some(e));
    command::command_round_trip(c);
    let step = applicator::command_step(mid.contents, c);
    assert(step.result is Ok);
    only_done_succeeds(mid.contents, c);
    mid.contents
}

/// Of the responses to commands only one makes a proposal succeed.
pub(crate) proof fn only_done_succeeds(contents: Contents, c: CommandView)
    requires
        applicator::command_step(contents, c).result is Ok,
        table::response_to(applicator::command_step(contents, c).result->Ok_0) is Ok,
    ensures
        carried_out(contents, c),
{
    assert forall|m: Seq<char>| table::response_to(
        ReturnView::Data(#[trigger] ResponseView::Error(m).bytes()),
    ) is Err by {
        codec::u32_round_trip(1, codec::str_bytes(m));
    }
}

/// A put that succeeded is read back by a get of its primary key.
pub proof fn put_is_read_back(m: BaseModel<()>, table: Seq<char>, row: Seq<ValueView>)
    requires
        m.cursor <= m.log.tail < u64::MAX,
        (CommandView::Put { table, row }).bytes().len() <= u64::MAX,
        execute(m, CommandView::Put { table, row }).1 is Done,
    ensures
        ({
            let next = execute(m, CommandView::Put { table, row }).0;
            let s = applicator::schema_in(next.contents, table)->Ok_0->0;
            let key = applicator::primary_key_of(s.columns, row, s.primary_key)->Ok_0;
            get(next, table, key) == (next, Outcome::<Option<Seq<ValueView>>>::Done(Some(row)))
        }),
{
    let c = CommandView::Put { table, row };
    let before = success_was_carried_out(m, c);
    let next = execute(m, c).0;
    codec::u32_round_trip(2, Seq::empty());
    let (s, key) = put_conditions(before, table, row);
    put_then_get(before, table, row, table, Seq::empty());
    key_laws::kinds_are_apart(table, table, key);
    assert(applicator::schema_in(next.contents, table) == applicator::schema_in(
        after(before, c),
        table,
    ));
    assert(table::row_in(next.contents, table, key) == table::row_in(
        after(before, c),
        table,
        key,
    ));
}

/// After a delete that succeeded a get of the primary key finds nothing.
pub proof fn delete_is_seen(m: BaseModel<()>, table: Seq<char>, key: Seq<ValueView>)
    requires
        m.cursor <= m.log.tail < u64::MAX,
        (CommandView::Delete { table, key }).bytes().len() <= u64::MAX,
        execute(m, CommandView::Delete { table, key }).1 is Done,
    ensures
        ({
            let next = execute(m, CommandView::Delete { table, key }).0;
            get(next, table, key) == (next, Outcome::<Option<Seq<ValueView>>>::Done(None))
        }),
{
    let c = CommandView::Delete { table, key };
    let before = success_was_carried_out(m, c);
    error_is_no_success(applicator::absent_text(table));
    key_laws::kinds_are_apart(table, table, key);
}

/// After a drop that succeeded a get in the table finds nothing.
pub proof fn drop_is_seen(m: BaseModel<()>, table: Seq<char>, key: Seq<ValueView>)
    requires
        m.cursor <= m.log.tail < u64::MAX,
        (CommandView::DropTable { table }).bytes().len() <= u64::MAX,
        execute(m, CommandView::DropTable { table }).1 is Done,
    ensures
        ({
            let next = execute(m, CommandView::DropTable { table }).0;
            get(next, table, key) == (next, Outcome::<Option<Seq<ValueView>>>::Done(None))
        }),
{
    let c = CommandView::DropTable { table };
    let before = success_was_carried_out(m, c);
    error_is_no_success(applicator::absent_text(table));
    key_laws::row_tells_its_table(table, table, key);
    key_laws::kinds_are_apart(table, table, key);
}

} // verus!
