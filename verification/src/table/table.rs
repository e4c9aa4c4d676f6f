//! The replicated table store.

use vstd::prelude::*;

use crate::base::entry::{Entry, EntryView};
use crate::base::error::{ErrorView, RelosError};
use crate::engine::traits::{Engine, Outcome, ReturnValue, ReturnView};
use crate::store::sorted_map;
use crate::store::sorted_map::{Contents, PairView};
use crate::store::traits::{LocalStore, ReadTransaction};
use crate::table::command::{CommandView, ResponseView, TableCommand, TableResponse};
use crate::table::keys;
use crate::table::schema;
use crate::table::schema::{Row, TableSchema, Value, ValueView};

verus! {

/// The entry that carries a command.
pub open spec fn command_entry(command: CommandView) -> EntryView {
    EntryView::plain(command.bytes())
}

/// What the return value of a proposed command says.
pub open spec fn response_to(v: ReturnView) -> Result<(), ErrorView> {
    match v {
        ReturnView::Success => Ok(()),
        ReturnView::Data(b) => match ResponseView::parse(b) {
            Err(m) => Err(ErrorView::Serialization(m)),
            Ok(ResponseView::Done) => Ok(()),
            Ok(ResponseView::Error(m)) => Err(ErrorView::InvalidOperation(m)),
        },
    }
}

/// What a proposed command comes to.
pub open spec fn checked(o: Outcome<ReturnView>) -> Outcome<()> {
    match o {
        Outcome::Done(v) => match response_to(v) {
            Ok(_) => Outcome::Done(()),
            Err(e) => Outcome::Failed(e),
        },
        Outcome::Failed(e) => Outcome::Failed(e),
    }
}

/// Whether a write returned what it should.
pub open spec fn wrote(r: Result<(), RelosError>, o: Outcome<()>) -> bool {
    match o {
        Outcome::Done(_) => r is Ok,
        Outcome::Failed(e) => r is Err && r->Err_0@ == e,
    }
}

/// The row under a primary key.
pub open spec fn row_in(contents: Contents, table: Seq<char>, key: Seq<ValueView>) -> Result<
    Option<Seq<ValueView>>,
    ErrorView,
> {
    match sorted_map::value_at(contents, keys::row_key(table, key)) {
        None => Ok(None),
        Some(b) => match schema::parse_row(b) {
            Ok((values, _)) => Ok(Some(values)),
            Err(m) => Err(ErrorView::Serialization(m)),
        },
    }
}

/// The rows that store entries hold; the first that cannot be read is reported.
pub open spec fn decoded_rows(pairs: Seq<PairView>) -> Result<Seq<Seq<ValueView>>, ErrorView>
    decreases pairs.len(),
{
    if pairs.len() == 0 {
        Ok(Seq::empty())
    } else {
        match decoded_rows(pairs.drop_last()) {
            Err(e) => Err(e),
            Ok(rows) => match schema::parse_row(pairs.last().1) {
                Ok((values, _)) => Ok(rows.push(values)),
                Err(m) => Err(ErrorView::Serialization(m)),
            },
        }
    }
}

/// Of store entries those that hold a row of the table.
pub open spec fn own_pairs(pairs: Seq<PairView>, table: Seq<char>) -> Seq<PairView> {
    pairs.filter(|p: PairView| keys::is_row_of(table, p.0))
}

/// The rows of a table, in the order of their store keys.
pub open spec fn rows_in(contents: Contents, table: Seq<char>) -> Result<
    Seq<Seq<ValueView>>,
    ErrorView,
> {
    decoded_rows(own_pairs(sorted_map::scan_of(contents, keys::row_prefix(table)), table))
}

/// What a read comes to: a sync, then `read` of what the store holds.
pub open spec fn after_sync<E: Engine, T>(
    m: E::Model,
    read: spec_fn(Contents) -> Result<T, ErrorView>,
) -> (E::Model, Outcome<T>) {
    match E::sync_step(m) {
        (next, Outcome::Done(_)) => match read(E::contents_of(next)) {
            Ok(v) => (next, Outcome::Done(v)),
            Err(e) => (next, Outcome::Failed(e)),
        },
        (next, Outcome::Failed(e)) => (next, Outcome::Failed(e)),
    }
}

/// The contents of a row that may be there.
pub open spec fn maybe_row(r: Option<Row>) -> Option<Seq<ValueView>> {
    match r {
        Some(row) => Some(row@),
        None => None,
    }
}

/// The contents of a list of rows.
pub open spec fn rows_view(rows: Seq<Row>) -> Seq<Seq<ValueView>> {
    rows.map_values(|row: Row| row@)
}

/// Whether a get returned what it should.
pub open spec fn got(
    r: Result<Option<Row>, RelosError>,
    o: Outcome<Option<Seq<ValueView>>>,
) -> bool {
    match o {
        Outcome::Done(v) => r is Ok && maybe_row(r->Ok_0) == v,
        Outcome::Failed(e) => r is Err && r->Err_0@ == e,
    }
}

/// Whether a scan returned what it should.
pub open spec fn scanned(
    r: Result<Vec<Row>, RelosError>,
    o: Outcome<Seq<Seq<ValueView>>>,
) -> bool {
    match o {
        Outcome::Done(v) => r is Ok && rows_view(r->Ok_0@) == v,
        Outcome::Failed(e) => r is Err && r->Err_0@ == e,
    }
}

/// Reads the reply to a proposed command.
pub fn check_response(ret: ReturnValue) -> (r: Result<(), RelosError>)
    ensures
        match (r, response_to(ret@)) {
            (Ok(_), Ok(_)) => true,
            (Err(e), Err(v)) => e@ == v,
            _ => false,
        },
{
    match ret {
        ReturnValue::Data(bytes) => match TableResponse::from_bytes(bytes.as_slice()) {
            Err(e) => Err(e),
            Ok(TableResponse::Success) => Ok(()),
            Ok(TableResponse::Error(msg)) => Err(RelosError::InvalidOperation(msg)),
        },
        ReturnValue::Success => Ok(()),
    }
}

/// Reads a row from the bytes under its key.
fn decode_row(bytes: &[u8]) -> (r: Result<Row, RelosError>)
    ensures
        match (r, schema::parse_row(bytes@)) {
            (Ok(row), Ok((values, _))) => row@ == values,
            (Err(e), Err(m)) => e@ == ErrorView::Serialization(m),
            _ => false,
        },
{
    match schema::take_values(bytes) {
        Ok((values, _)) => Ok(Row { values }),
        Err(e) => Err(RelosError::Serialization(e)),
    }
}

/// One more store entry: its row comes last, where it is one of the table.
pub(crate) proof fn own_pairs_next(pairs: Seq<PairView>, table: Seq<char>, n: int)
    requires
        0 <= n < pairs.len(),
    ensures
        own_pairs(pairs.take(n + 1), table) == if keys::is_row_of(table, pairs[n].0) {
            own_pairs(pairs.take(n), table).push(pairs[n])
        } else {
            own_pairs(pairs.take(n), table)
        },
{
    reveal(Seq::filter);
    let next = pairs.take(n + 1);
    assert(next.drop_last() == pairs.take(n));
    assert(next.last() == pairs[n]);
}

/// Reads the rows of a table from the store entries under its prefix.
pub fn decode_rows(entries: &Vec<(Vec<u8>, Vec<u8>)>, table: &str) -> (r: Result<
    Vec<Row>,
    RelosError,
>)
    requires
        forall|i: int|
            0 <= i < entries@.len() ==> sorted_map::starts_with(
                (#[trigger] entries@[i]).0@,
                keys::row_prefix(table@),
            ),
    ensures
        match (r, decoded_rows(own_pairs(sorted_map::pairs_view(entries@), table@))) {
            (Ok(rows), Ok(v)) => rows_view(rows@) == v,
            (Err(e), Err(v)) => e@ == v,
            _ => false,
        },
{
    let ghost pairs = sorted_map::pairs_view(entries@);
    let prefix = keys::row_prefix_of(table);
    let mut rows: Vec<Row> = Vec::new();
    let mut i: usize = 0;
    proof {
        reveal(Seq::filter);
        assert(pairs.take(0) == Seq::<PairView>::empty());
        assert(rows_view(rows@) == Seq::<Seq<ValueView>>::empty());
    }
    while i < entries.len()
        invariant
            i <= entries@.len(),
            pairs == sorted_map::pairs_view(entries@),
            prefix@ == keys::row_prefix(table@),
            forall|j: int|
                0 <= j < entries@.len() ==> sorted_map::starts_with(
                    (#[trigger] entries@[j]).0@,
                    prefix@,
                ),
            decoded_rows(own_pairs(pairs.take(i as int), table@)) == Result::<
                Seq<Seq<ValueView>>,
                ErrorView,
            >::Ok(rows_view(rows@)),
        decreases entries.len() - i,
    {
        let ghost before = own_pairs(pairs.take(i as int), table@);
        proof {
            own_pairs_next(pairs, table@, i as int);
            assert(pairs[i as int] == sorted_map::pair_view(entries@[i as int]));
            assert(before.push(pairs[i as int]).drop_last() == before);
        }
        if keys::ends_in_one_part(entries[i].0.as_slice(), prefix.len()) {
            match decode_row(entries[i].1.as_slice()) {
                Ok(row) => {
                    proof {
                        assert(rows_view(rows@.push(row)) == rows_view(rows@).push(row@));
                    }
                    rows.push(row);
                },
                Err(e) => {
                    proof {
                        failure_is_stable(pairs, table@, i + 1);
                    }
                    return Err(e);
                },
            }
        }
        i = i + 1;
    }
    assert(pairs.take(i as int) == pairs);
    Ok(rows)
}

/// The first entry that cannot be read decides.
proof fn failure_is_stable(pairs: Seq<PairView>, table: Seq<char>, n: int)
    requires
        0 <= n <= pairs.len(),
        decoded_rows(own_pairs(pairs.take(n), table)) is Err,
    ensures
        decoded_rows(own_pairs(pairs, table)) == decoded_rows(own_pairs(pairs.take(n), table)),
    decreases pairs.len() - n,
{
    if n < pairs.len() {
        let before = own_pairs(pairs.take(n), table);
        own_pairs_next(pairs, table, n);
        assert(before.push(pairs[n]).drop_last() == before);
        failure_is_stable(pairs, table, n + 1);
    } else {
        assert(pairs.take(n) == pairs);
    }
}

/// DelosTable — a replicated table store built on top of the engine stack.
///
/// Write operations (create_table, drop_table, put, delete) are proposed to the
/// shared log via the engine and applied by the `TableApplicator`.
///
/// Read operations (get, scan) sync the engine first to ensure we have caught up
/// with the log, then read directly from the local store.
pub struct DelosTable<E: Engine> {
    engine: E,
}

impl<E: Engine> DelosTable<E> {
    pub closed spec fn engine_of(&self) -> E {
        self.engine
    }

    /// The engine is in a valid state.
    pub open spec fn inv(&self) -> bool {
        self.engine_of().inv()
    }

    /// The state of the engine.
    pub open spec fn model(&self) -> E::Model {
        self.engine_of().model()
    }

    /// Nothing below the table fails.
    pub open spec fn steady(&self) -> bool {
        self.engine_of().steady()
    }

    /// What the table plays is one log, and no command waits below it.
    pub open spec fn coherent(&self) -> bool {
        self.engine_of().coherent()
    }

    /// The log holds `n` more entries.
    pub open spec fn has_room(&self, n: nat) -> bool {
        self.engine_of().has_room(n)
    }

    /// What a command changes and comes to.
    pub open spec fn execute(m: E::Model, command: CommandView) -> (E::Model, Outcome<()>) {
        let (next, o) = E::propose_step(m, command_entry(command));
        (next, checked(o))
    }

    /// What a write did to the table. Where something below it fails, a write that
    /// succeeds has done the same.
    pub open spec fn written(
        before: Self,
        after: Self,
        command: CommandView,
        r: Result<(), RelosError>,
    ) -> bool {
        &&& after.inv()
        &&& before.steady() ==> after.steady()
        &&& before.coherent() && r is Ok ==> after.coherent()
        &&& before.steady() || before.coherent() && r is Ok ==> {
            &&& after.model() == Self::execute(before.model(), command).0
            &&& wrote(r, Self::execute(before.model(), command).1)
            &&& forall|n: nat| before.has_room(n + 1) ==> #[trigger] after.has_room(n)
        }
    }

    pub fn new(engine: E) -> (table: Self)
        ensures
            table.engine_of() == engine,
    {
        DelosTable { engine }
    }

    /// The engine below.
    pub fn engine(&self) -> (engine: &E)
        ensures
            *engine == self.engine_of(),
    {
        &self.engine
    }

    /// Create a new table.
    pub fn create_table(&mut self, schema: TableSchema) -> (r: Result<(), RelosError>)
        requires
            old(self).inv(),
            old(self).has_room(1),
        ensures
            Self::written(*old(self), *final(self), CommandView::CreateTable(schema@), r),
    {
        let cmd = TableCommand::CreateTable(schema);
        self.propose_and_check(cmd)
    }

    /// Drop a table.
    pub fn drop_table(&mut self, table: &str) -> (r: Result<(), RelosError>)
        requires
            old(self).inv(),
            old(self).has_room(1),
        ensures
            Self::written(
                *old(self),
                *final(self),
                (CommandView::DropTable { table: table@ }),
                r,
            ),
    {
        let cmd = TableCommand::DropTable { table: table.to_owned() };
        self.propose_and_check(cmd)
    }

    /// Put a row (upsert).
    pub fn put(&mut self, table: &str, row: Row) -> (r: Result<(), RelosError>)
        requires
            old(self).inv(),
            old(self).has_room(1),
        ensures
            Self::written(
                *old(self),
                *final(self),
                (CommandView::Put { table: table@, row: row@ }),
                r,
            ),
    {
        let cmd = TableCommand::Put { table: table.to_owned(), row };
        self.propose_and_check(cmd)
    }

    /// Delete a row by primary key.
    pub fn delete(&mut self, table: &str, key: Vec<Value>) -> (r: Result<(), RelosError>)
        requires
            old(self).inv(),
            old(self).has_room(1),
        ensures
            Self::written(
                *old(self),
                *final(self),
                (CommandView::Delete { table: table@, key: schema::values_view(key@) }),
                r,
            ),
    {
        let cmd = TableCommand::Delete { table: table.to_owned(), key };
        self.propose_and_check(cmd)
    }

    /// Get a row by primary key (read-only — uses sync + local read).
    pub fn get(&mut self, table: &str, key: &[Value]) -> (r: Result<Option<Row>, RelosError>)
        requires
            old(self).inv(),
        ensures
            final(self).inv(),
            r is Ok ==> row_in(
                E::contents_of(final(self).model()),
                table@,
                schema::values_view(key@),
            ) == Result::<Option<Seq<ValueView>>, ErrorView>::Ok(maybe_row(r->Ok_0)),
            old(self).steady() ==> final(self).steady(),
            old(self).coherent() && r is Ok ==> final(self).coherent(),
            old(self).steady() || old(self).coherent() && r is Ok ==> {
                let read = |c: Contents| row_in(c, table@, schema::values_view(key@));
                let (next, o) = after_sync::<E, Option<Seq<ValueView>>>(old(self).model(), read);
                &&& final(self).model() == next
                &&& got(r, o)
                &&& forall|n: nat| old(self).has_room(n) ==> #[trigger] final(self).has_room(n)
            },
    {
        // Sync to ensure we have the latest state
        match self.engine.sync() {
            Ok(_) => {},
            Err(e) => return Err(e),
        }
        let txn = match self.engine.local_store().begin_read_txn() {
            Ok(t) => t,
            Err(e) => return Err(e),
        };
        let row_key = keys::row_key_of(table, key);
        match txn.get(row_key.as_slice()) {
            Err(e) => Err(e),
            Ok(None) => Ok(None),
            Ok(Some(bytes)) => match decode_row(bytes.as_slice()) {
                Ok(row) => Ok(Some(row)),
                Err(e) => Err(e),
            },
        }
    }

    /// Scan all rows in a table (read-only).
    pub fn scan(&mut self, table: &str) -> (r: Result<Vec<Row>, RelosError>)
        requires
            old(self).inv(),
        ensures
            final(self).inv(),
            r is Ok ==> rows_in(E::contents_of(final(self).model()), table@) == Result::<
                Seq<Seq<ValueView>>,
                ErrorView,
            >::Ok(rows_view(r->Ok_0@)),
            old(self).steady() ==> final(self).steady(),
            old(self).coherent() && r is Ok ==> final(self).coherent(),
            old(self).steady() || old(self).coherent() && r is Ok ==> {
                let read = |c: Contents| rows_in(c, table@);
                let (next, o) = after_sync::<E, Seq<Seq<ValueView>>>(old(self).model(), read);
                &&& final(self).model() == next
                &&& scanned(r, o)
                &&& forall|n: nat| old(self).has_room(n) ==> #[trigger] final(self).has_room(n)
            },
    {
        // Sync to ensure we have the latest state
        match self.engine.sync() {
            Ok(_) => {},
            Err(e) => return Err(e),
        }
        let txn = match self.engine.local_store().begin_read_txn() {
            Ok(t) => t,
            Err(e) => return Err(e),
        };
        let prefix = keys::row_prefix_of(table);
        match txn.prefix_scan(prefix.as_slice()) {
            Err(e) => Err(e),
            Ok(entries) => {
                proof {
                    let pairs = sorted_map::pairs_view(entries@);
                    assert forall|i: int| 0 <= i < entries@.len() implies sorted_map::starts_with(
                        (#[trigger] entries@[i]).0@,
                        prefix@,
                    ) by {
                        assert(sorted_map::starts_with(pairs[i].0, prefix@));
                    }
                    sorted_map::scan_unique(
                        txn.contents(),
                        prefix@,
                        pairs,
                        sorted_map::scan_of(txn.contents(), prefix@),
                    );
                }
                decode_rows(&entries, table)
            },
        }
    }

    /// Propose a command to the engine and check the response.
    fn propose_and_check(&mut self, cmd: TableCommand) -> (r: Result<(), RelosError>)
        requires
            old(self).inv(),
            old(self).has_room(1),
        ensures
            Self::written(*old(self), *final(self), cmd@, r),
    {
        let payload = match cmd.to_bytes() {
            Ok(p) => p,
            Err(e) => return Err(e),
        };
        let entry = Entry::new(payload);
        match self.engine.propose(entry) {
            Ok(ret) => check_response(ret),
            Err(e) => Err(e),
        }
    }

    /// Build the store key for a row (mirrors applicator logic).
    pub fn row_key(table: &str, pk_values: &[Value]) -> (key: Vec<u8>)
        ensures
            key@ == keys::row_key(table@, schema::values_view(pk_values@)),
    {
        keys::row_key_of(table, pk_values)
    }
}

} // verus!
