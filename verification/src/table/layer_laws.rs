//! What holds of a table above an engine stack, whatever layers the stack has.

use vstd::prelude::*;

use crate::base::codec;
use crate::base::entry;
use crate::base::entry::EntryView;
use crate::base::error::ErrorView;
use crate::base::types::{LogPos, ServerId};
use crate::engine::base_engine;
use crate::engine::base_engine::{BaseEngine, BaseModel};
use crate::engine::batching;
use crate::engine::batching::{BatchModel, BatchingApplicator, BatchingEngine};
use crate::engine::observer::{MetricsReporter, ObserverApplicator, ObserverEngine};
use crate::engine::traits::{Applicator, Engine, Outcome, ReturnView};
use crate::engine::view_tracking;
use crate::engine::view_tracking::{
    ShowsViews, TrackModel, TrackingEngineModel, ViewTrackingApplicator, ViewTrackingEngine,
};
use crate::log::loglet::Loglet;
use crate::store::sorted_map;
use crate::store::sorted_map::Contents;
use crate::store::traits::LocalStore;
use crate::table::applicator;
use crate::table::applicator::TableApplicator;
use crate::table::command;
use crate::table::command::{CommandView, ResponseView};
use crate::table::key_laws;
use crate::table::keys;
use crate::table::laws;
use crate::table::schema;
use crate::table::schema::{SchemaView, ValueView};
use crate::table::table;
use crate::table::table::DelosTable;

verus! {

// Applicators

/// Applying the entry does to the store what the command does, and returns the
/// same.
pub open spec fn carries<A: Applicator>(entry: EntryView, c: CommandView) -> bool {
    forall|model: A::Model, contents: Contents, pos: LogPos|
        (#[trigger] A::step(model, contents, entry, pos)).contents == laws::after(contents, c)
            && A::step(model, contents, entry, pos).result == applicator::command_step(
            contents,
            c,
        ).result
}

/// The table's applicator reads the payload of an entry.
pub proof fn table_carries(entry: EntryView, c: CommandView)
    requires
        entry.payload == c.bytes(),
        c.bytes().len() <= u64::MAX,
    ensures
        carries::<TableApplicator>(entry, c),
{
    command::command_round_trip(c);
}

/// An observer hands entries on.
pub proof fn observer_carries<A: Applicator, M: MetricsReporter>(entry: EntryView, c: CommandView)
    requires
        carries::<A>(entry, c),
    ensures
        carries::<ObserverApplicator<A, M>>(entry, c),
{
}

/// View tracking hands entries on, with an announcement or without one.
pub proof fn view_tracking_carries<A: Applicator>(entry: EntryView, c: CommandView)
    requires
        carries::<A>(entry, c),
        entry.header(view_tracking::view_tracking_header()) matches Some(h) ==> h.len() >= 16,
    ensures
        carries::<ViewTrackingApplicator<A>>(entry, c),
{
    assert forall|model: TrackModel<A::Model>, contents: Contents, pos: LogPos| ({
        let s = #[trigger] ViewTrackingApplicator::<A>::step(model, contents, entry, pos);
        s.contents == laws::after(contents, c) && s.result == applicator::command_step(
            contents,
            c,
        ).result
    }) by {
        let inner = A::step(model.inner, contents, entry, pos);
        assert(inner.contents == laws::after(contents, c));
    }
}

/// Batching unwraps a batch of one command.
pub proof fn batching_carries<A: Applicator>(entry: EntryView, c: CommandView)
    requires
        carries::<A>(EntryView::plain(c.bytes()), c),
        batching::unpacked(entry) == Result::<Option<Seq<Seq<u8>>>, ErrorView>::Ok(
            Some(seq![c.bytes()]),
        ),
    ensures
        carries::<BatchingApplicator<A>>(entry, c),
{
    let payloads = seq![c.bytes()];
    assert(payloads.drop_first() == Seq::<Seq<u8>>::empty());
    assert forall|model: A::Model, contents: Contents, pos: LogPos| ({
        let s = #[trigger] BatchingApplicator::<A>::step(model, contents, entry, pos);
        s.contents == laws::after(contents, c) && s.result == applicator::command_step(
            contents,
            c,
        ).result
    }) by {
        let inner = A::step(model, contents, EntryView::plain(c.bytes()), pos);
        assert(inner.contents == laws::after(contents, c));
        reveal_with_fuel(batching::apply_each, 2);
    }
}

// Engines

/// The store holds the same tables: it differs in the apply cursor at the most.
pub open spec fn same_tables(a: Contents, b: Contents) -> bool {
    forall|k: Seq<u8>|
        #![trigger sorted_map::value_at(a, k)]
        k != base_engine::cursor_key() ==> sorted_map::value_at(a, k) == sorted_map::value_at(b, k)
}

/// The command was carried out on what the store held, and nothing is left to be
/// applied.
pub open spec fn settled<E: Engine>(m: E::Model, c: CommandView) -> bool {
    &&& exists|before: Contents|
        laws::carried_out(before, c) && same_tables(
            E::contents_of(m),
            #[trigger] laws::after(before, c),
        )
    &&& E::sync_step(m).1 is Done
    &&& E::contents_of(E::sync_step(m).0) == E::contents_of(m)
}

/// An engine serves a command that is proposed in this entry: where the proposal
/// succeeds the command was carried out. Where a sync would succeed, the command is
/// answered with what it comes to on the tables that the sync would leave.
#[verifier::opaque]
pub open spec fn serves<E: Engine>(m: E::Model, entry: EntryView, c: CommandView) -> bool {
    let (next, o) = E::propose_step(m, entry);
    let (synced, s) = E::sync_step(m);
    &&& table::checked(o) is Done ==> settled::<E>(next, c)
    &&& s is Done ==> {
        let held = E::contents_of(synced);
        &&& table::checked(o) == laws::answer(applicator::command_step(held, c).result)
        &&& table::checked(o) is Done ==> same_tables(
            E::contents_of(next),
            laws::after(held, c),
        )
    }
}

/// The log takes another entry, and the engine is not ahead of it.
pub open spec fn ready<M>(m: BaseModel<M>) -> bool {
    &&& m.log.wf()
    &&& m.log.trim <= m.log.tail < u64::MAX
    &&& m.cursor <= m.log.tail
    &&& m.log.sealed ==> m.chained
}

/// A base engine serves the commands that its applicator applies, and is ready for
/// another as long as there are positions.
pub proof fn base_serves<L: Loglet, S: LocalStore, A: Applicator>(
    m: BaseModel<A::Model>,
    entry: EntryView,
    c: CommandView,
)
    requires
        ready(m),
        carries::<A>(entry, c),
    ensures
        serves::<BaseEngine<L, S, A>>(m, entry, c),
        base_engine::base_propose::<A>(m, entry).0.log.tail == m.log.tail + 1,
        m.log.tail + 1 < u64::MAX ==> ready(base_engine::base_propose::<A>(m, entry).0),
{
    reveal(serves);
    let log = if m.log.sealed {
        m.log.reopened().appended(entry)
    } else {
        m.log.appended(entry)
    };
    let start = BaseModel { log, ..m };
    let tail = m.log.tail;
    let end = (tail + 1) as LogPos;
    let (next, o) = base_engine::base_propose::<A>(m, entry);
    assert forall|p: LogPos| p < tail implies #[trigger] log.entry(p) == m.log.entry(p) by {}
    assert(log.entry(tail) == Some(entry));
    base_engine::play_same_prefix::<A>(m, log, tail, ReturnView::Success);
    base_engine::play_splits::<A>(start, tail, end, ReturnView::Success);
    base_engine::play_reaches::<A>(start, tail, ReturnView::Success);
    base_engine::play_reaches::<A>(start, end, ReturnView::Success);
    let (mid, first) = base_engine::play::<A>(start, tail, ReturnView::Success);
    reveal_with_fuel(base_engine::play, 2);
    if first is Done {
        let s = A::step(mid.app, mid.contents, entry, tail);
        assert(s.contents == laws::after(mid.contents, c));
        assert(s.result == applicator::command_step(mid.contents, c).result);
        assert(mid.contents == base_engine::base_sync::<A>(m).0.contents);
        if table::checked(o) is Done {
            laws::only_done_succeeds(mid.contents, c);
            assert(next.contents == base_engine::with_cursor(s.contents, end));
            assert(same_tables(next.contents, laws::after(mid.contents, c)));
        }
    }
}

/// An observer serves what the engine below serves.
pub proof fn observer_serves<E: Engine, M: MetricsReporter>(
    m: E::Model,
    entry: EntryView,
    c: CommandView,
)
    requires
        serves::<E>(m, entry, c),
    ensures
        serves::<ObserverEngine<E, M>>(m, entry, c),
{
    reveal(serves);
    let next = E::propose_step(m, entry).0;
    if settled::<E>(next, c) {
        assert(settled::<ObserverEngine<E, M>>(next, c));
    }
}

/// View tracking serves what the engine below serves with its announcement.
pub proof fn view_tracking_serves<E: ShowsViews>(
    m: TrackingEngineModel<E::Model>,
    entry: EntryView,
    c: CommandView,
)
    requires
        serves::<E>(
            m.inner,
            view_tracking::announced(entry, m.server_id, E::played(m.inner)),
            c,
        ),
    ensures
        serves::<ViewTrackingEngine<E>>(m, entry, c),
{
    reveal(serves);
    let next = ViewTrackingEngine::<E>::propose_step(m, entry).0;
    if settled::<E>(next.inner, c) {
        assert(settled::<ViewTrackingEngine<E>>(next, c));
    }
}

/// Batching serves what the engine below serves in a batch, where nothing waits.
pub proof fn batching_serves<E: Engine>(
    m: BatchModel<E::Model>,
    entry: EntryView,
    c: CommandView,
)
    requires
        m.pending.len() == 0,
        serves::<E>(m.downstream, batching::batch_entry(seq![entry.payload]), c),
    ensures
        serves::<BatchingEngine<E>>(m, entry, c),
        BatchingEngine::<E>::propose_step(m, entry).0.pending.len() == 0,
{
    reveal(serves);
    assert(m.pending.push(entry.payload) == seq![entry.payload]);
    let next = BatchingEngine::<E>::propose_step(m, entry).0;
    if settled::<E>(next.downstream, c) {
        assert(settled::<BatchingEngine<E>>(next, c));
    }
}

// Tables

proof fn tables_agree(a: Contents, b: Contents, t: Seq<char>, key: Seq<ValueView>)
    requires
        same_tables(a, b),
    ensures
        table::row_in(a, t, key) == table::row_in(b, t, key),
        applicator::schema_in(a, t) == applicator::schema_in(b, t),
        a.contains_key(keys::schema_key(t)) == b.contains_key(keys::schema_key(t)),
{
    key_laws::kinds_are_apart(t, t, key);
    assert(sorted_map::value_at(a, keys::row_key(t, key)) == sorted_map::value_at(
        b,
        keys::row_key(t, key),
    ));
    assert(sorted_map::value_at(a, keys::schema_key(t)) == sorted_map::value_at(
        b,
        keys::schema_key(t),
    ));
}

/// A get on a table above an engine.
pub open spec fn get<E: Engine>(m: E::Model, t: Seq<char>, key: Seq<ValueView>) -> Outcome<
    Option<Seq<ValueView>>,
> {
    table::after_sync::<E, Option<Seq<ValueView>>>(m, |x: Contents| table::row_in(x, t, key)).1
}

/// Above any engine that serves it, a put that succeeded is read back by a get of
/// its primary key.
pub proof fn put_is_read_back<E: Engine>(m: E::Model, t: Seq<char>, row: Seq<ValueView>)
    requires
        ({
            let c = CommandView::Put { table: t, row };
            &&& serves::<E>(m, table::command_entry(c), c)
            &&& DelosTable::<E>::execute(m, c).1 is Done
        }),
        schema::row_bytes(row).len() <= u64::MAX,
    ensures
        ({
            let next = DelosTable::<E>::execute(m, CommandView::Put { table: t, row }).0;
            let s = applicator::schema_in(E::contents_of(next), t)->Ok_0->0;
            let key = applicator::primary_key_of(s.columns, row, s.primary_key)->Ok_0;
            get::<E>(next, t, key) == Outcome::<Option<Seq<ValueView>>>::Done(Some(row))
        }),
{
    reveal(serves);
    let c = CommandView::Put { table: t, row };
    let next = DelosTable::<E>::execute(m, c).0;
    assert(settled::<E>(next, c));
    let before = choose|before: Contents|
        laws::carried_out(before, c) && same_tables(
            E::contents_of(next),
            #[trigger] laws::after(before, c),
        );
    laws::put_then_get(before, t, row, t, Seq::empty());
    let s = applicator::schema_in(before, t)->Ok_0->0;
    let key = applicator::primary_key_of(s.columns, row, s.primary_key)->Ok_0;
    tables_agree(E::contents_of(next), laws::after(before, c), t, key);
}

/// Above any engine that serves it, after a delete that succeeded a get of the
/// primary key finds nothing.
pub proof fn delete_is_seen<E: Engine>(m: E::Model, t: Seq<char>, key: Seq<ValueView>)
    requires
        ({
            let c = CommandView::Delete { table: t, key };
            &&& serves::<E>(m, table::command_entry(c), c)
            &&& DelosTable::<E>::execute(m, c).1 is Done
        }),
        key_laws::key_fits(key),
    ensures
        get::<E>(
            DelosTable::<E>::execute(m, CommandView::Delete { table: t, key }).0,
            t,
            key,
        ) == Outcome::<Option<Seq<ValueView>>>::Done(None),
{
    reveal(serves);
    let c = CommandView::Delete { table: t, key };
    let next = DelosTable::<E>::execute(m, c).0;
    assert(settled::<E>(next, c));
    let before = choose|before: Contents|
        laws::carried_out(before, c) && same_tables(
            E::contents_of(next),
            #[trigger] laws::after(before, c),
        );
    laws::delete_then_get(before, t, key, t, Seq::empty());
    tables_agree(E::contents_of(next), laws::after(before, c), t, key);
}

/// Above any engine that serves it, after a drop that succeeded the table is gone
/// and a get in it finds nothing.
pub proof fn drop_is_seen<E: Engine>(m: E::Model, t: Seq<char>, key: Seq<ValueView>)
    requires
        ({
            let c = CommandView::DropTable { table: t };
            &&& serves::<E>(m, table::command_entry(c), c)
            &&& DelosTable::<E>::execute(m, c).1 is Done
        }),
    ensures
        ({
            let next = DelosTable::<E>::execute(m, CommandView::DropTable { table: t }).0;
            &&& applicator::schema_in(E::contents_of(next), t) == Result::<
                Option<SchemaView>,
                ErrorView,
            >::Ok(None)
            &&& get::<E>(next, t, key) == Outcome::<Option<Seq<ValueView>>>::Done(None)
        }),
{
    reveal(serves);
    let c = CommandView::DropTable { table: t };
    let next = DelosTable::<E>::execute(m, c).0;
    assert(settled::<E>(next, c));
    let before = choose|before: Contents|
        laws::carried_out(before, c) && same_tables(
            E::contents_of(next),
            #[trigger] laws::after(before, c),
        );
    let other = t.push('/');
    assert(other.len() != t.len());
    laws::drop_then_get(before, t, key, other, key);
    tables_agree(E::contents_of(next), laws::after(before, c), t, key);
}

/// Above any engine that serves it, a table that is not there is created.
pub proof fn new_table_is_created<E: Engine>(m: E::Model, s: SchemaView)
    requires
        E::sync_step(m).1 is Done,
        !E::contents_of(E::sync_step(m).0).contains_key(keys::schema_key(s.name)),
        ({
            let create = CommandView::CreateTable(s);
            serves::<E>(m, table::command_entry(create), create)
        }),
    ensures
        DelosTable::<E>::execute(m, CommandView::CreateTable(s)).1 == Outcome::<()>::Done(()),
{
    reveal(serves);
    codec::u32_round_trip(0, Seq::empty());
    command::response_round_trip(ResponseView::Done);
}

/// A command that can be carried out, on an engine that has applied everything.
proof fn next_command<E: Engine>(m: E::Model, c: CommandView)
    requires
        serves::<E>(m, table::command_entry(c), c),
        E::sync_step(m).1 is Done,
        E::contents_of(E::sync_step(m).0) == E::contents_of(m),
        laws::carried_out(E::contents_of(m), c),
    ensures
        ({
            let (next, o) = DelosTable::<E>::execute(m, c);
            &&& o == Outcome::<()>::Done(())
            &&& same_tables(E::contents_of(next), laws::after(E::contents_of(m), c))
            &&& E::sync_step(next).1 is Done
            &&& E::contents_of(E::sync_step(next).0) == E::contents_of(next)
        }),
{
    reveal(serves);
    codec::u32_round_trip(0, Seq::empty());
    command::response_round_trip(ResponseView::Done);
    assert(settled::<E>(DelosTable::<E>::execute(m, c).0, c));
}

/// Above any engine that serves the commands, a table lives as its users expect.
/// Once it is created, rows that fit it can be put. A get of a primary key returns
/// the row that was put last under it. A row that is deleted is found no more, and
/// the others still are.
pub proof fn create_put_get_delete<E: Engine>(
    m: E::Model,
    s: SchemaView,
    other: Seq<ValueView>,
    row: Seq<ValueView>,
)
    requires
        other.len() == s.columns.len(),
        row.len() == s.columns.len(),
        applicator::primary_key_of(s.columns, other, s.primary_key) is Ok,
        applicator::primary_key_of(s.columns, row, s.primary_key) is Ok,
        schema::schema_bytes(s).len() <= u64::MAX,
        schema::row_bytes(other).len() <= u64::MAX,
        schema::row_bytes(row).len() <= u64::MAX,
        ({
            let key = applicator::primary_key_of(s.columns, row, s.primary_key)->Ok_0;
            let create = CommandView::CreateTable(s);
            let first = CommandView::Put { table: s.name, row: other };
            let second = CommandView::Put { table: s.name, row };
            let delete = CommandView::Delete { table: s.name, key };
            let m1 = DelosTable::<E>::execute(m, create).0;
            let m2 = DelosTable::<E>::execute(m1, first).0;
            let m3 = DelosTable::<E>::execute(m2, second).0;
            &&& serves::<E>(m, table::command_entry(create), create)
            &&& serves::<E>(m1, table::command_entry(first), first)
            &&& serves::<E>(m2, table::command_entry(second), second)
            &&& serves::<E>(m3, table::command_entry(delete), delete)
        }),
        DelosTable::<E>::execute(m, CommandView::CreateTable(s)).1 is Done,
    ensures
        ({
            let key = applicator::primary_key_of(s.columns, row, s.primary_key)->Ok_0;
            let key2 = applicator::primary_key_of(s.columns, other, s.primary_key)->Ok_0;
            let m1 = DelosTable::<E>::execute(m, CommandView::CreateTable(s)).0;
            let (m2, o2) = DelosTable::<E>::execute(
                m1,
                CommandView::Put { table: s.name, row: other },
            );
            let (m3, o3) = DelosTable::<E>::execute(m2, CommandView::Put { table: s.name, row });
            let (m4, o4) = DelosTable::<E>::execute(m3, CommandView::Delete { table: s.name, key });
            &&& o2 == Outcome::<()>::Done(())
            &&& o3 == Outcome::<()>::Done(())
            &&& o4 == Outcome::<()>::Done(())
            &&& get::<E>(m3, s.name, key) == Outcome::<Option<Seq<ValueView>>>::Done(Some(row))
            &&& key2 != key ==> get::<E>(m3, s.name, key2) == Outcome::<
                Option<Seq<ValueView>>,
            >::Done(Some(other))
            &&& get::<E>(m4, s.name, key) == Outcome::<Option<Seq<ValueView>>>::Done(None)
            &&& key2 != key ==> get::<E>(m4, s.name, key2) == Outcome::<
                Option<Seq<ValueView>>,
            >::Done(Some(other))
        }),
{
    reveal(serves);
    let t = s.name;
    let key = applicator::primary_key_of(s.columns, row, s.primary_key)->Ok_0;
    let key2 = applicator::primary_key_of(s.columns, other, s.primary_key)->Ok_0;
    laws::key_of_row_fits(s.columns, row, s.primary_key);
    laws::key_of_row_fits(s.columns, other, s.primary_key);

    let create = CommandView::CreateTable(s);
    let m1 = DelosTable::<E>::execute(m, create).0;
    assert(settled::<E>(m1, create));
    let before = choose|before: Contents|
        laws::carried_out(before, create) && same_tables(
            E::contents_of(m1),
            #[trigger] laws::after(before, create),
        );
    let c1 = E::contents_of(m1);
    laws::create_then_use(before, s, t, key, s);
    tables_agree(c1, laws::after(before, create), t, key);

    let first = CommandView::Put { table: t, row: other };
    next_command::<E>(m1, first);
    let m2 = DelosTable::<E>::execute(m1, first).0;
    let c2 = E::contents_of(m2);
    laws::put_then_get(c1, t, other, t, key2);
    tables_agree(c2, laws::after(c1, first), t, key2);

    let second = CommandView::Put { table: t, row };
    next_command::<E>(m2, second);
    let m3 = DelosTable::<E>::execute(m2, second).0;
    let c3 = E::contents_of(m3);
    laws::put_then_get(c2, t, row, t, key2);
    tables_agree(c3, laws::after(c2, second), t, key);
    tables_agree(c3, laws::after(c2, second), t, key2);

    let delete = CommandView::Delete { table: t, key };
    next_command::<E>(m3, delete);
    let m4 = DelosTable::<E>::execute(m3, delete).0;
    laws::delete_then_get(c3, t, key, t, key2);
    tables_agree(E::contents_of(m4), laws::after(c3, delete), t, key);
    tables_agree(E::contents_of(m4), laws::after(c3, delete), t, key2);
}

/// Neither the schema nor the rows nor a key of them are larger than what the
/// commands of a table's life hold.
proof fn commands_bound(s: SchemaView, row: Seq<ValueView>)
    ensures
        schema::schema_bytes(s).len() <= CommandView::CreateTable(s).bytes().len(),
        schema::row_bytes(row).len() <= (CommandView::Put { table: s.name, row }).bytes().len(),
{
    codec::u32_round_trip(0, Seq::empty());
    codec::u32_round_trip(2, Seq::empty());
}

/// A base engine serves the commands of a table's life, where the log has room for
/// them.
proof fn base_serves_all<L: Loglet, S: LocalStore>(
    m: BaseModel<()>,
    a: CommandView,
    b: CommandView,
    c: CommandView,
    d: CommandView,
)
    requires
        ready(m),
        m.log.tail + 3 < u64::MAX,
        a.bytes().len() <= u64::MAX,
        b.bytes().len() <= u64::MAX,
        c.bytes().len() <= u64::MAX,
        d.bytes().len() <= u64::MAX,
    ensures
        ({
            let m1 = laws::execute(m, a).0;
            let m2 = laws::execute(m1, b).0;
            let m3 = laws::execute(m2, c).0;
            &&& serves::<BaseEngine<L, S, TableApplicator>>(m, table::command_entry(a), a)
            &&& serves::<BaseEngine<L, S, TableApplicator>>(m1, table::command_entry(b), b)
            &&& serves::<BaseEngine<L, S, TableApplicator>>(m2, table::command_entry(c), c)
            &&& serves::<BaseEngine<L, S, TableApplicator>>(m3, table::command_entry(d), d)
        }),
{
    let m1 = laws::execute(m, a).0;
    let m2 = laws::execute(m1, b).0;
    let m3 = laws::execute(m2, c).0;
    table_carries(table::command_entry(a), a);
    table_carries(table::command_entry(b), b);
    table_carries(table::command_entry(c), c);
    table_carries(table::command_entry(d), d);
    base_serves::<L, S, TableApplicator>(m, table::command_entry(a), a);
    base_serves::<L, S, TableApplicator>(m1, table::command_entry(b), b);
    base_serves::<L, S, TableApplicator>(m2, table::command_entry(c), c);
    base_serves::<L, S, TableApplicator>(m3, table::command_entry(d), d);
}

/// On a base engine that is ready, a table that is not there lives through create,
/// puts, gets and a delete, and no command fails.
pub proof fn table_life_on_base<L: Loglet, S: LocalStore>(
    m: BaseModel<()>,
    s: SchemaView,
    other: Seq<ValueView>,
    row: Seq<ValueView>,
)
    requires
        ready(m),
        m.log.tail + 3 < u64::MAX,
        base_engine::base_sync::<TableApplicator>(m).1 is Done,
        !base_engine::base_sync::<TableApplicator>(m).0.contents.contains_key(
            keys::schema_key(s.name),
        ),
        other.len() == s.columns.len(),
        row.len() == s.columns.len(),
        applicator::primary_key_of(s.columns, other, s.primary_key) is Ok,
        applicator::primary_key_of(s.columns, row, s.primary_key) is Ok,
        CommandView::CreateTable(s).bytes().len() <= u64::MAX,
        (CommandView::Put { table: s.name, row: other }).bytes().len() <= u64::MAX,
        (CommandView::Put { table: s.name, row }).bytes().len() <= u64::MAX,
        (CommandView::Delete {
            table: s.name,
            key: applicator::primary_key_of(s.columns, row, s.primary_key)->Ok_0,
        }).bytes().len() <= u64::MAX,
    ensures
        ({
            let key = applicator::primary_key_of(s.columns, row, s.primary_key)->Ok_0;
            let key2 = applicator::primary_key_of(s.columns, other, s.primary_key)->Ok_0;
            let (m1, o1) = laws::execute(m, CommandView::CreateTable(s));
            let (m2, o2) = laws::execute(m1, CommandView::Put { table: s.name, row: other });
            let (m3, o3) = laws::execute(m2, CommandView::Put { table: s.name, row });
            let (m4, o4) = laws::execute(m3, CommandView::Delete { table: s.name, key });
            &&& o1 == Outcome::<()>::Done(())
            &&& o2 == Outcome::<()>::Done(())
            &&& o3 == Outcome::<()>::Done(())
            &&& o4 == Outcome::<()>::Done(())
            &&& laws::get(m3, s.name, key).1 == Outcome::<Option<Seq<ValueView>>>::Done(Some(row))
            &&& laws::get(m4, s.name, key).1 == Outcome::<Option<Seq<ValueView>>>::Done(None)
            &&& key2 != key ==> laws::get(m3, s.name, key2).1 == Outcome::<
                Option<Seq<ValueView>>,
            >::Done(Some(other)) && laws::get(m4, s.name, key2).1 == Outcome::<
                Option<Seq<ValueView>>,
            >::Done(Some(other))
        }),
{
    let key = applicator::primary_key_of(s.columns, row, s.primary_key)->Ok_0;
    commands_bound(s, row);
    commands_bound(s, other);
    base_serves_all::<L, S>(
        m,
        CommandView::CreateTable(s),
        CommandView::Put { table: s.name, row: other },
        CommandView::Put { table: s.name, row },
        CommandView::Delete { table: s.name, key },
    );
    new_table_is_created::<BaseEngine<L, S, TableApplicator>>(m, s);
    create_put_get_delete::<BaseEngine<L, S, TableApplicator>>(m, s, other, row);
}

/// The applicator of a stack to which view tracking, batching and an observer were
/// pushed.
pub type LayeredApplicator<M> = ObserverApplicator<
    BatchingApplicator<ViewTrackingApplicator<TableApplicator>>,
    M,
>;

/// The engine of such a stack.
pub type LayeredEngine<L, S, M> = ObserverEngine<
    BatchingEngine<ViewTrackingEngine<BaseEngine<L, S, LayeredApplicator<M>>>>,
    M,
>;

/// The state of such a stack.
pub type LayeredModel = BatchModel<TrackingEngineModel<BaseModel<TrackModel<()>>>>;

/// A table above view tracking, batching and an observer is served like one above
/// the base engine, and the stack is then ready for another command.
pub proof fn layers_serve<L: Loglet, S: LocalStore, M: MetricsReporter>(
    m: LayeredModel,
    c: CommandView,
)
    requires
        m.pending.len() == 0,
        ready(m.downstream.inner),
        batching::batch_bytes(seq![c.bytes()]).len() <= u64::MAX,
    ensures
        serves::<LayeredEngine<L, S, M>>(m, table::command_entry(c), c),
        ({
            let next = LayeredEngine::<L, S, M>::propose_step(m, table::command_entry(c)).0;
            &&& next.pending.len() == 0
            &&& next.downstream.inner.log.tail == m.downstream.inner.log.tail + 1
            &&& m.downstream.inner.log.tail + 1 < u64::MAX ==> ready(next.downstream.inner)
        }),
{
    let payloads = seq![c.bytes()];
    let batch = batching::batch_entry(payloads);
    let id = m.downstream.server_id;
    let base = m.downstream.inner;
    let e = view_tracking::announced(batch, id, base.cursor);
    let sent = table::command_entry(c);
    batch_is_announced(c, id, base.cursor);
    table_carries(EntryView::plain(c.bytes()), c);
    assert(EntryView::plain(c.bytes()).header(view_tracking::view_tracking_header()) is None);
    view_tracking_carries::<TableApplicator>(EntryView::plain(c.bytes()), c);
    batching_carries::<ViewTrackingApplicator<TableApplicator>>(e, c);
    observer_carries::<BatchingApplicator<ViewTrackingApplicator<TableApplicator>>, M>(e, c);
    base_serves::<L, S, LayeredApplicator<M>>(base, e, c);
    view_tracking_serves::<BaseEngine<L, S, LayeredApplicator<M>>>(m.downstream, batch, c);
    batching_serves::<ViewTrackingEngine<BaseEngine<L, S, LayeredApplicator<M>>>>(m, sent, c);
    observer_serves::<
        BatchingEngine<ViewTrackingEngine<BaseEngine<L, S, LayeredApplicator<M>>>>,
        M,
    >(m, sent, c);
    assert(m.pending.push(sent.payload) == payloads);
}

/// A batch of one command is still one with an announcement.
proof fn batch_is_announced(c: CommandView, id: ServerId, cursor: LogPos)
    requires
        batching::batch_bytes(seq![c.bytes()]).len() <= u64::MAX,
    ensures
        c.bytes().len() <= u64::MAX,
        batching::unpacked(
            view_tracking::announced(batching::batch_entry(seq![c.bytes()]), id, cursor),
        ) == Result::<Option<Seq<Seq<u8>>>, ErrorView>::Ok(Some(seq![c.bytes()])),
        entry::distinct(batching::batch_entry(seq![c.bytes()]).headers),
        view_tracking::announced(
            batching::batch_entry(seq![c.bytes()]),
            id,
            cursor,
        ).header(view_tracking::view_tracking_header()) == Some(
            view_tracking::view_bytes(id, cursor),
        ),
        view_tracking::view_bytes(id, cursor).len() >= 16,
{
    let payloads = seq![c.bytes()];
    let batch = batching::batch_entry(payloads);
    codec::u64_round_trip(id, Seq::empty());
    codec::u64_round_trip(cursor, Seq::empty());
    let plain = EntryView::plain(batching::batch_bytes(payloads));
    reveal_strlit("batching");
    reveal_strlit("view_tracking");
    assert("batching"@.len() != "view_tracking"@.len());
    batching::batch_is_unpacked(payloads);
    assert(plain.headers == Seq::<entry::HeaderView>::empty());
    entry::set_header_distinct(
        plain.headers,
        batching::batching_header(),
        codec::u64_bytes(payloads.len() as u64),
    );
    entry::header_read_back(
        batch,
        view_tracking::view_tracking_header(),
        view_tracking::view_bytes(id, cursor),
        batching::batching_header(),
    );
}

/// These layers serve the commands of a table's life, where the log has room for
/// them.
proof fn layers_serve_all<L: Loglet, S: LocalStore, M: MetricsReporter>(
    m: LayeredModel,
    a: CommandView,
    b: CommandView,
    c: CommandView,
    d: CommandView,
)
    requires
        m.pending.len() == 0,
        ready(m.downstream.inner),
        m.downstream.inner.log.tail + 3 < u64::MAX,
        batching::batch_bytes(seq![a.bytes()]).len() <= u64::MAX,
        batching::batch_bytes(seq![b.bytes()]).len() <= u64::MAX,
        batching::batch_bytes(seq![c.bytes()]).len() <= u64::MAX,
        batching::batch_bytes(seq![d.bytes()]).len() <= u64::MAX,
    ensures
        ({
            let m1 = DelosTable::<LayeredEngine<L, S, M>>::execute(m, a).0;
            let m2 = DelosTable::<LayeredEngine<L, S, M>>::execute(m1, b).0;
            let m3 = DelosTable::<LayeredEngine<L, S, M>>::execute(m2, c).0;
            &&& serves::<LayeredEngine<L, S, M>>(m, table::command_entry(a), a)
            &&& serves::<LayeredEngine<L, S, M>>(m1, table::command_entry(b), b)
            &&& serves::<LayeredEngine<L, S, M>>(m2, table::command_entry(c), c)
            &&& serves::<LayeredEngine<L, S, M>>(m3, table::command_entry(d), d)
        }),
{
    let m1 = DelosTable::<LayeredEngine<L, S, M>>::execute(m, a).0;
    let m2 = DelosTable::<LayeredEngine<L, S, M>>::execute(m1, b).0;
    let m3 = DelosTable::<LayeredEngine<L, S, M>>::execute(m2, c).0;
    layers_serve::<L, S, M>(m, a);
    layers_serve::<L, S, M>(m1, b);
    layers_serve::<L, S, M>(m2, c);
    layers_serve::<L, S, M>(m3, d);
}

/// Above these layers, too, a table that is not there lives through create, puts,
/// gets and a delete, and no command fails.
pub proof fn table_life_on_layers<L: Loglet, S: LocalStore, M: MetricsReporter>(
    m: LayeredModel,
    s: SchemaView,
    other: Seq<ValueView>,
    row: Seq<ValueView>,
)
    requires
        m.pending.len() == 0,
        ready(m.downstream.inner),
        m.downstream.inner.log.tail + 3 < u64::MAX,
        LayeredEngine::<L, S, M>::sync_step(m).1 is Done,
        !LayeredEngine::<L, S, M>::contents_of(
            LayeredEngine::<L, S, M>::sync_step(m).0,
        ).contains_key(keys::schema_key(s.name)),
        other.len() == s.columns.len(),
        row.len() == s.columns.len(),
        applicator::primary_key_of(s.columns, other, s.primary_key) is Ok,
        applicator::primary_key_of(s.columns, row, s.primary_key) is Ok,
        batching::batch_bytes(seq![CommandView::CreateTable(s).bytes()]).len() <= u64::MAX,
        batching::batch_bytes(
            seq![(CommandView::Put { table: s.name, row: other }).bytes()],
        ).len() <= u64::MAX,
        batching::batch_bytes(seq![(CommandView::Put { table: s.name, row }).bytes()]).len()
            <= u64::MAX,
        batching::batch_bytes(
            seq![
                (CommandView::Delete {
                    table: s.name,
                    key: applicator::primary_key_of(s.columns, row, s.primary_key)->Ok_0,
                }).bytes(),
            ],
        ).len() <= u64::MAX,
    ensures
        ({
            let key = applicator::primary_key_of(s.columns, row, s.primary_key)->Ok_0;
            let key2 = applicator::primary_key_of(s.columns, other, s.primary_key)->Ok_0;
            let (m1, o1) = DelosTable::<LayeredEngine<L, S, M>>::execute(m, CommandView::CreateTable(s));
            let (m2, o2) = DelosTable::<LayeredEngine<L, S, M>>::execute(m1, CommandView::Put { table: s.name, row: other });
            let (m3, o3) = DelosTable::<LayeredEngine<L, S, M>>::execute(m2, CommandView::Put { table: s.name, row });
            let (m4, o4) = DelosTable::<LayeredEngine<L, S, M>>::execute(m3, CommandView::Delete { table: s.name, key });
            &&& o1 == Outcome::<()>::Done(())
            &&& o2 == Outcome::<()>::Done(())
            &&& o3 == Outcome::<()>::Done(())
            &&& o4 == Outcome::<()>::Done(())
            &&& get::<LayeredEngine<L, S, M>>(m3, s.name, key) == Outcome::<Option<Seq<ValueView>>>::Done(Some(row))
            &&& get::<LayeredEngine<L, S, M>>(m4, s.name, key) == Outcome::<Option<Seq<ValueView>>>::Done(None)
            &&& key2 != key ==> get::<LayeredEngine<L, S, M>>(m3, s.name, key2) == Outcome::<
                Option<Seq<ValueView>>,
            >::Done(Some(other)) && get::<LayeredEngine<L, S, M>>(m4, s.name, key2) == Outcome::<
                Option<Seq<ValueView>>,
            >::Done(Some(other))
        }),
{
    let key = applicator::primary_key_of(s.columns, row, s.primary_key)->Ok_0;
    let create = CommandView::CreateTable(s);
    let first = CommandView::Put { table: s.name, row: other };
    let second = CommandView::Put { table: s.name, row };
    let delete = CommandView::Delete { table: s.name, key };
    batch_is_announced(create, 0, 0);
    batch_is_announced(first, 0, 0);
    batch_is_announced(second, 0, 0);
    commands_bound(s, row);
    commands_bound(s, other);
    layers_serve_all::<L, S, M>(m, create, first, second, delete);
    new_table_is_created::<LayeredEngine<L, S, M>>(m, s);
    create_put_get_delete::<LayeredEngine<L, S, M>>(m, s, other, row);
}

/// The applicator of a stack that records views beside batching: view tracking sees
/// an entry before its batch is unwrapped.
pub type RecordingApplicator = ViewTrackingApplicator<BatchingApplicator<TableApplicator>>;

/// The engine of such a stack: batches are announced.
pub type RecordingEngine<L, S> = BatchingEngine<
    ViewTrackingEngine<BaseEngine<L, S, RecordingApplicator>>,
>;

/// Such a stack serves commands, and a command that is carried out leaves the
/// server's playback cursor at the time of the proposal as its view, by the side of
/// what was known of the others.
pub proof fn views_are_recorded_beside_batching<L: Loglet, S: LocalStore>(
    m: LayeredModel,
    c: CommandView,
)
    requires
        m.pending.len() == 0,
        ready(m.downstream.inner),
        batching::batch_bytes(seq![c.bytes()]).len() <= u64::MAX,
    ensures
        serves::<RecordingEngine<L, S>>(m, table::command_entry(c), c),
        ({
            let (next, o) = DelosTable::<RecordingEngine<L, S>>::execute(m, c);
            let views = RecordingEngine::<L, S>::views_shown(next);
            &&& next.pending.len() == 0
            &&& o is Done ==> views.contains_key(m.downstream.server_id)
                && views[m.downstream.server_id] == m.downstream.inner.cursor
            &&& m.downstream.inner.log.tail + 1 < u64::MAX ==> ready(next.downstream.inner)
        }),
{
    let payloads = seq![c.bytes()];
    let batch = batching::batch_entry(payloads);
    let id = m.downstream.server_id;
    let base = m.downstream.inner;
    let e = view_tracking::announced(batch, id, base.cursor);
    let sent = table::command_entry(c);
    batch_is_announced(c, id, base.cursor);
    table_carries(EntryView::plain(c.bytes()), c);
    batching_carries::<TableApplicator>(e, c);
    view_tracking_carries::<BatchingApplicator<TableApplicator>>(e, c);
    base_serves::<L, S, RecordingApplicator>(base, e, c);
    view_tracking_serves::<BaseEngine<L, S, RecordingApplicator>>(m.downstream, batch, c);
    batching_serves::<ViewTrackingEngine<BaseEngine<L, S, RecordingApplicator>>>(m, sent, c);
    assert(m.pending.push(sent.payload) == payloads);
    if base_engine::base_propose::<RecordingApplicator>(base, e).1 is Done {
        let mid = base_engine::proposal_is_applied_last::<RecordingApplicator>(base, e);
        view_tracking::announcement_is_recorded::<BatchingApplicator<TableApplicator>>(
            mid.app,
            mid.contents,
            batch,
            id,
            base.cursor,
            base.log.tail,
        );
    }
}

} // verus!
