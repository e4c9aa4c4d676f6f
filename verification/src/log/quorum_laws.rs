//! What a quorum decides, in terms of which servers replied what.

use vstd::prelude::*;

use crate::base::entry::EntryView;
use crate::base::error::ErrorView;
use crate::base::types::{LogPos, LOG_POS_BEGIN};
use crate::log::native_loglet;
use crate::log::native_loglet::StoreReply;
use crate::log::replica::{ReadView, ServerView};

verus! {

// Counting replies

/// How many replies have a property is how many servers there are whose reply has it.
proof fn one_more<T>(replies: Seq<T>, is: spec_fn(T) -> bool)
    requires
        replies.len() > 0,
    ensures
        Set::new(|i: int| 0 <= i < replies.drop_last().len() && is(replies.drop_last()[i])).finite()
            ==> {
            let front = Set::new(
                |i: int| 0 <= i < replies.drop_last().len() && is(replies.drop_last()[i]),
            );
            let all = Set::new(|i: int| 0 <= i < replies.len() && is(replies[i]));
            &&& all.finite()
            &&& all.len() == front.len() + if is(replies.last()) {
                1nat
            } else {
                0nat
            }
        },
{
    let front = Set::new(
        |i: int| 0 <= i < replies.drop_last().len() && is(replies.drop_last()[i]),
    );
    let all = Set::new(|i: int| 0 <= i < replies.len() && is(replies[i]));
    let k = replies.len() - 1;
    if is(replies.last()) {
        assert(all =~= front.insert(k));
        assert(!front.contains(k));
    } else {
        assert(all =~= front);
    }
}

proof fn none_yet<T>(replies: Seq<T>, is: spec_fn(T) -> bool)
    requires
        replies.len() == 0,
    ensures
        Set::new(|i: int| 0 <= i < replies.len() && is(replies[i])).finite(),
        Set::new(|i: int| 0 <= i < replies.len() && is(replies[i])).len() == 0,
{
    assert(Set::new(|i: int| 0 <= i < replies.len() && is(replies[i])) =~= Set::empty());
}

proof fn acks_count(replies: Seq<StoreReply>)
    ensures
        ({
            let is = |r: StoreReply| r is Some && r->0 is Ok;
            let all = Set::new(|i: int| 0 <= i < replies.len() && is(replies[i]));
            all.finite() && all.len() == native_loglet::acks(replies)
        }),
    decreases replies.len(),
{
    let is = |r: StoreReply| r is Some && r->0 is Ok;
    if replies.len() == 0 {
        none_yet(replies, is);
    } else {
        acks_count(replies.drop_last());
        one_more(replies, is);
    }
}

proof fn seals_count(replies: Seq<Option<LogPos>>)
    ensures
        ({
            let is = |r: Option<LogPos>| r is Some;
            let all = Set::new(|i: int| 0 <= i < replies.len() && is(replies[i]));
            all.finite() && all.len() == native_loglet::seals(replies)
        }),
    decreases replies.len(),
{
    let is = |r: Option<LogPos>| r is Some;
    if replies.len() == 0 {
        none_yet(replies, is);
    } else {
        seals_count(replies.drop_last());
        one_more(replies, is);
    }
}

proof fn heard_count(replies: Seq<Option<ReadView>>)
    ensures
        ({
            let is = |r: Option<ReadView>| r is Some;
            let all = Set::new(|i: int| 0 <= i < replies.len() && is(replies[i]));
            all.finite() && all.len() == native_loglet::heard(replies)
        }),
    decreases replies.len(),
{
    let is = |r: Option<ReadView>| r is Some;
    if replies.len() == 0 {
        none_yet(replies, is);
    } else {
        heard_count(replies.drop_last());
        one_more(replies, is);
    }
}

// Appends

/// A majority is more than half of the servers, and no fewer servers are.
pub proof fn majority_is_least(servers: nat)
    ensures
        2 * native_loglet::majority(servers) > servers,
        2 * (native_loglet::majority(servers) - 1) <= servers,
{
}

/// An append succeeds, at the position that it was assigned, if and only if at least
/// a quorum of the servers acknowledged it, whatever the other servers replied.
pub proof fn append_takes_a_quorum(pos: LogPos, replies: Seq<StoreReply>, quorum: nat)
    ensures
        ({
            let acked = Set::new(
                |i: int| 0 <= i < replies.len() && replies[i] is Some && replies[i]->0 is Ok,
            );
            let r = native_loglet::append_decision(pos, replies, quorum);
            &&& acked.finite()
            &&& acked.len() >= quorum ==> r == Result::<LogPos, ErrorView>::Ok(pos)
            &&& acked.len() < quorum ==> r is Err
        }),
{
    let is = |r: StoreReply| r is Some && r->0 is Ok;
    acks_count(replies);
    assert(Set::new(
        |i: int| 0 <= i < replies.len() && replies[i] is Some && replies[i]->0 is Ok,
    ) =~= Set::new(|i: int| 0 <= i < replies.len() && is(replies[i])));
}

/// Where more than half of the servers acknowledged an append it succeeds, at the
/// position that it was assigned. The others may have refused, or not have replied.
pub proof fn majority_is_enough(pos: LogPos, replies: Seq<StoreReply>, acked: Set<int>)
    requires
        acked.len() >= replies.len() / 2 + 1,
        acked.finite(),
        forall|i: int| #[trigger]
            acked.contains(i) ==> 0 <= i < replies.len() && replies[i] is Some
                && replies[i]->0 is Ok,
    ensures
        native_loglet::append_decision(
            pos,
            replies,
            native_loglet::majority(replies.len()),
        ) == Result::<LogPos, ErrorView>::Ok(pos),
{
    append_takes_a_quorum(pos, replies, native_loglet::majority(replies.len()));
    let all = Set::new(
        |i: int| 0 <= i < replies.len() && replies[i] is Some && replies[i]->0 is Ok,
    );
    assert(acked.subset_of(all));
    vstd::set_lib::lemma_len_subset(acked, all);
}

/// Where no more than half of the servers acknowledged an append it fails.
pub proof fn minority_is_not_enough(pos: LogPos, replies: Seq<StoreReply>, others: Set<int>)
    requires
        2 * others.len() >= replies.len(),
        others.finite(),
        forall|i: int| #[trigger]
            others.contains(i) ==> 0 <= i < replies.len() && (replies[i] is None
                || replies[i]->0 is Err),
    ensures
        native_loglet::append_decision(
            pos,
            replies,
            native_loglet::majority(replies.len()),
        ) is Err,
{
    append_takes_a_quorum(pos, replies, native_loglet::majority(replies.len()));
    let all = Set::new(
        |i: int| 0 <= i < replies.len() && replies[i] is Some && replies[i]->0 is Ok,
    );
    let servers = vstd::set_lib::set_int_range(0, replies.len() as int);
    vstd::set_lib::lemma_int_range(0, replies.len() as int);
    assert(all.disjoint(others));
    vstd::set_lib::lemma_set_disjoint_lens(all, others);
    assert((all + others).subset_of(servers));
    vstd::set_lib::lemma_len_subset(all + others, servers);
}

proof fn refusal_is_last(replies: Seq<StoreReply>, last: int)
    requires
        0 <= last < replies.len(),
        replies[last] is Some,
        replies[last]->0 is Err,
        forall|j: int|
            last < j < replies.len() ==> (#[trigger] replies[j]) is None || replies[j]->0 is Ok,
    ensures
        native_loglet::last_refusal(replies) == Some(replies[last]->0->Err_0),
    decreases replies.len(),
{
    if last < replies.len() - 1 {
        let front = replies.drop_last();
        assert(replies[replies.len() - 1] is None || replies[replies.len() - 1]->0 is Ok);
        assert forall|j: int| last < j < front.len() implies (#[trigger] front[j]) is None
            || front[j]->0 is Ok by {
            assert(front[j] == replies[j]);
        }
        refusal_is_last(front, last);
    }
}

proof fn refusal_is_none(replies: Seq<StoreReply>)
    requires
        forall|j: int|
            0 <= j < replies.len() ==> (#[trigger] replies[j]) is None || replies[j]->0 is Ok,
    ensures
        native_loglet::last_refusal(replies) is None,
    decreases replies.len(),
{
    if replies.len() > 0 {
        let front = replies.drop_last();
        assert(replies[replies.len() - 1] is None || replies[replies.len() - 1]->0 is Ok);
        assert forall|j: int| 0 <= j < front.len() implies (#[trigger] front[j]) is None
            || front[j]->0 is Ok by {
            assert(front[j] == replies[j]);
        }
        refusal_is_none(front);
    }
}

/// An append that fails reports the tail of the last server that is sealed, where one
/// said so.
pub proof fn failed_append_names_the_seal(
    pos: LogPos,
    replies: Seq<StoreReply>,
    quorum: nat,
    last: int,
)
    requires
        native_loglet::append_decision(pos, replies, quorum) is Err,
        0 <= last < replies.len(),
        replies[last] is Some,
        replies[last]->0 is Err,
        forall|j: int|
            last < j < replies.len() ==> (#[trigger] replies[j]) is None || replies[j]->0 is Ok,
    ensures
        native_loglet::append_decision(pos, replies, quorum) == Result::<LogPos, ErrorView>::Err(
            ErrorView::Sealed(replies[last]->0->Err_0),
        ),
{
    refusal_is_last(replies, last);
}

/// An append that fails while no server is sealed reports that it had no quorum.
pub proof fn failed_append_has_no_quorum(pos: LogPos, replies: Seq<StoreReply>, quorum: nat)
    requires
        native_loglet::append_decision(pos, replies, quorum) is Err,
        forall|j: int|
            0 <= j < replies.len() ==> (#[trigger] replies[j]) is None || replies[j]->0 is Ok,
    ensures
        native_loglet::append_decision(pos, replies, quorum) == Result::<LogPos, ErrorView>::Err(
            ErrorView::Internal("failed to reach quorum for append"@),
        ),
{
    refusal_is_none(replies);
}

// Seals

proof fn highest_is_one(least: LogPos, replies: Seq<Option<LogPos>>)
    ensures
        ({
            let h = native_loglet::highest(least, replies);
            &&& h >= least
            &&& forall|i: int|
                0 <= i < replies.len() && (#[trigger] replies[i]) is Some ==> replies[i]->0 <= h
            &&& h == least || exists|i: int| 0 <= i < replies.len() && #[trigger] replies[i] == Some(
                h,
            )
        }),
    decreases replies.len(),
{
    if replies.len() > 0 {
        let front = replies.drop_last();
        highest_is_one(least, front);
        let h = native_loglet::highest(least, replies);
        let g = native_loglet::highest(least, front);
        assert forall|i: int| 0 <= i < replies.len() && (#[trigger] replies[i]) is Some implies
            replies[i]->0 <= h by {
            if i < front.len() {
                assert(front[i] == replies[i]);
            }
        }
        if h != least {
            if h == g && exists|i: int| 0 <= i < front.len() && #[trigger] front[i] == Some(g) {
                let i = choose|i: int| 0 <= i < front.len() && #[trigger] front[i] == Some(g);
                assert(replies[i] == Some(h));
            } else {
                assert(replies[replies.len() - 1] == Some(h));
            }
        }
    }
}

/// A seal succeeds if and only if at least a quorum of the servers reported that they
/// are sealed. The tail that it returns is the least that lies at or behind the
/// sequencer's, the first position and every reported one.
pub proof fn seal_takes_a_quorum(
    sequencer_tail: LogPos,
    replies: Seq<Option<LogPos>>,
    quorum: nat,
)
    ensures
        ({
            let sealed = Set::new(|i: int| 0 <= i < replies.len() && replies[i] is Some);
            let r = native_loglet::seal_decision(sequencer_tail, replies, quorum);
            &&& sealed.finite()
            &&& sealed.len() < quorum ==> r == Result::<LogPos, ErrorView>::Err(
                ErrorView::Internal("failed to reach quorum for seal"@),
            )
            &&& sealed.len() >= quorum ==> {
                &&& r is Ok
                &&& r->Ok_0 >= sequencer_tail
                &&& r->Ok_0 >= LOG_POS_BEGIN
                &&& forall|i: int|
                    0 <= i < replies.len() && (#[trigger] replies[i]) is Some ==> replies[i]->0
                        <= r->Ok_0
                &&& r->Ok_0 == sequencer_tail || r->Ok_0 == LOG_POS_BEGIN || exists|i: int|
                    0 <= i < replies.len() && #[trigger] replies[i] == Some(r->Ok_0)
            }
        }),
{
    let is = |r: Option<LogPos>| r is Some;
    seals_count(replies);
    assert(Set::new(|i: int| 0 <= i < replies.len() && replies[i] is Some) =~= Set::new(
        |i: int| 0 <= i < replies.len() && is(replies[i]),
    ));
    highest_is_one(LOG_POS_BEGIN, replies);
}

/// Where more than half of the servers reported that they are sealed, a seal
/// succeeds.
pub proof fn sealed_majority_is_enough(
    sequencer_tail: LogPos,
    replies: Seq<Option<LogPos>>,
    sealed: Set<int>,
)
    requires
        sealed.len() >= replies.len() / 2 + 1,
        sealed.finite(),
        forall|i: int| #[trigger]
            sealed.contains(i) ==> 0 <= i < replies.len() && replies[i] is Some,
    ensures
        native_loglet::seal_decision(
            sequencer_tail,
            replies,
            native_loglet::majority(replies.len()),
        ) is Ok,
{
    seal_takes_a_quorum(sequencer_tail, replies, native_loglet::majority(replies.len()));
    let all = Set::new(|i: int| 0 <= i < replies.len() && replies[i] is Some);
    assert(sealed.subset_of(all));
    vstd::set_lib::lemma_len_subset(sealed, all);
}

// Reads

proof fn answer_is_first(replies: Seq<Option<ReadView>>, first: int)
    requires
        0 <= first < replies.len(),
        replies[first] is Some,
        !(replies[first]->0 is NotFound),
        forall|j: int|
            0 <= j < first ==> (#[trigger] replies[j]) is None || replies[j]->0 is NotFound,
    ensures
        native_loglet::first_answer(replies) == replies[first],
    decreases replies.len(),
{
    let front = replies.drop_last();
    assert forall|j: int| 0 <= j < front.len() && j < first implies (#[trigger] front[j]) is None
        || front[j]->0 is NotFound by {
        assert(front[j] == replies[j]);
    }
    if first < front.len() {
        assert(front[first] == replies[first]);
        answer_is_first(front, first);
    } else {
        answer_is_none(front);
    }
}

proof fn answer_is_none(replies: Seq<Option<ReadView>>)
    requires
        forall|j: int|
            0 <= j < replies.len() ==> (#[trigger] replies[j]) is None || replies[j]->0 is NotFound,
    ensures
        native_loglet::first_answer(replies) is None,
    decreases replies.len(),
{
    if replies.len() > 0 {
        let front = replies.drop_last();
        assert(replies[replies.len() - 1] is None || replies[replies.len() - 1]->0 is NotFound);
        assert forall|j: int| 0 <= j < front.len() implies (#[trigger] front[j]) is None
            || front[j]->0 is NotFound by {
            assert(front[j] == replies[j]);
        }
        answer_is_none(front);
    }
}

/// A read is decided by the first server that has the entry or has trimmed it, however
/// many servers were asked before it and whatever those behind it reply.
pub proof fn first_answer_decides(
    pos: LogPos,
    replies: Seq<Option<ReadView>>,
    quorum: nat,
    first: int,
)
    requires
        0 <= first < replies.len(),
        replies[first] is Some,
        !(replies[first]->0 is NotFound),
        forall|j: int|
            0 <= j < first ==> (#[trigger] replies[j]) is None || replies[j]->0 is NotFound,
    ensures
        replies[first]->0 is Trimmed ==> native_loglet::read_decision(pos, replies, quorum)
            == Result::<Option<EntryView>, ErrorView>::Err(ErrorView::Trimmed(pos)),
        replies[first]->0 is Entry ==> native_loglet::read_decision(pos, replies, quorum)
            == Result::<Option<EntryView>, ErrorView>::Ok(Some(replies[first]->0->Entry_0)),
{
    answer_is_first(replies, first);
}

/// Where no server has the entry or has trimmed it, a read says that there is none if
/// and only if at least a quorum of the servers replied.
pub proof fn absence_takes_a_quorum(pos: LogPos, replies: Seq<Option<ReadView>>, quorum: nat)
    requires
        forall|j: int|
            0 <= j < replies.len() ==> (#[trigger] replies[j]) is None || replies[j]->0 is NotFound,
    ensures
        ({
            let replied = Set::new(|i: int| 0 <= i < replies.len() && replies[i] is Some);
            let r = native_loglet::read_decision(pos, replies, quorum);
            &&& replied.finite()
            &&& replied.len() >= quorum ==> r == Result::<Option<EntryView>, ErrorView>::Ok(None)
            &&& replied.len() < quorum ==> r == Result::<Option<EntryView>, ErrorView>::Err(
                ErrorView::Internal("log server reply dropped"@),
            )
        }),
{
    let is = |r: Option<ReadView>| r is Some;
    heard_count(replies);
    answer_is_none(replies);
    assert(Set::new(|i: int| 0 <= i < replies.len() && replies[i] is Some) =~= Set::new(
        |i: int| 0 <= i < replies.len() && is(replies[i]),
    ));
}

// Log servers

/// An open server takes an entry at any free position, and returns it from then on
/// where the position was not trimmed. What it returns elsewhere, and what was
/// trimmed, stay. Its tail moves behind the position where it was not there yet.
pub proof fn stored_entry_is_returned(
    server: ServerView,
    pos: LogPos,
    entry: EntryView,
    other: LogPos,
)
    requires
        !server.sealed,
        !server.entries.contains_key(pos),
        pos < u64::MAX,
    ensures
        ({
            let (next, r) = server.store(pos, entry);
            &&& r == Result::<bool, LogPos>::Ok(true)
            &&& pos >= server.trim ==> next.read(pos) == ReadView::Entry(entry)
            &&& other != pos ==> next.read(other) == server.read(other)
            &&& next.trim == server.trim
            &&& next.sealed == server.sealed
            &&& next.entries.contains_key(pos)
            &&& next.entries.dom() == server.entries.dom().insert(pos)
            &&& next.tail > pos
            &&& next.tail >= server.tail
            &&& next.tail == pos + 1 || next.tail == server.tail
        }),
{
    assert(server.store(pos, entry).0.entries.dom() =~= server.entries.dom().insert(pos));
}

/// A position that holds an entry keeps it, and a sealed server refuses with its tail.
/// Neither changes anything.
pub proof fn taken_position_is_kept(server: ServerView, pos: LogPos, entry: EntryView)
    ensures
        server.sealed ==> server.store(pos, entry) == (
            server,
            Result::<bool, LogPos>::Err(server.tail),
        ),
        !server.sealed && server.entries.contains_key(pos) ==> server.store(pos, entry) == (
            server,
            Result::<bool, LogPos>::Ok(false),
        ),
{
}

/// After a trim a server answers for every position before it that it was trimmed, and
/// for the others as before. Its tail and whether it is sealed stay.
pub proof fn server_trim_hides_prefix(server: ServerView, pos: LogPos, p: LogPos)
    ensures
        p < pos ==> server.trimmed(pos).read(p) == ReadView::Trimmed,
        p >= pos ==> server.trimmed(pos).read(p) == server.read(p),
        server.trimmed(pos).tail == server.tail,
        server.trimmed(pos).sealed == server.sealed,
        pos <= server.trim ==> server.trimmed(pos) == server,
        pos > server.trim ==> server.trimmed(pos).trim == pos && (
        server.trimmed(pos).entries.contains_key(p) <==> server.entries.contains_key(p) && pos
            <= p),
{
}

/// A sealed server returns what it returned before, keeps its tail and refuses every
/// store with it.
pub proof fn sealed_server_refuses(server: ServerView, p: LogPos, entry: EntryView)
    ensures
        server.closed().read(p) == server.read(p),
        server.closed().tail == server.tail,
        server.closed().trim == server.trim,
        server.closed().store(p, entry) == (
            server.closed(),
            Result::<bool, LogPos>::Err(server.tail),
        ),
{
}

/// A server returns an entry exactly where it holds one that was not trimmed.
pub proof fn server_read_is_exact(server: ServerView, p: LogPos)
    ensures
        server.read(p) is Trimmed <==> p < server.trim,
        server.read(p) is Entry <==> p >= server.trim && server.entries.contains_key(p),
        server.read(p) is Entry ==> server.read(p)->Entry_0 == server.entries[p],
{
}

} // verus!
