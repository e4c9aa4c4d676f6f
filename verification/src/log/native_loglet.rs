//! A replicated loglet: a sequencer and log servers with majority quorums.

use vstd::prelude::*;

use crate::base::entry::{Entry, EntryView};
use crate::base::error::{ErrorView, RelosError};
use crate::base::types::{LogPos, LOG_POS_BEGIN};
use crate::log::loglet;
use crate::log::loglet::{LogView, Loglet};
use crate::log::replica::{LogServer, ReadResult, ReadView, Sequencer, ServerView};
use crate::log::virtual_log::LogletFactory;

verus! {

/// A log server's reply to a store, or nothing where it was lost.
pub type StoreReply = Option<Result<bool, LogPos>>;

/// The number of servers that make a majority.
pub open spec fn majority(servers: nat) -> nat {
    servers / 2 + 1
}

/// How many replies acknowledge the entry. A server that already had one at the
/// position counts.
pub open spec fn acks(replies: Seq<StoreReply>) -> nat
    decreases replies.len(),
{
    if replies.len() == 0 {
        0
    } else {
        acks(replies.drop_last()) + if replies.last() is Some && replies.last()->0 is Ok {
            1nat
        } else {
            0nat
        }
    }
}

/// The tail that the last sealed server reported.
pub open spec fn last_refusal(replies: Seq<StoreReply>) -> Option<LogPos>
    decreases replies.len(),
{
    if replies.len() == 0 {
        None
    } else if replies.last() is Some && replies.last()->0 is Err {
        Some(replies.last()->0->Err_0)
    } else {
        last_refusal(replies.drop_last())
    }
}

/// What an append comes to, given the replies: success on a quorum of
/// acknowledgements, else sealed where a server said so.
pub open spec fn append_decision(
    pos: LogPos,
    replies: Seq<StoreReply>,
    quorum: nat,
) -> Result<LogPos, ErrorView> {
    if acks(replies) >= quorum {
        Ok(pos)
    } else if last_refusal(replies) is Some {
        Err(ErrorView::Sealed(last_refusal(replies)->0))
    } else {
        Err(ErrorView::Internal("failed to reach quorum for append"@))
    }
}

/// Decides an append from the servers' replies.
pub fn append_outcome(pos: LogPos, replies: &Vec<StoreReply>, quorum_size: usize) -> (r: Result<
    LogPos,
    RelosError,
>)
    ensures
        match (r, append_decision(pos, replies@, quorum_size as nat)) {
            (Ok(p), Ok(q)) => p == q,
            (Err(e), Err(v)) => e@ == v,
            _ => false,
        },
{
    let mut ack_count: usize = 0;
    let mut seal_tail: Option<LogPos> = None;
    let mut i: usize = 0;
    while i < replies.len()
        invariant
            i <= replies@.len(),
            ack_count <= i,
            ack_count == acks(replies@.take(i as int)),
            seal_tail == last_refusal(replies@.take(i as int)),
        decreases replies.len() - i,
    {
        proof {
            let next = replies@.take(i + 1);
            assert(next.drop_last() == replies@.take(i as int));
            assert(next.last() == replies@[i as int]);
        }
        match replies[i] {
            Some(Ok(_)) => {
                ack_count = ack_count + 1;
            },
            Some(Err(tail)) => {
                seal_tail = Some(tail);
            },
            None => {},
        }
        i = i + 1;
    }
    assert(replies@.take(i as int) == replies@);
    if ack_count >= quorum_size {
        Ok(pos)
    } else {
        match seal_tail {
            Some(tail) => Err(RelosError::Sealed(tail)),
            None => Err(RelosError::Internal("failed to reach quorum for append".to_owned())),
        }
    }
}

/// How many servers reported that they are sealed.
pub open spec fn seals(replies: Seq<Option<LogPos>>) -> nat
    decreases replies.len(),
{
    if replies.len() == 0 {
        0
    } else {
        seals(replies.drop_last()) + if replies.last() is Some {
            1nat
        } else {
            0nat
        }
    }
}

/// The highest of `least` and the reported tails.
pub open spec fn highest(least: LogPos, replies: Seq<Option<LogPos>>) -> LogPos
    decreases replies.len(),
{
    if replies.len() == 0 {
        least
    } else {
        let others = highest(least, replies.drop_last());
        if replies.last() is Some && replies.last()->0 > others {
            replies.last()->0
        } else {
            others
        }
    }
}

/// What a seal comes to, given the sequencer's tail and the replies: the highest
/// tail, where a quorum is sealed.
pub open spec fn seal_decision(
    sequencer_tail: LogPos,
    replies: Seq<Option<LogPos>>,
    quorum: nat,
) -> Result<LogPos, ErrorView> {
    if seals(replies) < quorum {
        Err(ErrorView::Internal("failed to reach quorum for seal"@))
    } else if sequencer_tail > highest(LOG_POS_BEGIN, replies) {
        Ok(sequencer_tail)
    } else {
        Ok(highest(LOG_POS_BEGIN, replies))
    }
}

/// Decides a seal from the sequencer's tail and the servers' replies.
pub fn seal_outcome(
    sequencer_tail: LogPos,
    replies: &Vec<Option<LogPos>>,
    quorum_size: usize,
) -> (r: Result<LogPos, RelosError>)
    ensures
        match (r, seal_decision(sequencer_tail, replies@, quorum_size as nat)) {
            (Ok(p), Ok(q)) => p == q,
            (Err(e), Err(v)) => e@ == v,
            _ => false,
        },
{
    let mut sealed_count: usize = 0;
    let mut max_tail: LogPos = LOG_POS_BEGIN;
    let mut i: usize = 0;
    while i < replies.len()
        invariant
            i <= replies@.len(),
            sealed_count <= i,
            sealed_count == seals(replies@.take(i as int)),
            max_tail == highest(LOG_POS_BEGIN, replies@.take(i as int)),
        decreases replies.len() - i,
    {
        proof {
            let next = replies@.take(i + 1);
            assert(next.drop_last() == replies@.take(i as int));
            assert(next.last() == replies@[i as int]);
        }
        match replies[i] {
            Some(tail) => {
                sealed_count = sealed_count + 1;
                if tail > max_tail {
                    max_tail = tail;
                }
            },
            None => {},
        }
        i = i + 1;
    }
    assert(replies@.take(i as int) == replies@);
    if sealed_count < quorum_size {
        return Err(RelosError::Internal("failed to reach quorum for seal".to_owned()));
    }
    // The sequencer tail should be authoritative, but the highest is taken for safety.
    if sequencer_tail > max_tail {
        Ok(sequencer_tail)
    } else {
        Ok(max_tail)
    }
}

/// A reply to a read that may have been lost.
pub open spec fn reply_view(reply: Option<ReadResult>) -> Option<ReadView> {
    match reply {
        Some(r) => Some(r@),
        None => None,
    }
}

/// The replies of the servers that were asked in turn.
pub open spec fn replies_view(replies: Seq<Option<ReadResult>>) -> Seq<Option<ReadView>> {
    replies.map_values(|r: Option<ReadResult>| reply_view(r))
}

/// Whether a reply decides a read. Else the next server is to be asked: this one has
/// no entry there, or its reply was lost.
pub open spec fn decisive(reply: Option<ReadView>) -> bool {
    reply is Some && !(reply->0 is NotFound)
}

/// Whether a reply decides a read.
pub fn decides(reply: &Option<ReadResult>) -> (r: bool)
    ensures
        r == decisive(reply_view(*reply)),
{
    match reply {
        Some(ReadResult::Entry(_)) => true,
        Some(ReadResult::Trimmed) => true,
        Some(ReadResult::NotFound) => false,
        None => false,
    }
}

/// The first reply that decides a read, where one does.
pub open spec fn first_answer(replies: Seq<Option<ReadView>>) -> Option<ReadView>
    decreases replies.len(),
{
    if replies.len() == 0 {
        None
    } else {
        match first_answer(replies.drop_last()) {
            Some(answer) => Some(answer),
            None => if decisive(replies.last()) {
                replies.last()
            } else {
                None
            },
        }
    }
}

/// How many servers replied to a read.
pub open spec fn heard(replies: Seq<Option<ReadView>>) -> nat
    decreases replies.len(),
{
    if replies.len() == 0 {
        0
    } else {
        heard(replies.drop_last()) + if replies.last() is Some {
            1nat
        } else {
            0nat
        }
    }
}

/// What a read comes to, given the replies of the servers in the order in which
/// they are asked. The first that has the entry, or has trimmed it, decides. That
/// there is no entry is known once a quorum says so.
pub open spec fn read_decision(
    pos: LogPos,
    replies: Seq<Option<ReadView>>,
    quorum: nat,
) -> Result<Option<EntryView>, ErrorView> {
    match first_answer(replies) {
        Some(ReadView::Entry(e)) => Ok(Some(e)),
        Some(ReadView::Trimmed) => Err(ErrorView::Trimmed(pos)),
        _ => if heard(replies) >= quorum {
            Ok(None)
        } else {
            Err(ErrorView::Internal("log server reply dropped"@))
        },
    }
}

/// An answer stays the first when more replies come.
proof fn answer_is_stable(replies: Seq<Option<ReadView>>, n: int)
    requires
        0 <= n <= replies.len(),
        first_answer(replies.take(n)) is Some,
    ensures
        first_answer(replies) == first_answer(replies.take(n)),
    decreases replies.len() - n,
{
    if n < replies.len() {
        let next = replies.take(n + 1);
        assert(next.drop_last() == replies.take(n));
        answer_is_stable(replies, n + 1);
    } else {
        assert(replies.take(n) == replies);
    }
}

/// What is to be done next for an append.
#[derive(Clone, Copy, Debug, PartialEq, Eq, Structural)]
pub enum AppendAction {
    /// Get the next position from the sequencer.
    NextPos,
    /// Get the tail from the sequencer, to refuse the append with it.
    CheckTail,
    /// Send the entry to all log servers.
    Store(LogPos),
}

/// The side of a replicated loglet that asks: it knows how many servers make a
/// quorum, and whether it has learnt that the loglet is sealed.
pub struct QuorumClient {
    pub quorum_size: usize,
    pub sealed: bool,
}

impl QuorumClient {
    /// A client of `num_servers` log servers.
    ///
    /// The quorum size is `num_servers / 2 + 1`.
    pub fn new(num_servers: usize) -> (client: Self)
        requires
            num_servers > 0,
        ensures
            client.quorum_size == majority(num_servers as nat),
            !client.sealed,
    {
        QuorumClient { quorum_size: num_servers / 2 + 1, sealed: false }
    }

    /// Starts an append. The fast path: nothing is asked of a loglet that is
    /// known to be sealed but its tail.
    pub fn start(&self) -> (action: AppendAction)
        ensures
            action == if self.sealed {
                AppendAction::CheckTail
            } else {
                AppendAction::NextPos
            },
    {
        if self.sealed {
            AppendAction::CheckTail
        } else {
            AppendAction::NextPos
        }
    }

    /// Goes on with an append when the sequencer has replied. One that assigns no
    /// position is sealed.
    pub fn assigned(&mut self, pos: Option<LogPos>) -> (action: AppendAction)
        ensures
            final(self).quorum_size == old(self).quorum_size,
            match pos {
                Some(p) => action == AppendAction::Store(p) && final(self).sealed == old(
                    self,
                ).sealed,
                None => action == AppendAction::CheckTail && final(self).sealed,
            },
    {
        match pos {
            Some(p) => AppendAction::Store(p),
            None => {
                self.sealed = true;
                AppendAction::CheckTail
            },
        }
    }

    /// The error with which an append to a sealed loglet is refused.
    pub fn refused(&self, tail: LogPos) -> (e: RelosError)
        ensures
            e == RelosError::Sealed(tail),
    {
        RelosError::Sealed(tail)
    }

    /// Ends an append when the log servers have replied.
    pub fn stored(&mut self, pos: LogPos, replies: &Vec<StoreReply>) -> (r: Result<
        LogPos,
        RelosError,
    >)
        ensures
            final(self).quorum_size == old(self).quorum_size,
            match (r, append_decision(pos, replies@, old(self).quorum_size as nat)) {
                (Ok(p), Ok(q)) => p == q && final(self).sealed == old(self).sealed,
                (Err(e), Err(v)) => e@ == v && final(self).sealed == (old(self).sealed
                    || v is Sealed),
                _ => false,
            },
    {
        match append_outcome(pos, replies, self.quorum_size) {
            Ok(pos) => Ok(pos),
            Err(RelosError::Sealed(tail)) => {
                self.sealed = true;
                Err(RelosError::Sealed(tail))
            },
            Err(e) => Err(e),
        }
    }

    /// Ends a read when the log servers have replied, as far as they were asked: in
    /// turn, until one reply decides.
    pub fn found(&self, pos: LogPos, replies: Vec<Option<ReadResult>>) -> (r: Result<
        Option<Entry>,
        RelosError,
    >)
        ensures
            match (r, read_decision(pos, replies_view(replies@), self.quorum_size as nat)) {
                (Ok(e), Ok(v)) => loglet::read_view(e) == v,
                (Err(e), Err(v)) => e@ == v,
                _ => false,
            },
    {
        let ghost views = replies_view(replies@);
        let mut answered: usize = 0;
        let mut i: usize = 0;
        while i < replies.len()
            invariant
                i <= replies@.len(),
                answered <= i,
                views == replies_view(replies@),
                answered == heard(views.take(i as int)),
                first_answer(views.take(i as int)) is None,
            decreases replies.len() - i,
        {
            proof {
                let next = views.take(i + 1);
                assert(next.drop_last() == views.take(i as int));
                assert(next.last() == reply_view(replies@[i as int]));
                if first_answer(next) is Some {
                    answer_is_stable(views, i + 1);
                }
            }
            match &replies[i] {
                Some(ReadResult::Entry(entry)) => return Ok(Some(entry.clone())),
                Some(ReadResult::Trimmed) => return Err(RelosError::Trimmed(pos)),
                Some(ReadResult::NotFound) => {
                    answered = answered + 1;
                },
                None => {},
            }
            i = i + 1;
        }
        assert(views.take(i as int) == views);
        if answered >= self.quorum_size {
            Ok(None)
        } else {
            Err(RelosError::Internal("log server reply dropped".to_owned()))
        }
    }

    /// Ends a seal when the log servers have replied.
    pub fn closed(&mut self, sequencer_tail: LogPos, replies: &Vec<Option<LogPos>>) -> (r: Result<
        LogPos,
        RelosError,
    >)
        ensures
            final(self).quorum_size == old(self).quorum_size,
            match (r, seal_decision(sequencer_tail, replies@, old(self).quorum_size as nat)) {
                (Ok(p), Ok(q)) => p == q && final(self).sealed,
                (Err(e), Err(v)) => e@ == v && final(self).sealed == old(self).sealed,
                _ => false,
            },
    {
        match seal_outcome(sequencer_tail, replies, self.quorum_size) {
            Ok(tail) => {
                self.sealed = true;
                Ok(tail)
            },
            Err(e) => Err(e),
        }
    }
}

/// A NativeLoglet that uses a sequencer and replicated log servers with majority
/// quorum writes:
/// - A **sequencer** assigns monotonic positions to append requests.
/// - **Log servers** store entries at assigned positions.
/// - Appends fan out to all log servers and succeed when a majority (quorum) ack.
/// - Seal propagates to all servers; the loglet is sealed when a quorum seals.
/// - Reads try each log server until one returns the entry.
pub struct NativeLoglet {
    sequencer: Sequencer,
    log_servers: Vec<LogServer>,
    client: QuorumClient,
}

/// The entries that a server returns.
pub open spec fn readable(server: ServerView) -> Map<LogPos, EntryView> {
    Map::new(
        |p: LogPos| server.entries.contains_key(p) && server.trim <= p,
        |p: LogPos| server.entries[p],
    )
}

impl NativeLoglet {
    /// The servers hold the same, and agree with the sequencer.
    pub closed spec fn valid(&self) -> bool {
        let first = self.log_servers@[0]@;
        &&& self.log_servers@.len() > 0
        &&& self.client.quorum_size == majority(self.log_servers@.len())
        &&& forall|i: int|
            0 <= i < self.log_servers@.len() ==> (#[trigger] self.log_servers@[i])@ == first
        &&& LOG_POS_BEGIN <= self.sequencer.next_pos
        &&& LOG_POS_BEGIN <= first.trim
        &&& first.tail == self.sequencer.next_pos
        &&& first.sealed == self.sequencer.sealed
        &&& self.client.sealed == self.sequencer.sealed
        &&& forall|p: LogPos| #[trigger]
            first.entries.contains_key(p) ==> p < self.sequencer.next_pos
        &&& forall|p: LogPos|
            first.trim <= p < self.sequencer.next_pos ==> #[trigger] first.entries.contains_key(p)
    }

    /// A loglet has no gap: every position below the tail that was not trimmed holds
    /// an entry.
    pub proof fn has_no_gap(&self)
        requires
            self.inv(),
        ensures
            self.log().dense(),
    {
        assert forall|p: LogPos| self.log().trim <= p < self.log().tail implies
            #[trigger] self.log().entries.contains_key(p) by {
            assert(self.log_servers@[0]@.entries.contains_key(p));
        }
    }

    pub closed spec fn model(&self) -> LogView {
        LogView {
            tail: self.sequencer.next_pos,
            sealed: self.client.sealed,
            trim: self.log_servers@[0]@.trim,
            entries: readable(self.log_servers@[0]@),
        }
    }

    /// The number of log servers.
    pub closed spec fn servers(&self) -> nat {
        self.log_servers@.len()
    }

    /// Create a new NativeLoglet with the given number of log servers.
    ///
    /// The quorum size is `num_servers / 2 + 1`.
    pub fn new(num_servers: usize) -> (loglet: Self)
        requires
            num_servers > 0,
        ensures
            loglet.inv(),
            loglet.log() == LogView::empty(),
            loglet.servers() == num_servers,
    {
        let mut log_servers: Vec<LogServer> = Vec::new();
        let mut id: usize = 0;
        while id < num_servers
            invariant
                id <= num_servers,
                log_servers@.len() == id,
                forall|i: int| 0 <= i < id ==> (#[trigger] log_servers@[i])@ == ServerView::empty(),
            decreases num_servers - id,
        {
            log_servers.push(LogServer::new());
            id = id + 1;
        }
        let loglet = NativeLoglet {
            sequencer: Sequencer::new(),
            log_servers,
            client: QuorumClient::new(num_servers),
        };
        assert(loglet.log_servers@[0]@ == ServerView::empty());
        assert(loglet.log() == LogView::empty());
        loglet
    }

    /// Create a NativeLoglet with the default configuration of 3 log servers.
    pub fn with_defaults() -> (loglet: Self)
        ensures
            loglet.inv(),
            loglet.log() == LogView::empty(),
            loglet.servers() == 3,
    {
        Self::new(3)
    }

    /// Fan out a store request to all log servers.
    /// Returns each server's response.
    fn fan_out_store(&mut self, pos: LogPos, entry: &Entry) -> (replies: Vec<StoreReply>)
        requires
            pos < u64::MAX,
        ensures
            final(self).sequencer == old(self).sequencer,
            final(self).client == old(self).client,
            final(self).log_servers@.len() == old(self).log_servers@.len(),
            replies@.len() == old(self).log_servers@.len(),
            forall|i: int|
                0 <= i < old(self).log_servers@.len() ==> (
                #[trigger] final(self).log_servers@[i])@ == old(self).log_servers@[i]@.store(
                    pos,
                    entry@,
                ).0 && replies@[i] == Some(old(self).log_servers@[i]@.store(pos, entry@).1),
    {
        let mut replies: Vec<StoreReply> = Vec::new();
        let mut i: usize = 0;
        while i < self.log_servers.len()
            invariant
                pos < u64::MAX,
                i <= self.log_servers@.len(),
                self.sequencer == old(self).sequencer,
                self.client == old(self).client,
                self.log_servers@.len() == old(self).log_servers@.len(),
                replies@.len() == i,
                forall|j: int|
                    0 <= j < i ==> (#[trigger] self.log_servers@[j])@ == old(
                        self,
                    ).log_servers@[j]@.store(pos, entry@).0 && replies@[j] == Some(
                        old(self).log_servers@[j]@.store(pos, entry@).1,
                    ),
                forall|j: int|
                    i <= j < self.log_servers@.len() ==> #[trigger] self.log_servers@[j] == old(
                        self,
                    ).log_servers@[j],
            decreases self.log_servers.len() - i,
        {
            let server = &mut self.log_servers[i];
            let reply = server.store(pos, entry.clone());
            replies.push(Some(reply));
            i = i + 1;
        }
        replies
    }

    /// Fan out a seal request to all log servers.
    fn fan_out_seal(&mut self) -> (replies: Vec<Option<LogPos>>)
        ensures
            final(self).sequencer == old(self).sequencer,
            final(self).client == old(self).client,
            final(self).log_servers@.len() == old(self).log_servers@.len(),
            replies@.len() == old(self).log_servers@.len(),
            forall|i: int|
                0 <= i < old(self).log_servers@.len() ==> (
                #[trigger] final(self).log_servers@[i])@ == old(self).log_servers@[i]@.closed()
                    && replies@[i] == Some(old(self).log_servers@[i]@.tail),
    {
        let mut replies: Vec<Option<LogPos>> = Vec::new();
        let mut i: usize = 0;
        while i < self.log_servers.len()
            invariant
                i <= self.log_servers@.len(),
                self.sequencer == old(self).sequencer,
                self.client == old(self).client,
                self.log_servers@.len() == old(self).log_servers@.len(),
                replies@.len() == i,
                forall|j: int|
                    0 <= j < i ==> (#[trigger] self.log_servers@[j])@ == old(
                        self,
                    ).log_servers@[j]@.closed() && replies@[j] == Some(
                        old(self).log_servers@[j]@.tail,
                    ),
                forall|j: int|
                    i <= j < self.log_servers@.len() ==> #[trigger] self.log_servers@[j] == old(
                        self,
                    ).log_servers@[j],
            decreases self.log_servers.len() - i,
        {
            let server = &mut self.log_servers[i];
            let tail = server.seal();
            replies.push(Some(tail));
            i = i + 1;
        }
        replies
    }

    /// Fan out a trim request to all log servers.
    fn fan_out_trim(&mut self, pos: LogPos)
        ensures
            final(self).sequencer == old(self).sequencer,
            final(self).client == old(self).client,
            final(self).log_servers@.len() == old(self).log_servers@.len(),
            forall|i: int|
                0 <= i < old(self).log_servers@.len() ==> (#[trigger] final(self).log_servers@[i])@
                    == old(self).log_servers@[i]@.trimmed(pos),
    {
        let mut i: usize = 0;
        while i < self.log_servers.len()
            invariant
                i <= self.log_servers@.len(),
                self.sequencer == old(self).sequencer,
                self.client == old(self).client,
                self.log_servers@.len() == old(self).log_servers@.len(),
                forall|j: int|
                    0 <= j < i ==> (#[trigger] self.log_servers@[j])@ == old(
                        self,
                    ).log_servers@[j]@.trimmed(pos),
                forall|j: int|
                    i <= j < self.log_servers@.len() ==> #[trigger] self.log_servers@[j] == old(
                        self,
                    ).log_servers@[j],
            decreases self.log_servers.len() - i,
        {
            let server = &mut self.log_servers[i];
            server.trim(pos);
            i = i + 1;
        }
    }
}

proof fn all_acked(replies: Seq<StoreReply>)
    requires
        forall|i: int|
            0 <= i < replies.len() ==> (#[trigger] replies[i]) is Some && replies[i]->0 is Ok,
    ensures
        acks(replies) == replies.len(),
    decreases replies.len(),
{
    if replies.len() > 0 {
        all_acked(replies.drop_last());
    }
}

proof fn all_sealed_at(replies: Seq<Option<LogPos>>, tail: LogPos)
    requires
        LOG_POS_BEGIN <= tail,
        forall|i: int| 0 <= i < replies.len() ==> #[trigger] replies[i] == Some(tail),
    ensures
        seals(replies) == replies.len(),
        replies.len() > 0 ==> highest(LOG_POS_BEGIN, replies) == tail,
        highest(LOG_POS_BEGIN, replies) <= tail,
    decreases replies.len(),
{
    if replies.len() > 0 {
        all_sealed_at(replies.drop_last(), tail);
    }
}

proof fn nothing_found(replies: Seq<Option<ReadView>>)
    requires
        forall|i: int|
            0 <= i < replies.len() ==> #[trigger] replies[i] == Some(ReadView::NotFound),
    ensures
        first_answer(replies) is None,
        heard(replies) == replies.len(),
    decreases replies.len(),
{
    if replies.len() > 0 {
        nothing_found(replies.drop_last());
        assert(replies[replies.len() - 1] == replies.last());
    }
}

impl Loglet for NativeLoglet {
    open spec fn inv(&self) -> bool {
        self.valid()
    }

    open spec fn log(&self) -> LogView {
        self.model()
    }

    open spec fn reliable(&self) -> bool {
        true
    }

    open spec fn coherent(&self) -> bool {
        true
    }

    open spec fn has_room(&self, n: nat) -> bool {
        self.log().tail + n <= u64::MAX
    }

    open spec fn chained(&self) -> bool {
        false
    }

    proof fn room_below_limit(&self, n: nat) {
    }

    proof fn fewer_fit(&self, n: nat, k: nat) {
    }

    proof fn others_are_coherent(&self) {
    }

    proof fn log_is_wf(&self) {
    }

    fn append(&mut self, entry: &Entry) -> (r: Result<LogPos, RelosError>) {
        // Step 1: Get next position from sequencer, unless already sealed.
        let mut action = self.client.start();
        if let AppendAction::NextPos = action {
            let assigned = self.sequencer.next_pos();
            action = self.client.assigned(assigned);
        }
        let pos = match action {
            AppendAction::Store(pos) => pos,
            _ => return Err(self.client.refused(self.sequencer.check_tail())),
        };

        // Step 2: Fan out store to all log servers and collect replies.
        let replies = self.fan_out_store(pos, entry);
        proof {
            let first = old(self).log_servers@[0]@;
            assert forall|i: int| 0 <= i < replies@.len() implies (#[trigger] replies@[i]) is Some
                && replies@[i]->0 is Ok && self.log_servers@[i]@ == first.store(pos, entry@).0 by {
                assert(old(self).log_servers@[i]@ == first);
                assert(self.log_servers@[i]@ == first.store(pos, entry@).0);
            }
            all_acked(replies@);
            assert forall|i: int| 0 <= i < self.log_servers@.len() implies (
            #[trigger] self.log_servers@[i])@ == self.log_servers@[0]@ by {
                assert(replies@[i] is Some && replies@[0] is Some);
            }
            assert(replies@[0] is Some);
            assert(self.log().entries =~= old(self).log().appended(entry@).entries);
        }

        // Step 3: Count successful acks.
        self.client.stored(pos, &replies)
    }

    fn check_tail(&self) -> (r: Result<LogPos, RelosError>) {
        Ok(self.sequencer.check_tail())
    }

    fn read(&self, pos: LogPos) -> (r: Result<Option<Entry>, RelosError>) {
        // Try each log server until one has the entry.
        let ghost answer = self.log_servers@[0]@.read(pos);
        let mut replies: Vec<Option<ReadResult>> = Vec::new();
        let mut i: usize = 0;
        while i < self.log_servers.len()
            invariant
                self.inv(),
                answer == self.log_servers@[0]@.read(pos),
                i <= self.log_servers@.len(),
                replies@.len() == i,
                i > 0 ==> answer is NotFound,
                forall|j: int| 0 <= j < i ==> reply_view(#[trigger] replies@[j]) == Some(answer),
            decreases self.log_servers.len() - i,
        {
            let reply = Some(self.log_servers[i].read(pos));
            let decided = decides(&reply);
            replies.push(reply);
            if decided {
                proof {
                    assert(reply_view(replies@[i as int]) == Some(answer));
                    one_answer(replies_view(replies@), answer, i as int);
                }
                return self.client.found(pos, replies);
            }
            i = i + 1;
        }
        proof {
            nothing_found(replies_view(replies@));
        }
        self.client.found(pos, replies)
    }

    fn trim(&mut self, pos: LogPos) -> (r: Result<(), RelosError>) {
        self.fan_out_trim(pos);
        proof {
            let first = old(self).log_servers@[0]@;
            assert forall|i: int| 0 <= i < self.log_servers@.len() implies (
            #[trigger] self.log_servers@[i])@ == first.trimmed(pos) by {
                assert(old(self).log_servers@[i]@ == first);
            }
            assert(self.log() == old(self).log().trimmed(pos));
        }
        Ok(())
    }

    fn seal(&mut self) -> (r: Result<LogPos, RelosError>) {
        // Step 1: Seal the sequencer to prevent new position assignments.
        let sequencer_tail = self.sequencer.seal();
        // Step 2: Seal all log servers and collect their tails.
        let replies = self.fan_out_seal();
        proof {
            let first = old(self).log_servers@[0]@;
            assert forall|i: int| 0 <= i < replies@.len() implies #[trigger] replies@[i] == Some(
                first.tail,
            ) && self.log_servers@[i]@ == first.closed() by {
                assert(old(self).log_servers@[i]@ == first);
                assert(self.log_servers@[i]@ == first.closed());
            }
            all_sealed_at(replies@, first.tail);
            assert forall|i: int| 0 <= i < self.log_servers@.len() implies (
            #[trigger] self.log_servers@[i])@ == first.closed() by {
                assert(replies@[i] is Some);
            }
        }
        let r = self.client.closed(sequencer_tail, &replies);
        assert(self.log() == old(self).log().closed());
        r
    }
}

/// Factory that creates NativeLoglet instances with a configurable number
/// of log servers.
pub struct NativeLogletFactory {
    num_servers: usize,
}

impl NativeLogletFactory {
    /// The number of log servers of each loglet.
    pub closed spec fn servers(&self) -> nat {
        self.num_servers as nat
    }

    pub fn new(num_servers: usize) -> (factory: Self)
        ensures
            factory.servers() == num_servers,
    {
        NativeLogletFactory { num_servers }
    }
}

impl Default for NativeLogletFactory {
    fn default() -> (factory: Self)
        ensures
            factory.servers() == 3,
    {
        NativeLogletFactory { num_servers: 3 }
    }
}

impl LogletFactory for NativeLogletFactory {
    type Log = NativeLoglet;

    /// A loglet needs at least one log server.
    open spec fn usable(&self) -> bool {
        self.servers() > 0
    }

    open spec fn reliable(&self) -> bool {
        true
    }

    fn create(&self, loglet_id: &str) -> (r: Result<NativeLoglet, RelosError>)
        ensures
            r is Ok ==> r->Ok_0.servers() == self.servers(),
    {
        Ok(NativeLoglet::new(self.num_servers))
    }
}

// Quorums

/// How many of the flags are set.
pub open spec fn set_flags(flags: Seq<bool>) -> nat
    decreases flags.len(),
{
    if flags.len() == 0 {
        0
    } else {
        set_flags(flags.drop_last()) + if flags.last() {
            1nat
        } else {
            0nat
        }
    }
}

/// The replies to a store that arrive, where `arrives` tells which do.
pub open spec fn store_replies(
    servers: Seq<ServerView>,
    arrives: Seq<bool>,
    pos: LogPos,
    entry: EntryView,
) -> Seq<StoreReply> {
    Seq::new(
        servers.len(),
        |i: int|
            if arrives[i] {
                Some(servers[i].store(pos, entry).1)
            } else {
                None
            },
    )
}

/// The servers after a store reached those that `reaches` tells.
pub open spec fn after_store(
    servers: Seq<ServerView>,
    reaches: Seq<bool>,
    pos: LogPos,
    entry: EntryView,
) -> Seq<ServerView> {
    Seq::new(
        servers.len(),
        |i: int|
            if reaches[i] {
                servers[i].store(pos, entry).0
            } else {
                servers[i]
            },
    )
}

/// Which servers are sealed.
pub open spec fn sealed_flags(servers: Seq<ServerView>) -> Seq<bool> {
    servers.map_values(|s: ServerView| s.sealed)
}

/// Two sets of which no server is in both hold no more servers than there are.
proof fn disjoint_flags(a: Seq<bool>, b: Seq<bool>)
    requires
        a.len() == b.len(),
        forall|i: int| 0 <= i < a.len() ==> !(#[trigger] a[i] && #[trigger] b[i]),
    ensures
        set_flags(a) + set_flags(b) <= a.len(),
    decreases a.len(),
{
    if a.len() > 0 {
        disjoint_flags(a.drop_last(), b.drop_last());
        assert(!(a[a.len() - 1] && b[a.len() - 1]));
    }
}

/// Any two quorums have a server in common.
pub proof fn quorums_meet(a: Seq<bool>, b: Seq<bool>) -> (i: int)
    requires
        a.len() == b.len(),
        set_flags(a) >= majority(a.len()),
        set_flags(b) >= majority(b.len()),
    ensures
        0 <= i < a.len(),
        a[i],
        b[i],
{
    if forall|i: int| 0 <= i < a.len() ==> !(#[trigger] a[i] && #[trigger] b[i]) {
        disjoint_flags(a, b);
    }
    choose|i: int| 0 <= i < a.len() && #[trigger] a[i] && #[trigger] b[i]
}

spec fn ack_flags(replies: Seq<StoreReply>) -> Seq<bool> {
    replies.map_values(|r: StoreReply| r is Some && r->0 is Ok)
}

proof fn acks_are_flags(replies: Seq<StoreReply>)
    ensures
        acks(replies) == set_flags(ack_flags(replies)),
    decreases replies.len(),
{
    if replies.len() > 0 {
        acks_are_flags(replies.drop_last());
        assert(ack_flags(replies).drop_last() == ack_flags(replies.drop_last()));
    }
}

/// Once a quorum of servers is sealed no append succeeds, whichever of them reply.
pub proof fn sealed_quorum_refuses(
    servers: Seq<ServerView>,
    arrives: Seq<bool>,
    pos: LogPos,
    entry: EntryView,
)
    requires
        arrives.len() == servers.len(),
        set_flags(sealed_flags(servers)) >= majority(servers.len()),
    ensures
        append_decision(
            pos,
            store_replies(servers, arrives, pos, entry),
            majority(servers.len()),
        ) is Err,
{
    let replies = store_replies(servers, arrives, pos, entry);
    acks_are_flags(replies);
    if acks(replies) >= majority(servers.len()) {
        let i = quorums_meet(sealed_flags(servers), ack_flags(replies));
        assert(servers[i].sealed);
    }
}

/// Where an append succeeded, every quorum of servers has one that holds an entry
/// at the position: the appended one, where the position was free.
pub proof fn acked_entry_is_held(
    servers: Seq<ServerView>,
    reaches: Seq<bool>,
    arrives: Seq<bool>,
    pos: LogPos,
    entry: EntryView,
    asked: Seq<bool>,
) -> (i: int)
    requires
        reaches.len() == arrives.len() == asked.len() == servers.len(),
        forall|i: int| 0 <= i < servers.len() && #[trigger] arrives[i] ==> reaches[i],
        append_decision(
            pos,
            store_replies(servers, arrives, pos, entry),
            majority(servers.len()),
        ) is Ok,
        set_flags(asked) >= majority(servers.len()),
    ensures
        0 <= i < servers.len(),
        asked[i],
        after_store(servers, reaches, pos, entry)[i].entries.contains_key(pos),
        !servers[i].entries.contains_key(pos) ==> after_store(
            servers,
            reaches,
            pos,
            entry,
        )[i].entries[pos] == entry,
{
    let replies = store_replies(servers, arrives, pos, entry);
    acks_are_flags(replies);
    let i = quorums_meet(ack_flags(replies), asked);
    assert(arrives[i]);
    i
}

/// The replies to a read that arrive, where `arrives` tells which do.
pub open spec fn read_replies(servers: Seq<ServerView>, arrives: Seq<bool>, pos: LogPos) -> Seq<
    Option<ReadView>,
> {
    Seq::new(
        servers.len(),
        |i: int|
            if arrives[i] {
                Some(servers[i].read(pos))
            } else {
                None
            },
    )
}

/// Where all replies that decide say the same, and one does, that is the answer.
proof fn one_answer(replies: Seq<Option<ReadView>>, answer: ReadView, i: int)
    requires
        0 <= i < replies.len(),
        replies[i] == Some(answer),
        !(answer is NotFound),
        forall|j: int|
            0 <= j < replies.len() ==> (#[trigger] replies[j]) is None || replies[j] == Some(
                ReadView::NotFound,
            ) || replies[j] == Some(answer),
    ensures
        first_answer(replies) == Some(answer),
    decreases replies.len(),
{
    let front = replies.drop_last();
    if i < front.len() {
        assert forall|j: int| 0 <= j < front.len() implies (#[trigger] front[j]) is None
            || front[j] == Some(ReadView::NotFound) || front[j] == Some(answer) by {
            assert(front[j] == replies[j]);
        }
        one_answer(front, answer, i);
    } else {
        no_other_answer(front, answer);
    }
}

/// Where all replies that decide say the same, no other is the answer.
proof fn no_other_answer(replies: Seq<Option<ReadView>>, answer: ReadView)
    requires
        forall|j: int|
            0 <= j < replies.len() ==> (#[trigger] replies[j]) is None || replies[j] == Some(
                ReadView::NotFound,
            ) || replies[j] == Some(answer),
    ensures
        first_answer(replies) is None || first_answer(replies) == Some(answer),
    decreases replies.len(),
{
    if replies.len() > 0 {
        let front = replies.drop_last();
        assert forall|j: int| 0 <= j < front.len() implies (#[trigger] front[j]) is None
            || front[j] == Some(ReadView::NotFound) || front[j] == Some(answer) by {
            assert(front[j] == replies[j]);
        }
        no_other_answer(front, answer);
        assert(replies[replies.len() - 1] == replies.last());
    }
}

/// Which servers hold the entry at the position.
pub open spec fn holder_flags(servers: Seq<ServerView>, pos: LogPos, entry: EntryView) -> Seq<
    bool,
> {
    servers.map_values(
        |s: ServerView| s.entries.contains_key(pos) && s.entries[pos] == entry,
    )
}

/// A quorum holds the entry at the position, no server holds another one there, and
/// none has trimmed it.
pub open spec fn durable(servers: Seq<ServerView>, pos: LogPos, entry: EntryView) -> bool {
    &&& set_flags(holder_flags(servers, pos, entry)) >= majority(servers.len())
    &&& forall|i: int|
        0 <= i < servers.len() ==> (#[trigger] servers[i]).trim <= pos && (
        servers[i].entries.contains_key(pos) ==> servers[i].entries[pos] == entry)
}

/// The servers after a seal reached those that `reaches` tells.
pub open spec fn after_seal(servers: Seq<ServerView>, reaches: Seq<bool>) -> Seq<ServerView> {
    Seq::new(
        servers.len(),
        |i: int|
            if reaches[i] {
                servers[i].closed()
            } else {
                servers[i]
            },
    )
}

proof fn more_flags(a: Seq<bool>, b: Seq<bool>)
    requires
        a.len() == b.len(),
        forall|i: int| 0 <= i < a.len() && #[trigger] a[i] ==> b[i],
    ensures
        set_flags(a) <= set_flags(b),
    decreases a.len(),
{
    if a.len() > 0 {
        assert(a.last() ==> b.last()) by {
            assert(a[a.len() - 1] ==> b[a.len() - 1]);
        }
        assert forall|i: int| 0 <= i < a.drop_last().len() && #[trigger] a.drop_last()[i] implies
            b.drop_last()[i] by {
            assert(a[i] ==> b[i]);
        }
        more_flags(a.drop_last(), b.drop_last());
    }
}

/// An entry whose append succeeded, at a position that was free, is durable.
pub proof fn acked_entry_is_durable(
    servers: Seq<ServerView>,
    reaches: Seq<bool>,
    arrives: Seq<bool>,
    pos: LogPos,
    entry: EntryView,
)
    requires
        reaches.len() == arrives.len() == servers.len(),
        forall|i: int| 0 <= i < servers.len() && #[trigger] arrives[i] ==> reaches[i],
        forall|i: int|
            0 <= i < servers.len() ==> !(#[trigger] servers[i]).entries.contains_key(pos)
                && servers[i].trim <= pos,
        append_decision(
            pos,
            store_replies(servers, arrives, pos, entry),
            majority(servers.len()),
        ) is Ok,
    ensures
        durable(after_store(servers, reaches, pos, entry), pos, entry),
{
    let after = after_store(servers, reaches, pos, entry);
    let replies = store_replies(servers, arrives, pos, entry);
    acks_are_flags(replies);
    let a = ack_flags(replies);
    let b = holder_flags(after, pos, entry);
    assert forall|i: int| 0 <= i < a.len() && #[trigger] a[i] implies b[i] by {
        assert(replies[i] is Some && replies[i]->0 is Ok);
        assert(arrives[i]);
        assert(!servers[i].entries.contains_key(pos));
    }
    more_flags(a, b);
    assert forall|i: int| 0 <= i < after.len() implies (#[trigger] after[i]).trim <= pos && (
    after[i].entries.contains_key(pos) ==> after[i].entries[pos] == entry) by {
        assert(!servers[i].entries.contains_key(pos) && servers[i].trim <= pos);
    }
}

/// What is durable stays so, whichever servers later stores at other positions and
/// seals reach.
pub proof fn durable_entry_stays(
    servers: Seq<ServerView>,
    pos: LogPos,
    entry: EntryView,
    reaches: Seq<bool>,
    other: LogPos,
    another: EntryView,
)
    requires
        reaches.len() == servers.len(),
        durable(servers, pos, entry),
        other != pos,
    ensures
        durable(after_store(servers, reaches, other, another), pos, entry),
        durable(after_seal(servers, reaches), pos, entry),
{
    let held = holder_flags(servers, pos, entry);
    let stored = after_store(servers, reaches, other, another);
    let closed = after_seal(servers, reaches);
    assert forall|i: int| 0 <= i < servers.len() implies (#[trigger] stored[i]).trim <= pos && (
    stored[i].entries.contains_key(pos) ==> stored[i].entries[pos] == entry) by {
        assert(servers[i].trim <= pos);
    }
    assert forall|i: int| 0 <= i < servers.len() implies (#[trigger] closed[i]).trim <= pos && (
    closed[i].entries.contains_key(pos) ==> closed[i].entries[pos] == entry) by {
        assert(servers[i].trim <= pos);
    }
    assert(holder_flags(stored, pos, entry) =~= held);
    assert(holder_flags(closed, pos, entry) =~= held);
}

/// What is durable is read back from any quorum of servers that replies.
pub proof fn durable_entry_is_read_back(
    servers: Seq<ServerView>,
    pos: LogPos,
    entry: EntryView,
    asked: Seq<bool>,
)
    requires
        asked.len() == servers.len(),
        durable(servers, pos, entry),
        set_flags(asked) >= majority(servers.len()),
    ensures
        read_decision(pos, read_replies(servers, asked, pos), majority(servers.len())) == Result::<
            Option<EntryView>,
            ErrorView,
        >::Ok(Some(entry)),
{
    let replies = read_replies(servers, asked, pos);
    let i = quorums_meet(holder_flags(servers, pos, entry), asked);
    assert forall|j: int| 0 <= j < replies.len() implies (#[trigger] replies[j]) is None
        || replies[j] == Some(ReadView::NotFound) || replies[j] == Some(ReadView::Entry(entry)) by {
        assert(servers[j].trim <= pos);
    }
    assert(servers[i].trim <= pos);
    one_answer(replies, ReadView::Entry(entry), i);
}

/// The tail that a seal returns lies behind every position that the sequencer
/// assigned and behind everything that a server reported.
pub proof fn sealed_tail_covers(
    sequencer_tail: LogPos,
    replies: Seq<Option<LogPos>>,
    quorum: nat,
    i: int,
)
    requires
        seal_decision(sequencer_tail, replies, quorum) is Ok,
        0 <= i < replies.len(),
    ensures
        sequencer_tail <= seal_decision(sequencer_tail, replies, quorum)->Ok_0,
        replies[i] is Some ==> replies[i]->0 <= seal_decision(
            sequencer_tail,
            replies,
            quorum,
        )->Ok_0,
{
    highest_covers(LOG_POS_BEGIN, replies, i);
}

proof fn highest_covers(least: LogPos, replies: Seq<Option<LogPos>>, i: int)
    requires
        0 <= i < replies.len(),
    ensures
        replies[i] is Some ==> replies[i]->0 <= highest(least, replies),
    decreases replies.len(),
{
    if i < replies.len() - 1 {
        highest_covers(least, replies.drop_last(), i);
    }
}

} // verus!
