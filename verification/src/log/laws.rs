//! What holds between the operations of a log.

use vstd::prelude::*;

use crate::base::entry::{Entry, EntryView};
use crate::base::error::{ErrorView, RelosError};
use crate::base::text;
use crate::base::types::{LogPos, LOG_POS_BEGIN};
use crate::log::chain;
use crate::log::chain::{ChainView, SegmentView};
use crate::log::loglet;
use crate::log::loglet::{LogView, Loglet};
use crate::log::memory_loglet::{MemoryLoglet, MemoryLogletFactory};
use crate::log::metastore::{MemoryMetaStore, MetaStore};
use crate::log::native_loglet::{NativeLoglet, NativeLogletFactory};
use crate::log::virtual_log;
use crate::log::virtual_log::{LogletFactory, VirtualLog};
use crate::log::virtual_view;
use crate::log::virtual_view::VirtualView;

verus! {

/// An appended entry is read back at the position that was assigned, the other
/// entries stay, and the next position is assigned next.
pub proof fn append_is_read_back(log: LogView, entry: EntryView, p: LogPos)
    requires
        log.wf(),
        log.trim <= log.tail < u64::MAX,
    ensures
        log.appended(entry).wf(),
        log.appended(entry).tail == log.tail + 1,
        log.appended(entry).trim == log.trim,
        log.appended(entry).entry(log.tail) == Some(entry),
        log.entry(log.tail) is None,
        p != log.tail ==> log.appended(entry).entry(p) == log.entry(p),
{
}

/// A trim hides the entries before its position, leaves the others and the tail,
/// and is ignored where more was trimmed before.
pub proof fn trim_hides_prefix(log: LogView, pos: LogPos, p: LogPos)
    requires
        log.wf(),
    ensures
        log.trimmed(pos).wf(),
        log.trimmed(pos).tail == log.tail,
        log.trimmed(pos).trim >= pos,
        log.trimmed(pos).trim >= log.trim,
        p < pos ==> log.trimmed(pos).entry(p) is None,
        p >= pos ==> log.trimmed(pos).entry(p) == log.entry(p),
        pos <= log.trim ==> log.trimmed(pos) == log,
{
}

/// Of two trims the farther one counts, in whatever order they come.
pub proof fn farther_trim_counts(log: LogView, a: LogPos, b: LogPos)
    requires
        a <= b,
    ensures
        log.trimmed(a).trimmed(b) == log.trimmed(b),
        log.trimmed(b).trimmed(a) == log.trimmed(b),
{
    assert(log.trimmed(a).trimmed(b).entries =~= log.trimmed(b).entries);
}

/// A seal keeps the tail and every entry, and sealing again changes nothing.
pub proof fn seal_keeps_entries(log: LogView, p: LogPos)
    ensures
        log.closed().sealed,
        log.closed().tail == log.tail,
        log.closed().entry(p) == log.entry(p),
        log.closed().closed() == log.closed(),
{
}

/// A log without a gap has none after an append, a trim or a seal, nor when it goes
/// on after a seal.
pub proof fn no_gap_opens(log: LogView, entry: EntryView, pos: LogPos)
    requires
        log.dense(),
        log.tail < u64::MAX,
    ensures
        LogView::empty().dense(),
        log.appended(entry).dense(),
        log.trimmed(pos).dense(),
        log.closed().dense(),
        log.reopened().dense(),
{
}

/// What is appended to a virtual log is read back at the position that was
/// assigned, also where the log had to be reconfigured for it. What could be
/// read before can still be read, across all segments.
pub proof fn virtual_append_is_read_back(log: VirtualView, entry: EntryView, p: LogPos)
    requires
        log.coherent(),
        log.has_room(1),
        log.log().trim <= log.log().tail,
    ensures
        ({
            let (next, r) = log.append(entry);
            let pos = log.log().tail;
            &&& r == Result::<LogPos, ErrorView>::Ok(pos)
            &&& next.coherent()
            &&& !next.sealed()
            &&& next.log().tail == pos + 1
            &&& next.read(pos) == Result::<Option<EntryView>, ErrorView>::Ok(Some(entry))
            &&& log.log().trim <= p < pos ==> next.read(p) == log.read(p)
            &&& LOG_POS_BEGIN <= p < log.log().trim ==> next.read(p) == Result::<
                Option<EntryView>,
                ErrorView,
            >::Err(ErrorView::Trimmed(p))
        }),
{
    let opened = if log.sealed() {
        log.coherent_reconfigured();
        log.reconfigured_room(1);
        log.reconfigured()
    } else {
        log
    };
    log.coherent_range();
    opened.coherent_range();
    opened.coherent_append(entry);
    assert(log.append(entry) == opened.append(entry));
    let next = log.append(entry).0;
    log.coherent_read(p);
    log.coherent_wf();
    next.coherent_read(p);
    next.coherent_read(log.log().tail);
    next.coherent_wf();
}

// Logs

/// An append, a trim and a seal each change one thing: an append the tail and the entry
/// at it, a trim the trim position and what lies before it, a seal whether the log is
/// sealed. An entry that is appended below the trim position cannot be read.
pub proof fn operations_change_one_thing(log: LogView, entry: EntryView, pos: LogPos, p: LogPos)
    requires
        log.tail < u64::MAX,
    ensures
        log.appended(entry).sealed == log.sealed,
        log.appended(entry).trim == log.trim,
        log.appended(entry).tail == log.tail + 1,
        log.trim <= log.tail ==> log.appended(entry).entry(log.tail) == Some(entry),
        p != log.tail ==> log.appended(entry).entry(p) == log.entry(p),
        log.tail < log.trim ==> log.appended(entry).entry(p) == log.entry(p),
        log.trimmed(pos).sealed == log.sealed,
        log.trimmed(pos).tail == log.tail,
        log.trimmed(pos).trim == log.trim || log.trimmed(pos).trim == pos,
        log.closed().trim == log.trim,
        log.closed().entries == log.entries,
{
}

/// A sealed log that goes on is open, at the same tail and with the same entries. What
/// was trimmed before the tail stays so, and nothing behind it is.
pub proof fn sealed_log_goes_on(log: LogView, entry: EntryView, p: LogPos)
    requires
        log.tail < u64::MAX,
    ensures
        !log.reopened().sealed,
        log.reopened().tail == log.tail,
        log.reopened().entry(p) == log.entry(p),
        log.reopened().trim <= log.tail,
        log.trim <= log.tail ==> log.reopened().trim == log.trim,
        log.trim > log.tail ==> log.reopened().trim == log.tail,
        log.sealed ==> log.extended(entry) == log.reopened().appended(entry),
        !log.sealed ==> log.extended(entry) == log.appended(entry),
        log.sealed ==> log.extended(entry).entry(log.tail) == Some(entry),
{
}

/// A read before the trim position is refused with the position. Before the first
/// position a chain says that no segment holds it.
pub proof fn refusals_name_the_position(pos: LogPos)
    ensures
        loglet::refusal(false, pos) == ErrorView::Trimmed(pos),
        pos >= LOG_POS_BEGIN ==> loglet::refusal(true, pos) == ErrorView::Trimmed(pos),
        pos < LOG_POS_BEGIN ==> loglet::refusal(true, pos) == ErrorView::Internal(
            loglet::no_segment_text(pos),
        ),
{
}

// Chains

/// Extending a chain adds one open segment at its end that starts at the seal position.
/// The segment before it is closed there where it was open. All others stay.
pub proof fn extend_adds_one_segment(chain: ChainView, seal_pos: LogPos, id: Seq<char>, i: int)
    ensures
        ({
            let n = chain.segments.len() as int;
            let longer = chain.extended(seal_pos, id).segments;
            &&& longer.len() == n + 1
            &&& longer[n] == (SegmentView { id, start: seal_pos, end: None })
            &&& 0 <= i < n - 1 ==> longer[i] == chain.segments[i]
            &&& n > 0 ==> longer[n - 1].id == chain.segments[n - 1].id && longer[n - 1].start
                == chain.segments[n - 1].start
            &&& n > 0 && chain.segments[n - 1].end is None ==> longer[n - 1].end == Some(seal_pos)
            &&& n > 0 && chain.segments[n - 1].end is Some ==> longer[n - 1].end
                == chain.segments[n - 1].end
        }),
{
}

/// A position is found in the first segment that starts at or before it and does not
/// end before or at it, and nowhere where there is none.
pub proof fn position_is_found(chain: ChainView, pos: LogPos, i: int)
    requires
        0 <= i < chain.segments.len(),
        chain.segments[i].start <= pos,
        chain.segments[i].end is None || pos < chain.segments[i].end->0,
        forall|j: int|
            0 <= j < i ==> pos < (#[trigger] chain.segments[j]).start || (
            chain.segments[j].end is Some && chain.segments[j].end->0 <= pos),
    ensures
        chain.find(pos) == Some(chain.segments[i]),
{
    assert forall|j: int| 0 <= j < i implies !(#[trigger] chain.segments[j]).covers(pos) by {}
    chain::find_is(chain, pos, i);
}

/// A position that no segment holds is not found.
pub proof fn position_is_not_found(chain: ChainView, pos: LogPos)
    requires
        forall|j: int|
            0 <= j < chain.segments.len() ==> pos < (#[trigger] chain.segments[j]).start || (
            chain.segments[j].end is Some && chain.segments[j].end->0 <= pos),
    ensures
        chain.find(pos) is None,
{
    assert forall|i: int| !chain.first_at(pos, i) by {
        if chain.first_at(pos, i) {
            assert(chain.segments[i].covers(pos));
        }
    }
}

/// The active segment is the last one, where it is open.
pub proof fn active_segment_is_last(chain: ChainView)
    ensures
        chain.segments.len() == 0 ==> chain.active() is None,
        chain.segments.len() > 0 && chain.segments[chain.segments.len() - 1].end is Some
            ==> chain.active() is None,
        chain.segments.len() > 0 && chain.segments[chain.segments.len() - 1].end is None
            ==> chain.active() == Some(chain.segments[chain.segments.len() - 1]),
{
}

// Virtual logs

/// A read goes to the loglet of the segment that holds the position, at its place in it:
/// the segment's start is the loglet's first position.
pub proof fn read_goes_to_its_segment(log: VirtualView, pos: LogPos)
    ensures
        log.chain.find(pos) is None ==> log.read(pos) == Result::<
            Option<EntryView>,
            ErrorView,
        >::Err(ErrorView::Internal(loglet::no_segment_text(pos))),
        log.chain.find(pos) is Some ==> {
            let s = log.chain.find(pos)->0;
            let below = log.loglets[s.id];
            let p = (pos - s.start + LOG_POS_BEGIN) as LogPos;
            &&& p < below.trim ==> log.read(pos) == Result::<Option<EntryView>, ErrorView>::Err(
                ErrorView::Trimmed(pos),
            )
            &&& p >= below.trim ==> log.read(pos) == Result::<Option<EntryView>, ErrorView>::Ok(
                below.entry(p),
            )
        },
{
}

/// An append to an open virtual log appends to the active loglet, at its tail, and
/// changes nothing else. One to a sealed log is made after a reconfiguration. Without an
/// active segment it fails.
pub proof fn append_goes_to_the_active_segment(log: VirtualView, entry: EntryView, id: Seq<char>)
    ensures
        ({
            let (next, r) = log.append(entry);
            let a = log.chain.active();
            let below = log.loglets[a->0.id];
            &&& a is None ==> next == log && r == Result::<LogPos, ErrorView>::Err(
                ErrorView::Internal("no active segment in chain"@),
            )
            &&& a is Some && below.sealed ==> (next, r) == log.reconfigured().append(entry)
            &&& a is Some && !below.sealed ==> {
                &&& r == Result::<LogPos, ErrorView>::Ok(
                    (a->0.start + below.tail - LOG_POS_BEGIN) as LogPos,
                )
                &&& next.chain == log.chain
                &&& next.version == log.version
                &&& next.meta_chain == log.meta_chain
                &&& next.meta_version == log.meta_version
                &&& next.loglets.contains_key(a->0.id)
                &&& next.loglets[a->0.id] == below.appended(entry)
                &&& id != a->0.id ==> next.loglets.contains_key(id) == log.loglets.contains_key(id)
                &&& id != a->0.id && log.loglets.contains_key(id) ==> next.loglets[id]
                    == log.loglets[id]
            }
        }),
{
}

/// A reconfiguration of a log that knows the newest chain seals the active loglet and
/// extends the chain at its tail by a new, empty one, here and in the register. The other
/// loglets stay.
pub proof fn reconfiguration_extends_the_chain(log: VirtualView, id: Seq<char>)
    requires
        log.chain.active() is Some,
        log.version == log.meta_version,
        log.version < u64::MAX,
        log.chain.active()->0.id != "loglet-"@ + text::decimal_text(log.chain.segments.len()),
    ensures
        ({
            let next = log.reconfigured();
            let a = log.chain.active()->0;
            let fresh = "loglet-"@ + text::decimal_text(log.chain.segments.len());
            &&& next.chain == log.chain.extended(
                (a.start + log.loglets[a.id].tail - LOG_POS_BEGIN) as LogPos,
                fresh,
            )
            &&& next.meta_chain == next.chain
            &&& next.version == log.version + 1
            &&& next.meta_version == log.meta_version + 1
            &&& next.loglets.contains_key(fresh) && next.loglets[fresh] == LogView::empty()
            &&& next.loglets.contains_key(a.id) && next.loglets[a.id]
                == log.loglets[a.id].closed()
            &&& id != a.id && id != fresh ==> next.loglets.contains_key(id)
                == log.loglets.contains_key(id)
            &&& id != a.id && id != fresh && log.loglets.contains_key(id) ==> next.loglets[id]
                == log.loglets[id]
        }),
{
}

proof fn missing_are_named(loglets: Map<Seq<char>, LogView>, segments: Seq<SegmentView>)
    ensures
        forall|id: Seq<char>| #[trigger]
            virtual_view::with_missing(loglets, segments).contains_key(id) ==> loglets.contains_key(
                id,
            ) || exists|k: int| 0 <= k < segments.len() && (#[trigger] segments[k]).id == id,
    decreases segments.len(),
{
    if segments.len() > 0 {
        let front = segments.drop_last();
        missing_are_named(loglets, front);
        assert forall|id: Seq<char>| #[trigger]
            virtual_view::with_missing(loglets, segments).contains_key(id) implies loglets.contains_key(
            id,
        ) || exists|k: int| 0 <= k < segments.len() && (#[trigger] segments[k]).id == id by {
            if id == segments.last().id {
                assert(segments[segments.len() - 1].id == id);
            } else if !loglets.contains_key(id) {
                assert(virtual_view::with_missing(loglets, front).contains_key(id));
                let k = choose|k: int| 0 <= k < front.len() && (#[trigger] front[k]).id == id;
                assert(segments[k].id == id);
            }
        }
    }
}

/// A log that takes over the chain in the register knows it and its version. It keeps
/// its loglets, has an empty one for every other identifier of the chain, and no more.
pub proof fn synced_log_knows_the_register(log: VirtualView, id: Seq<char>)
    ensures
        ({
            let next = log.synced();
            let named = exists|k: int|
                0 <= k < log.meta_chain.segments.len() && (
                #[trigger] log.meta_chain.segments[k]).id == id;
            &&& next.chain == log.meta_chain
            &&& next.version == log.meta_version
            &&& next.meta_chain == log.meta_chain
            &&& next.meta_version == log.meta_version
            &&& next.loglets.contains_key(id) <==> log.loglets.contains_key(id) || named
            &&& log.loglets.contains_key(id) ==> next.loglets[id] == log.loglets[id]
            &&& !log.loglets.contains_key(id) && named ==> next.loglets[id] == LogView::empty()
        }),
{
    let segments = log.meta_chain.segments;
    virtual_view::with_missing_complete(log.loglets, segments);
    missing_are_named(log.loglets, segments);
    if exists|k: int| 0 <= k < segments.len() && (#[trigger] segments[k]).id == id {
        let k = choose|k: int| 0 <= k < segments.len() && (#[trigger] segments[k]).id == id;
        assert(virtual_view::with_missing(log.loglets, segments).contains_key(segments[k].id));
    }
}

/// A reconfiguration of a log whose chain is not the newest seals the active loglet and
/// takes over the chain in the register.
pub proof fn stale_reconfiguration_takes_over(log: VirtualView)
    requires
        log.chain.active() is Some,
        log.version != log.meta_version,
    ensures
        ({
            let a = log.chain.active()->0;
            log.reconfigured() == (VirtualView {
                loglets: log.loglets.insert(a.id, log.loglets[a.id].closed()),
                ..log
            }).synced()
        }),
{
}

/// A log that was just attached has an empty loglet for every identifier of its chain,
/// and no other.
pub proof fn attached_log_is_fresh(chain: ChainView, version: u64, id: Seq<char>)
    ensures
        ({
            let log = VirtualView::attached(chain, version);
            let named = exists|k: int|
                0 <= k < chain.segments.len() && (#[trigger] chain.segments[k]).id == id;
            &&& log.chain == chain && log.meta_chain == chain
            &&& log.version == version && log.meta_version == version
            &&& log.loglets.contains_key(id) <==> named
            &&& named ==> log.loglets[id] == LogView::empty()
        }),
{
    virtual_view::all_fresh_complete(chain.segments);
    if exists|k: int| 0 <= k < chain.segments.len() && (#[trigger] chain.segments[k]).id == id {
        let k = choose|k: int|
            0 <= k < chain.segments.len() && (#[trigger] chain.segments[k]).id == id;
        assert(virtual_view::all_fresh(chain.segments).contains_key(chain.segments[k].id));
    }
}

/// The next position of a virtual log is that of its active loglet, moved to the
/// segment's start. It is sealed where that loglet is, and a seal changes that loglet
/// only.
pub proof fn tail_is_that_of_the_active_segment(log: VirtualView, id: Seq<char>)
    requires
        log.chain.active() is Some,
    ensures
        ({
            let a = log.chain.active()->0;
            let below = log.loglets[a.id];
            &&& log.tail() == (a.start + below.tail - LOG_POS_BEGIN) as LogPos
            &&& log.sealed() <==> below.sealed
            &&& log.closed().chain == log.chain
            &&& log.closed().version == log.version
            &&& log.closed().meta_chain == log.meta_chain
            &&& log.closed().meta_version == log.meta_version
            &&& log.closed().loglets[a.id] == below.closed()
            &&& id != a.id && log.loglets.contains_key(id) ==> log.closed().loglets.contains_key(
                id,
            ) && log.closed().loglets[id] == log.loglets[id]
        }),
{
}

/// A position within a loglet and the global one that stands for it give each other
/// back, and both count on from the segment's start.
pub proof fn positions_are_moved_by_the_start(start: LogPos, p: LogPos)
    requires
        LOG_POS_BEGIN <= start,
        LOG_POS_BEGIN <= p,
        start + p <= u64::MAX,
    ensures
        virtual_view::global(start, LOG_POS_BEGIN) == start,
        virtual_view::global(start, p) == start + p - LOG_POS_BEGIN,
        virtual_view::local(start, virtual_view::global(start, p)) == p,
        virtual_view::local(start, start) == LOG_POS_BEGIN,
{
}

/// A position that no segment holds is named in the text that says so.
pub proof fn missing_segment_is_named(pos: LogPos)
    ensures
        loglet::no_segment_text(pos) == "no segment found for position "@ + text::decimal_text(
            pos as nat,
        ),
{
}

/// After a trim of a virtual log every position before it is refused as trimmed, in
/// whatever segment it lies, and the others are read as before.
pub proof fn virtual_trim_hides_prefix(log: VirtualView, pos: LogPos, p: LogPos)
    requires
        log.coherent(),
        LOG_POS_BEGIN <= p,
    ensures
        log.trimmed(pos).coherent(),
        log.trimmed(pos).chain == log.chain,
        log.trimmed(pos).version == log.version,
        log.trimmed(pos).meta_chain == log.meta_chain,
        log.trimmed(pos).meta_version == log.meta_version,
        log.trimmed(pos).tail() == log.tail(),
        log.trimmed(pos).sealed() == log.sealed(),
        p < pos ==> log.trimmed(pos).read(p) == Result::<Option<EntryView>, ErrorView>::Err(
            ErrorView::Trimmed(p),
        ),
        p >= pos ==> log.trimmed(pos).read(p) == log.read(p),
{
    log.coherent_trimmed(pos);
    log.coherent_read(p);
    log.trimmed(pos).coherent_read(p);
    log.coherent_wf();
    trim_hides_prefix(log.log(), pos, p);
    assert(log.trimmed(pos).log().tail == log.log().tail);
    assert(log.trimmed(pos).log().sealed == log.log().sealed);
}

/// After a seal of a virtual log every position is read as before.
pub proof fn virtual_seal_keeps_entries(log: VirtualView, p: LogPos)
    requires
        log.coherent(),
        LOG_POS_BEGIN <= p,
    ensures
        log.closed().coherent(),
        log.closed().sealed(),
        log.closed().tail() == log.tail(),
        log.closed().read(p) == log.read(p),
{
    log.coherent_closed();
    log.coherent_read(p);
    log.closed().coherent_read(p);
    assert(log.closed().log().tail == log.log().tail);
    assert(log.closed().log().sealed);
}

// Parts

/// A virtual log is reliable where its parts do not fail and its chain makes up one log.
/// It is a chain, and goes on after it was sealed. What it returns is what its state
/// says: the same position or entry, or the same error.
pub proof fn virtual_log_is_as_reliable_as_its_parts<F: LogletFactory, M: MetaStore>(
    log: VirtualLog<F, M>,
    a: Result<LogPos, RelosError>,
    r: Result<Option<Entry>, RelosError>,
)
    ensures
        log.reliable() <==> log.parts_reliable() && log@.coherent(),
        log.coherent() <==> log@.coherent(),
        log.chained(),
        log.log() == log@.log(),
        virtual_log::pos_outcome(a) == match a {
            Ok(p) => Result::<LogPos, ErrorView>::Ok(p),
            Err(e) => Result::<LogPos, ErrorView>::Err(e@),
        },
        virtual_log::read_outcome(r) == match r {
            Ok(None) => Result::<Option<EntryView>, ErrorView>::Ok(None),
            Ok(Some(e)) => Result::<Option<EntryView>, ErrorView>::Ok(Some(e@)),
            Err(e) => Result::<Option<EntryView>, ErrorView>::Err(e@),
        },
{
}

/// The loglets and the register in memory, the replicated loglet and their factories do
/// not fail. None of the loglets is a chain, and each holds one log.
pub proof fn parts_do_not_fail(
    memory: MemoryLoglet,
    native: NativeLoglet,
    register: MemoryMetaStore,
    memories: MemoryLogletFactory,
    natives: NativeLogletFactory,
)
    ensures
        memory.reliable(),
        memory.coherent(),
        !memory.chained(),
        native.reliable(),
        native.coherent(),
        !native.chained(),
        register.reliable(),
        memories.reliable(),
        natives.reliable(),
{
}

} // verus!
