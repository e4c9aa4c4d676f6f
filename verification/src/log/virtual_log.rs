//! The virtual log.

use vstd::prelude::*;
use vstd::string::StringExecFns;

use crate::base::entry::{Entry, EntryView};
use crate::base::error::{ErrorView, RelosError};
use crate::base::text;
use crate::base::types::LogPos;
use crate::log::chain::LogChain;
use crate::log::coherence;
use crate::log::loglet;
use crate::log::loglet::{LogView, Loglet};
use crate::log::metastore::MetaStore;
use crate::log::virtual_view;
use crate::log::virtual_view::VirtualView;

verus! {

/// Factory for creating loglet instances by ID.
///
/// What it creates is open and empty. A factory that is `reliable` does not fail,
/// nor do its loglets.
pub trait LogletFactory {
    type Log: Loglet;

    /// The factory can be asked for loglets.
    spec fn usable(&self) -> bool;

    /// The factory is in a state in which it does not fail.
    spec fn reliable(&self) -> bool;

    fn create(&self, loglet_id: &str) -> (r: Result<Self::Log, RelosError>)
        requires
            self.usable(),
        ensures
            self.reliable() ==> r is Ok && r->Ok_0.reliable(),
            r is Ok ==> r->Ok_0.inv() && r->Ok_0.log() == LogView::empty() && !r->Ok_0.chained(),
    ;
}

/// The `i`-th loglet has this identifier.
pub open spec fn named_at<L>(loglets: Seq<(String, L)>, id: Seq<char>, i: int) -> bool {
    0 <= i < loglets.len() && loglets[i].0@ == id
}

/// Some loglet has this identifier.
pub open spec fn named<L>(loglets: Seq<(String, L)>, id: Seq<char>) -> bool {
    exists|i: int| named_at(loglets, id, i)
}

/// No identifier occurs twice.
pub open spec fn distinct<L>(loglets: Seq<(String, L)>) -> bool {
    forall|i: int, j: int|
        0 <= i < j < loglets.len() ==> (#[trigger] loglets[i]).0@ != (#[trigger] loglets[j]).0@
}

/// What the loglets hold, by their identifiers.
pub open spec fn logs<L: Loglet>(loglets: Seq<(String, L)>) -> Map<Seq<char>, LogView> {
    Map::new(
        |id: Seq<char>| named(loglets, id),
        |id: Seq<char>| loglets[choose|i: int| named_at(loglets, id, i)].1.log(),
    )
}

/// Every loglet is valid and no chain of its own.
pub open spec fn all_valid<L: Loglet>(loglets: Seq<(String, L)>) -> bool {
    forall|i: int|
        0 <= i < loglets.len() ==> (#[trigger] loglets[i]).1.inv() && !loglets[i].1.chained()
}

/// Every loglet is reliable.
pub open spec fn all_reliable<L: Loglet>(loglets: Seq<(String, L)>) -> bool {
    forall|i: int| 0 <= i < loglets.len() ==> (#[trigger] loglets[i]).1.reliable()
}

proof fn logs_at<L: Loglet>(loglets: Seq<(String, L)>, i: int)
    requires
        distinct(loglets),
        0 <= i < loglets.len(),
    ensures
        logs(loglets).contains_key(loglets[i].0@),
        logs(loglets)[loglets[i].0@] == loglets[i].1.log(),
{
    let id = loglets[i].0@;
    assert(named_at(loglets, id, i));
    let j = choose|j: int| named_at(loglets, id, j);
    if j < i {
        assert(loglets[j].0@ != loglets[i].0@);
    } else if i < j {
        assert(loglets[i].0@ != loglets[j].0@);
    }
}

/// Changing one loglet changes the map at its identifier.
proof fn logs_update<L: Loglet>(before: Seq<(String, L)>, after: Seq<(String, L)>, i: int)
    requires
        distinct(before),
        0 <= i < before.len() == after.len(),
        after[i].0@ == before[i].0@,
        forall|j: int| 0 <= j < before.len() && j != i ==> #[trigger] after[j] == before[j],
    ensures
        distinct(after),
        logs(after) == logs(before).insert(before[i].0@, after[i].1.log()),
{
    assert forall|a: int, b: int| 0 <= a < b < after.len() implies (#[trigger] after[a]).0@ != (
    #[trigger] after[b]).0@ by {
        assert(before[a].0@ != before[b].0@);
    }
    let target = logs(before).insert(before[i].0@, after[i].1.log());
    assert forall|id: Seq<char>| logs(after).contains_key(id) == target.contains_key(id) by {
        if logs(after).contains_key(id) {
            let j = choose|j: int| named_at(after, id, j);
            assert(named_at(before, id, j));
        }
        if target.contains_key(id) && id != before[i].0@ {
            let j = choose|j: int| named_at(before, id, j);
            assert(named_at(after, id, j));
        }
        if id == before[i].0@ {
            assert(named_at(after, id, i));
        }
    }
    assert forall|id: Seq<char>| #[trigger] logs(after).contains_key(id) implies logs(after)[id]
        == target[id] by {
        let j = choose|j: int| named_at(after, id, j);
        logs_at(after, j);
        logs_at(before, j);
    }
    assert(logs(after) =~= target);
}

proof fn logs_push<L: Loglet>(before: Seq<(String, L)>, item: (String, L))
    requires
        distinct(before),
        !named(before, item.0@),
    ensures
        distinct(before.push(item)),
        logs(before.push(item)) == logs(before).insert(item.0@, item.1.log()),
{
    let after = before.push(item);
    assert forall|a: int, b: int| 0 <= a < b < after.len() implies (#[trigger] after[a]).0@ != (
    #[trigger] after[b]).0@ by {
        if b == before.len() {
            assert(!named_at(before, item.0@, a));
        }
    }
    let target = logs(before).insert(item.0@, item.1.log());
    assert forall|id: Seq<char>| logs(after).contains_key(id) == target.contains_key(id) by {
        if logs(after).contains_key(id) && id != item.0@ {
            let j = choose|j: int| named_at(after, id, j);
            assert(named_at(before, id, j));
        }
        if target.contains_key(id) && id != item.0@ {
            let j = choose|j: int| named_at(before, id, j);
            assert(named_at(after, id, j));
        }
        if id == item.0@ {
            assert(named_at(after, id, before.len() as int));
        }
    }
    assert forall|id: Seq<char>| #[trigger] logs(after).contains_key(id) implies logs(after)[id]
        == target[id] by {
        let j = choose|j: int| named_at(after, id, j);
        logs_at(after, j);
        if j < before.len() {
            assert(after[j] == before[j]);
            logs_at(before, j);
            assert(id != item.0@) by {
                assert(named_at(before, id, j));
            }
        }
    }
    assert(logs(after) =~= target);
}

fn find_loglet<L>(loglets: &Vec<(String, L)>, id: &String) -> (r: Option<usize>)
    ensures
        match r {
            Some(i) => named_at(loglets@, id@, i as int),
            None => !named(loglets@, id@),
        },
{
    let mut i: usize = 0;
    while i < loglets.len()
        invariant
            i <= loglets@.len(),
            forall|j: int| 0 <= j < i ==> (#[trigger] loglets@[j]).0@ != id@,
        decreases loglets.len() - i,
    {
        if loglets[i].0 == *id {
            return Some(i);
        }
        i = i + 1;
    }
    None
}

/// Puts a loglet under its identifier, in place of what was there.
fn put_loglet<L: Loglet>(loglets: &mut Vec<(String, L)>, id: String, log: L)
    requires
        distinct(old(loglets)@),
        all_valid(old(loglets)@),
        log.inv(),
        !log.chained(),
    ensures
        distinct(final(loglets)@),
        all_valid(final(loglets)@),
        logs(final(loglets)@) == logs(old(loglets)@).insert(id@, log.log()),
        all_reliable(old(loglets)@) && log.reliable() ==> all_reliable(final(loglets)@),
{
    match find_loglet(loglets, &id) {
        Some(i) => {
            loglets.set(i, (id, log));
            proof {
                logs_update(old(loglets)@, loglets@, i as int);
            }
        },
        None => {
            loglets.push((id, log));
            proof {
                logs_push(old(loglets)@, (id, log));
            }
        },
    }
}

/// The tail of the log is a position.
pub open spec fn in_range(v: VirtualView) -> bool {
    1 <= v.chain.active()->0.start + v.active_log().tail <= u64::MAX
}

/// The VirtualLog chains loglets into a single shared log.
///
/// It uses a MetaStore to persist chain configuration and a LogletFactory
/// to instantiate loglets on demand. On seal, it performs a three-step
/// reconfiguration protocol.
pub struct VirtualLog<F: LogletFactory, M: MetaStore> {
    meta_store: M,
    factory: F,
    chain: LogChain,
    chain_version: u64,
    loglets: Vec<(String, F::Log)>,
}

impl<F: LogletFactory, M: MetaStore> View for VirtualLog<F, M> {
    type V = VirtualView;

    closed spec fn view(&self) -> VirtualView {
        VirtualView {
            chain: self.chain@,
            version: self.chain_version,
            loglets: logs(self.loglets@),
            meta_chain: self.meta_store.chain(),
            meta_version: self.meta_store.version(),
        }
    }
}

impl<F: LogletFactory, M: MetaStore> VirtualLog<F, M> {
    /// The loglets are valid, every segment of the chain has its own, and the
    /// factory makes more.
    pub closed spec fn wf(&self) -> bool {
        &&& distinct(self.loglets@)
        &&& all_valid(self.loglets@)
        &&& self@.complete()
        &&& self.factory.usable()
    }

    /// Register, factory and loglets do not fail.
    pub closed spec fn parts_reliable(&self) -> bool {
        &&& self.meta_store.reliable()
        &&& self.factory.reliable()
        &&& all_reliable(self.loglets@)
    }

    /// The register.
    pub closed spec fn register(&self) -> M {
        self.meta_store
    }

    /// The register.
    pub fn meta_store(&self) -> (meta_store: &M)
        ensures
            *meta_store == self.register(),
            meta_store.chain() == self@.meta_chain,
            meta_store.version() == self@.meta_version,
    {
        &self.meta_store
    }

    /// The register, to write to it as another client does.
    pub fn meta_store_mut(&mut self) -> (meta_store: &mut M)
        ensures
            *meta_store == old(self).register(),
            final(self).register() == *final(meta_store),
            final(self)@ == (VirtualView {
                meta_chain: final(meta_store).chain(),
                meta_version: final(meta_store).version(),
                ..old(self)@
            }),
            old(self).wf() ==> final(self).wf(),
            old(self).parts_reliable() && final(meta_store).reliable()
                ==> final(self).parts_reliable(),
    {
        &mut self.meta_store
    }

    /// Convert a local loglet position to a global position.
    /// global_pos = segment.start_pos + local_pos - 1
    fn local_to_global(segment_start: LogPos, local_pos: LogPos) -> (pos: LogPos)
        requires
            1 <= segment_start + local_pos <= u64::MAX,
        ensures
            pos == virtual_view::global(segment_start, local_pos),
    {
        segment_start + local_pos - 1
    }

    /// The global position, or an error where there is none.
    fn global_or_error(segment_start: LogPos, local_pos: LogPos) -> (r: Result<LogPos, RelosError>)
        ensures
            r is Ok <==> 1 <= segment_start + local_pos <= u64::MAX,
            r is Ok ==> r->Ok_0 == virtual_view::global(segment_start, local_pos),
    {
        if (segment_start == 0 && local_pos == 0) || segment_start > u64::MAX - local_pos {
            return Err(RelosError::Internal("log position out of range".to_owned()));
        }
        Ok(Self::local_to_global(segment_start, local_pos))
    }

    /// Convert a global position to a local loglet position.
    /// local_pos = global_pos - segment.start_pos + 1
    fn global_to_local(segment_start: LogPos, global_pos: LogPos) -> (pos: LogPos)
        requires
            virtual_view::local_fits(segment_start, global_pos),
        ensures
            pos == virtual_view::local(segment_start, global_pos),
    {
        global_pos - segment_start + 1
    }

    /// The local position, or an error where there is none.
    fn local_or_error(segment_start: LogPos, global_pos: LogPos) -> (r: Result<LogPos, RelosError>)
        ensures
            r is Ok <==> virtual_view::local_fits(segment_start, global_pos),
            r is Ok ==> r->Ok_0 == virtual_view::local(segment_start, global_pos),
    {
        if global_pos < segment_start || global_pos - segment_start == u64::MAX {
            return Err(RelosError::Internal("log position out of range".to_owned()));
        }
        Ok(Self::global_to_local(segment_start, global_pos))
    }

    /// Generate a new loglet ID based on the current chain length.
    fn generate_loglet_id(chain: &LogChain) -> (id: String)
        ensures
            id@ == virtual_view::generated_id(chain@.segments.len()),
    {
        "loglet-".to_owned().concat(text::decimal(chain.segments.len() as u64).as_str())
    }
}

impl<F: LogletFactory, M: MetaStore> VirtualLog<F, M> {
    /// Create a new VirtualLog by reading the chain from the MetaStore and
    /// instantiating all loglets via the factory.
    pub fn new(meta_store: M, factory: F) -> (r: Result<Self, RelosError>)
        requires
            factory.usable(),
        ensures
            meta_store.reliable() && factory.reliable() ==> r is Ok && r->Ok_0.parts_reliable(),
            r is Ok ==> r->Ok_0.wf() && r->Ok_0@ == VirtualView::attached(
                meta_store.chain(),
                meta_store.version(),
            ),
            r is Ok && coherence::startable(meta_store.chain()) ==> r->Ok_0@.coherent()
                && r->Ok_0@.log() == (LogView {
                tail: meta_store.chain().segments.last().start,
                ..LogView::empty()
            }),
    {
        let (chain, version) = match meta_store.read() {
            Ok(p) => p,
            Err(e) => return Err(e),
        };
        let mut loglets: Vec<(String, F::Log)> = Vec::new();
        let ghost segments = chain@.segments;
        proof {
            assert(segments.take(0) == Seq::<crate::log::chain::SegmentView>::empty());
            assert(logs(loglets@) == Map::<Seq<char>, LogView>::empty());
        }
        let mut i: usize = 0;
        while i < chain.segments.len()
            invariant
                i <= chain.segments@.len(),
                segments == chain@.segments,
                distinct(loglets@),
                all_valid(loglets@),
                logs(loglets@) == virtual_view::all_fresh(segments.take(i as int)),
                factory.usable(),
                factory.reliable() ==> all_reliable(loglets@),
                meta_store.reliable() ==> chain@ == meta_store.chain(),
            decreases chain.segments.len() - i,
        {
            let loglet = match factory.create(chain.segments[i].loglet_id.as_str()) {
                Ok(l) => l,
                Err(e) => return Err(e),
            };
            put_loglet(&mut loglets, chain.segments[i].loglet_id.clone(), loglet);
            proof {
                let next = segments.take(i + 1);
                assert(next.drop_last() == segments.take(i as int));
                assert(next.last() == segments[i as int]);
            }
            i = i + 1;
        }
        proof {
            assert(segments.take(i as int) == segments);
            virtual_view::all_fresh_complete(segments);
            if coherence::startable(chain@) {
                VirtualView::attached_coherent(chain@, version);
            }
        }
        Ok(VirtualLog { meta_store, factory, chain, chain_version: version, loglets })
    }

    /// Find the active loglet and its segment's global start position.
    fn get_active_loglet(&self) -> (r: Result<(usize, LogPos), RelosError>)
        requires
            self.wf(),
        ensures
            match r {
                Ok((i, start)) => self@.chain.active() is Some && named_at(
                    self.loglets@,
                    self@.chain.active()->0.id,
                    i as int,
                ) && start == self@.chain.active()->0.start && self.loglets@[i as int].1.log()
                    == self@.active_log(),
                Err(e) => self@.chain.active() is None && e@ == ErrorView::Internal(
                    "no active segment in chain"@,
                ),
            },
    {
        let segment = match self.chain.active_segment() {
            Some(s) => s,
            None => return Err(RelosError::Internal("no active segment in chain".to_owned())),
        };
        proof {
            let n = self@.chain.segments.len() as int;
            assert(self@.loglets.contains_key(self@.chain.segments[n - 1].id));
        }
        match find_loglet(&self.loglets, &segment.loglet_id) {
            Some(i) => {
                proof {
                    logs_at(self.loglets@, i as int);
                }
                Ok((i, segment.start_pos))
            },
            None => {
                Err(
                    RelosError::Internal(
                        "active loglet ".to_owned().concat(segment.loglet_id.as_str()).concat(
                            " not found",
                        ),
                    ),
                )
            },
        }
    }

    /// Re-read chain from MetaStore and instantiate any missing loglets.
    fn sync_chain(&mut self) -> (r: Result<(), RelosError>)
        requires
            old(self).wf(),
        ensures
            final(self).wf(),
            old(self).parts_reliable() ==> r is Ok && final(self).parts_reliable(),
            r is Ok ==> final(self)@ == old(self)@.synced(),
            r is Err ==> final(self)@.chain == old(self)@.chain && final(self)@.version == old(
                self,
            )@.version && final(self).meta_store == old(self).meta_store,
    {
        let (new_chain, new_version) = match self.meta_store.read() {
            Ok(p) => p,
            Err(e) => return Err(e),
        };
        let ghost segments = new_chain@.segments;
        let ghost known = logs(self.loglets@);
        proof {
            assert(segments.take(0) == Seq::<crate::log::chain::SegmentView>::empty());
        }
        let mut i: usize = 0;
        while i < new_chain.segments.len()
            invariant
                i <= new_chain.segments@.len(),
                segments == new_chain@.segments,
                segments == self.meta_store.chain().segments,
                known == logs(old(self).loglets@),
                distinct(self.loglets@),
                all_valid(self.loglets@),
                logs(self.loglets@) == virtual_view::with_missing(known, segments.take(i as int)),
                self.chain == old(self).chain,
                self.chain_version == old(self).chain_version,
                self.meta_store == old(self).meta_store,
                self.factory == old(self).factory,
                old(self).wf(),
                old(self).parts_reliable() ==> all_reliable(self.loglets@),
            decreases new_chain.segments.len() - i,
        {
            let ghost before = logs(self.loglets@);
            match find_loglet(&self.loglets, &new_chain.segments[i].loglet_id) {
                Some(_) => {},
                None => {
                    let loglet = match self.factory.create(
                        new_chain.segments[i].loglet_id.as_str(),
                    ) {
                        Ok(l) => l,
                        Err(e) => {
                            proof {
                                virtual_view::with_missing_complete(
                                    known,
                                    segments.take(i as int),
                                );
                                assert(self@.complete()) by {
                                    assert forall|j: int| 0 <= j < self@.chain.segments.len() implies
                                        self@.loglets.contains_key(
                                        (#[trigger] self@.chain.segments[j]).id,
                                    ) by {
                                        assert(old(self)@.loglets.contains_key(
                                            old(self)@.chain.segments[j].id,
                                        ));
                                    }
                                }
                            }
                            return Err(e);
                        },
                    };
                    put_loglet(
                        &mut self.loglets,
                        new_chain.segments[i].loglet_id.clone(),
                        loglet,
                    );
                },
            }
            proof {
                let next = segments.take(i + 1);
                assert(next.drop_last() == segments.take(i as int));
                assert(next.last() == segments[i as int]);
                assert(before.contains_key(segments[i as int].id) == named(
                    self.loglets@,
                    segments[i as int].id,
                ) || logs(self.loglets@) == before.insert(
                    segments[i as int].id,
                    LogView::empty(),
                ));
            }
            i = i + 1;
        }
        proof {
            assert(segments.take(i as int) == segments);
            virtual_view::with_missing_complete(known, segments);
        }
        self.chain = new_chain;
        self.chain_version = new_version;
        Ok(())
    }
}

impl<F: LogletFactory, M: MetaStore> VirtualLog<F, M> {
    /// Seal the active loglet and return the global tail.
    fn seal_active(&mut self) -> (r: Result<LogPos, RelosError>)
        requires
            old(self).wf(),
        ensures
            final(self).wf(),
            final(self).meta_store == old(self).meta_store,
            final(self).factory == old(self).factory,
            final(self).chain == old(self).chain,
            final(self).chain_version == old(self).chain_version,
            old(self)@.chain.active() is None ==> r is Err && r->Err_0@ == ErrorView::Internal(
                "no active segment in chain"@,
            ) && final(self)@ == old(self)@,
            old(self)@.chain.active() is Some && in_range(old(self)@) && old(self).parts_reliable()
                ==> r is Ok,
            old(self).parts_reliable() ==> final(self).parts_reliable(),
            r is Ok ==> r->Ok_0 == old(self)@.tail() && final(self)@ == old(self)@.closed(),
    {
        let (i, start_pos) = match self.get_active_loglet() {
            Ok(p) => p,
            Err(e) => return Err(e),
        };
        let slot = &mut self.loglets[i];
        let sealed = slot.1.seal();
        proof {
            logs_update(old(self).loglets@, self.loglets@, i as int);
            assert(self@.complete()) by {
                assert forall|j: int| 0 <= j < self@.chain.segments.len() implies
                    self@.loglets.contains_key((#[trigger] self@.chain.segments[j]).id) by {
                    assert(old(self)@.loglets.contains_key(old(self)@.chain.segments[j].id));
                }
            }
        }
        match sealed {
            Ok(local_tail) => Self::global_or_error(start_pos, local_tail),
            Err(e) => Err(e),
        }
    }

    /// The 3-step reconfiguration protocol:
    /// 1. Seal the active loglet to get the final tail.
    /// 2. Write a new chain to MetaStore with CAS.
    /// 3. If CAS fails, re-read chain from MetaStore and sync.
    fn reconfigure(&mut self) -> (r: Result<(), RelosError>)
        requires
            old(self).wf(),
            old(self)@.has_room(1),
        ensures
            final(self).wf(),
            old(self).parts_reliable() ==> final(self).parts_reliable(),
            old(self).parts_reliable() && old(self)@.chain.active() is Some ==> r is Ok,
            old(self)@.chain.active() is None ==> r is Err && r->Err_0@ == ErrorView::Internal(
                "no active segment in chain"@,
            ) && final(self)@ == old(self)@,
            r is Ok ==> final(self)@ == old(self)@.reconfigured(),
            r is Err ==> final(self)@.chain == old(self)@.chain && final(self)@.version == old(
                self,
            )@.version,
    {
        // Step 1: Seal the active loglet
        proof {
            if self@.chain.active() is Some {
                let n = self@.chain.segments.len() as int;
                assert(self@.chain.segments[n - 1].start + self@.tail_of(
                    self@.chain.segments[n - 1].id,
                ) + 1 <= u64::MAX);
                assert(self@.loglets.contains_key(self@.chain.segments[n - 1].id));
                self@.reconfigured_room(1);
            }
        }
        let global_seal_pos = match self.seal_active() {
            Ok(p) => p,
            Err(e) => return Err(e),
        };

        // Step 2: Build new chain and try to CAS it into MetaStore
        let version: u64 = self.chain_version;
        let mut new_chain = self.chain.clone();
        let new_loglet_id = Self::generate_loglet_id(&new_chain);
        new_chain.extend(global_seal_pos, new_loglet_id.clone());
        let success = match self.meta_store.write(new_chain.clone(), version) {
            Ok(b) => b,
            Err(e) => return Err(e),
        };

        if success {
            // Create new loglet and update local state
            let new_loglet = match self.factory.create(new_loglet_id.as_str()) {
                Ok(l) => l,
                Err(e) => return Err(e),
            };
            put_loglet(&mut self.loglets, new_loglet_id, new_loglet);
            self.chain = new_chain;
            self.chain_version = version + 1;
            assert(self@ == old(self)@.reconfigured());
            Ok(())
        } else {
            // Step 3: CAS failed, someone else reconfigured. Re-read.
            self.sync_chain()
        }
    }

    fn append_entry(&mut self, entry: &Entry) -> (r: Result<LogPos, RelosError>)
        requires
            old(self).wf(),
            old(self)@.has_room(1),
        ensures
            final(self).wf(),
            old(self).parts_reliable() ==> final(self).parts_reliable(),
            old(self).parts_reliable() || r is Ok ==> (final(self)@, pos_outcome(r)) == old(
                self,
            )@.append(entry@),
            r is Ok ==> r->Ok_0 < u64::MAX,
            r is Ok && !old(self)@.sealed() ==> r->Ok_0 == old(self)@.tail(),
            r is Err && r->Err_0 is Sealed ==> old(self)@.sealed(),
    {
        loop
            invariant
                self.wf(),
                self@.chain.sound(),
                self@.fits(self@.chain, 1),
                self@.sealed() ==> self@.has_room(1),
                self@ == old(self)@ || old(self)@.sealed(),
                old(self).parts_reliable() ==> self.parts_reliable(),
                self@.append(entry@) == old(self)@.append(entry@),
            decreases self@.rank(),
        {
            let (i, start_pos) = match self.get_active_loglet() {
                Ok(p) => p,
                Err(e) => return Err(e),
            };
            let ghost before = self@;
            let ghost slots = self.loglets@;
            proof {
                let n = before.chain.segments.len() as int;
                assert(before.chain.segments[n - 1].start + before.tail_of(
                    before.chain.segments[n - 1].id,
                ) + 1 <= u64::MAX);
                assert(before.loglets.contains_key(before.chain.segments[n - 1].id));
            }
            proof {
                self.loglets@[i as int].1.room_below_limit(1);
                self.loglets@[i as int].1.others_are_coherent();
            }
            let slot = &mut self.loglets[i];
            let appended = slot.1.append(entry);
            proof {
                logs_update(slots, self.loglets@, i as int);
                assert(self@.complete()) by {
                    assert forall|j: int| 0 <= j < self@.chain.segments.len() implies
                        self@.loglets.contains_key((#[trigger] self@.chain.segments[j]).id) by {
                        assert(before.loglets.contains_key(before.chain.segments[j].id));
                    }
                }
            }
            match appended {
                Ok(local_pos) => {
                    return Ok(Self::local_to_global(start_pos, local_pos));
                },
                Err(RelosError::Sealed(_)) => {
                    proof {
                        assert(before.sealed());
                        assert(before.loglets.insert(
                            before.chain.active()->0.id,
                            before.active_log(),
                        ) == before.loglets);
                        assert(self@ == before);
                        self@.reconfigured_room(1);
                        self@.reconfigured_rank();
                    }
                    match self.reconfigure() {
                        Ok(_) => {},
                        Err(e) => return Err(e),
                    }
                },
                Err(e) => return Err(e),
            }
        }
    }
}

impl<F: LogletFactory, M: MetaStore> VirtualLog<F, M> {
    /// Append an entry to the active segment's loglet.
    /// On Sealed error, triggers reconfiguration and retries.
    pub fn append(&mut self, entry: &Entry) -> (r: Result<LogPos, RelosError>)
        requires
            old(self).wf(),
            old(self)@.has_room(1),
        ensures
            final(self).wf(),
            old(self).parts_reliable() ==> final(self).parts_reliable(),
            old(self).parts_reliable() || r is Ok ==> (final(self)@, pos_outcome(r)) == old(
                self,
            )@.append(entry@),
            old(self).reliable() ==> final(self).reliable() && r is Ok,
            old(self)@.coherent() && r is Ok ==> {
                &&& final(self)@.coherent()
                &&& r->Ok_0 == old(self)@.tail()
                &&& final(self).log() == old(self).log().extended(entry@)
                &&& forall|n: nat|
                    old(self)@.has_room(n + 1) ==> #[trigger] final(self)@.has_room(n)
            },
            r is Ok ==> r->Ok_0 < u64::MAX,
            r is Ok && !old(self)@.sealed() ==> r->Ok_0 == old(self)@.tail(),
            r is Err && r->Err_0 is Sealed ==> old(self)@.sealed(),
    {
        proof {
            if self@.coherent() {
                append_is_coherent(self@, entry@);
            }
        }
        self.append_entry(entry)
    }

    /// Check the tail of the virtual log (global position).
    pub fn check_tail(&self) -> (r: Result<LogPos, RelosError>)
        requires
            self.wf(),
            self@.chain.active() is Some ==> in_range(self@),
        ensures
            self@.chain.active() is None ==> r is Err && r->Err_0@ == ErrorView::Internal(
                "no active segment in chain"@,
            ),
            self@.chain.active() is Some && self.parts_reliable() ==> r is Ok,
            r is Ok ==> r->Ok_0 == self@.tail(),
    {
        self.tail_or_error()
    }

    fn tail_or_error(&self) -> (r: Result<LogPos, RelosError>)
        requires
            self.wf(),
        ensures
            self@.chain.active() is None ==> r is Err && r->Err_0@ == ErrorView::Internal(
                "no active segment in chain"@,
            ),
            self@.chain.active() is Some && in_range(self@) && self.parts_reliable() ==> r is Ok,
            r is Ok ==> r->Ok_0 == self@.tail(),
    {
        let (i, start_pos) = match self.get_active_loglet() {
            Ok(p) => p,
            Err(e) => return Err(e),
        };
        match self.loglets[i].1.check_tail() {
            Ok(local_tail) => Self::global_or_error(start_pos, local_tail),
            Err(e) => Err(e),
        }
    }

    /// Read the entry at the given global position.
    pub fn read(&self, global_pos: LogPos) -> (r: Result<Option<Entry>, RelosError>)
        requires
            self.wf(),
            self@.placed(global_pos),
        ensures
            self.parts_reliable() || r is Ok ==> read_outcome(r) == self@.read(global_pos),
            self@.coherent() && r is Ok ==> self.log().trim <= global_pos && loglet::read_view(
                r->Ok_0,
            ) == self.log().entry(global_pos),
            self.reliable() && self.log().trim <= global_pos ==> r is Ok,
            self.reliable() && global_pos < self.log().trim ==> r is Err && r->Err_0@
                == loglet::refusal(true, global_pos),
    {
        proof {
            if self@.coherent() {
                self@.coherent_read(global_pos);
            }
        }
        self.read_or_error(global_pos)
    }

    fn read_or_error(&self, global_pos: LogPos) -> (r: Result<Option<Entry>, RelosError>)
        requires
            self.wf(),
        ensures
            self.parts_reliable() && self@.placed(global_pos) || r is Ok ==> read_outcome(r)
                == self@.read(global_pos),
    {
        let segment = match self.chain.find_segment(global_pos) {
            Some(s) => s,
            None => {
                return Err(
                    RelosError::Internal(
                        "no segment found for position ".to_owned().concat(
                            text::decimal(global_pos).as_str(),
                        ),
                    ),
                );
            },
        };
        proof {
            let k = choose|k: int| self@.chain.first_at(global_pos, k);
            assert(self@.chain.segments[k] == segment@);
            assert(self@.loglets.contains_key(self@.chain.segments[k].id));
        }
        let local_pos = match Self::local_or_error(segment.start_pos, global_pos) {
            Ok(p) => p,
            Err(e) => return Err(e),
        };
        match find_loglet(&self.loglets, &segment.loglet_id) {
            Some(i) => {
                proof {
                    logs_at(self.loglets@, i as int);
                    self.loglets@[i as int].1.others_are_coherent();
                }
                match self.loglets[i].1.read(local_pos) {
                    // The position that was asked for is the global one.
                    Err(RelosError::Trimmed(_)) => Err(RelosError::Trimmed(global_pos)),
                    other => other,
                }
            },
            None => {
                Err(
                    RelosError::Internal(
                        "loglet ".to_owned().concat(segment.loglet_id.as_str()).concat(
                            " not found",
                        ),
                    ),
                )
            },
        }
    }

    /// Trim all entries before the given global position.
    pub fn trim(&mut self, global_pos: LogPos) -> (r: Result<(), RelosError>)
        requires
            old(self).wf(),
            old(self)@.trimmable(global_pos),
        ensures
            final(self).wf(),
            old(self).parts_reliable() ==> r is Ok && final(self).parts_reliable(),
            r is Ok ==> final(self)@ == old(self)@.trimmed(global_pos),
            old(self)@.coherent() && r is Ok ==> {
                &&& final(self)@.coherent()
                &&& final(self).log() == old(self).log().trimmed(global_pos)
                &&& forall|n: nat| old(self)@.has_room(n) ==> #[trigger] final(self)@.has_room(n)
            },
    {
        proof {
            if self@.coherent() {
                self@.coherent_trimmed(global_pos);
                self@.trimmed_room(global_pos);
            }
        }
        self.trim_or_error(global_pos)
    }

    fn trim_or_error(&mut self, global_pos: LogPos) -> (r: Result<(), RelosError>)
        requires
            old(self).wf(),
        ensures
            final(self).wf(),
            old(self).parts_reliable() && old(self)@.trimmable(global_pos) ==> r is Ok
                && final(self).parts_reliable(),
            r is Ok ==> final(self)@ == old(self)@.trimmed(global_pos),
    {
        let ghost segments = self@.chain.segments;
        proof {
            assert(segments.take(0) == Seq::<crate::log::chain::SegmentView>::empty());
        }
        let mut k: usize = 0;
        while k < self.chain.segments.len()
            invariant
                k <= segments.len(),
                segments == self.chain@.segments,
                self.wf(),
                self.chain == old(self).chain,
                self.chain_version == old(self).chain_version,
                self.meta_store == old(self).meta_store,
                self.factory == old(self).factory,
                old(self).parts_reliable() ==> all_reliable(self.loglets@),
                logs(self.loglets@) == virtual_view::trim_segments(
                    logs(old(self).loglets@),
                    segments.take(k as int),
                    global_pos,
                ),
            decreases segments.len() - k,
        {
            let ghost before = self@;
            let ghost slots = self.loglets@;
            let ghost s = segments[k as int];
            let start_pos: LogPos = self.chain.segments[k].start_pos;
            proof {
                let next = segments.take(k + 1);
                assert(next.drop_last() == segments.take(k as int));
                assert(next.last() == s);
                assert(before.chain.segments[k as int] == s);
                assert(before.loglets.contains_key(before.chain.segments[k as int].id));
            }
            if global_pos > start_pos {
                let trim_global: LogPos = match self.chain.segments[k].end_pos {
                    Some(end) => if end < global_pos {
                        end
                    } else {
                        global_pos
                    },
                    None => global_pos,
                };
                let local_trim = match Self::local_or_error(start_pos, trim_global) {
                    Ok(p) => p,
                    Err(e) => return Err(e),
                };
                match find_loglet(&self.loglets, &self.chain.segments[k].loglet_id) {
                    Some(i) => {
                        proof {
                            logs_at(slots, i as int);
                            slots[i as int].1.others_are_coherent();
                        }
                        let slot = &mut self.loglets[i];
                        let trimmed = slot.1.trim(local_trim);
                        proof {
                            logs_update(slots, self.loglets@, i as int);
                            assert(self@.complete()) by {
                                assert forall|j: int| 0 <= j < self@.chain.segments.len() implies
                                    self@.loglets.contains_key(
                                    (#[trigger] self@.chain.segments[j]).id,
                                ) by {
                                    assert(before.loglets.contains_key(
                                        before.chain.segments[j].id,
                                    ));
                                }
                            }
                        }
                        match trimmed {
                            Ok(_) => {},
                            Err(e) => return Err(e),
                        }
                    },
                    None => {},
                }
            }
            k = k + 1;
        }
        proof {
            assert(segments.take(k as int) == segments);
        }
        Ok(())
    }
}

/// What an append keeps, also where it has to reconfigure a sealed log.
proof fn append_is_coherent(v: VirtualView, entry: EntryView)
    requires
        v.coherent(),
        v.has_room(1),
    ensures
        ({
            let (next, r) = v.append(entry);
            &&& next.coherent()
            &&& r == Result::<LogPos, ErrorView>::Ok(v.log().tail)
            &&& next.log() == v.log().extended(entry)
            &&& v.log().sealed == v.sealed()
        }),
        forall|n: nat| v.has_room(n + 1) ==> #[trigger] v.append(entry).0.has_room(n),
{
    assert forall|n: nat| v.has_room(n + 1) implies #[trigger] v.append(entry).0.has_room(n) by {
        v.append_room(entry, n);
    }
    if v.sealed() {
        v.coherent_reconfigured();
        v.reconfigured_room(1);
        v.reconfigured().coherent_append(entry);
        assert(v.append(entry) == v.reconfigured().append(entry));
    } else {
        v.coherent_append(entry);
    }
}

impl<F: LogletFactory, M: MetaStore> Loglet for VirtualLog<F, M> {
    open spec fn inv(&self) -> bool {
        self.wf()
    }

    open spec fn log(&self) -> LogView {
        self@.log()
    }

    open spec fn reliable(&self) -> bool {
        self.parts_reliable() && self@.coherent()
    }

    open spec fn coherent(&self) -> bool {
        self@.coherent()
    }

    open spec fn has_room(&self, n: nat) -> bool {
        self@.has_room(n)
    }

    open spec fn chained(&self) -> bool {
        true
    }

    proof fn room_below_limit(&self, n: nat) {
    }

    proof fn fewer_fit(&self, n: nat, k: nat) {
        self@.fewer_fit(n, k);
    }

    proof fn others_are_coherent(&self) {
    }

    proof fn log_is_wf(&self) {
        self@.coherent_wf();
    }

    fn append(&mut self, entry: &Entry) -> (r: Result<LogPos, RelosError>)
        ensures
            old(self).parts_reliable() ==> final(self).parts_reliable(),
            old(self).parts_reliable() || r is Ok ==> (final(self)@, pos_outcome(r)) == old(
                self,
            )@.append(entry@),
    {
        proof {
            if self@.coherent() {
                append_is_coherent(self@, entry@);
            }
        }
        self.append_entry(entry)
    }

    fn check_tail(&self) -> (r: Result<LogPos, RelosError>) {
        proof {
            if self@.coherent() {
                self@.coherent_range();
            }
        }
        self.tail_or_error()
    }

    fn read(&self, pos: LogPos) -> (r: Result<Option<Entry>, RelosError>)
        ensures
            self.parts_reliable() && self@.placed(pos) || r is Ok ==> read_outcome(r)
                == self@.read(pos),
    {
        proof {
            if self@.coherent() {
                self@.coherent_read(pos);
            }
        }
        self.read_or_error(pos)
    }

    fn trim(&mut self, pos: LogPos) -> (r: Result<(), RelosError>)
        ensures
            old(self).parts_reliable() && old(self)@.trimmable(pos) ==> r is Ok
                && final(self).parts_reliable(),
            r is Ok ==> final(self)@ == old(self)@.trimmed(pos),
    {
        proof {
            if self@.coherent() {
                self@.coherent_trimmed(pos);
                self@.trimmed_room(pos);
            }
        }
        self.trim_or_error(pos)
    }

    fn seal(&mut self) -> (r: Result<LogPos, RelosError>)
        ensures
            r is Ok ==> r->Ok_0 == old(self)@.tail() && final(self)@ == old(self)@.closed(),
            old(self)@.chain.active() is None ==> r is Err && r->Err_0@ == ErrorView::Internal(
                "no active segment in chain"@,
            ) && final(self)@ == old(self)@,
            old(self)@.chain.active() is Some && in_range(old(self)@) && old(self).parts_reliable()
                ==> r is Ok && final(self).parts_reliable(),
    {
        proof {
            if self@.coherent() {
                self@.coherent_range();
                self@.coherent_closed();
            }
            if self@.chain.active() is Some {
                self@.closed_same();
            }
        }
        self.seal_active()
    }
}

/// What a read returned.
pub open spec fn read_outcome(r: Result<Option<Entry>, RelosError>) -> Result<
    Option<EntryView>,
    ErrorView,
> {
    match r {
        Ok(e) => Ok(loglet::read_view(e)),
        Err(e) => Err(e@),
    }
}

/// What an append returned.
pub open spec fn pos_outcome(r: Result<LogPos, RelosError>) -> Result<LogPos, ErrorView> {
    match r {
        Ok(p) => Ok(p),
        Err(e) => Err(e@),
    }
}

} // verus!
