//! Composing engines into a stack.

use vstd::prelude::*;

use crate::base::error::RelosError;
use crate::engine::base_engine;
use crate::engine::base_engine::BaseEngine;
use crate::engine::traits::{Applicator, Engine};
use crate::log::loglet::Loglet;
use crate::store::traits::LocalStore;

verus! {

/// A middleware that wraps both an engine and an applicator.
///
/// Implementations provide the dual wrapping needed to insert a layer into the
/// engine stack: one function wraps the downstream engine (for propose/sync),
/// and the other wraps the upstream applicator (for apply). The layers of a stack
/// share one type of engine and one of applicator.
pub trait MiddleEngine {
    type Eng: Engine;

    type App: Applicator;

    /// The engine that wraps `inner`.
    spec fn engine_over(&self, inner: Self::Eng) -> Self::Eng;

    /// The applicator that wraps `inner`.
    spec fn applicator_over(&self, inner: Self::App) -> Self::App;

    /// Wrap the downstream engine.
    fn wrap_engine(&self, inner: Self::Eng) -> (outer: Self::Eng)
        ensures
            outer == self.engine_over(inner),
    ;

    /// Wrap the upstream applicator.
    fn wrap_applicator(&self, inner: Self::App) -> (outer: Self::App)
        ensures
            outer == self.applicator_over(inner),
    ;
}

/// The applicator of the stack: the last layer sees entries first and hands them
/// on to the one before it, and `app` sees them last.
pub open spec fn applicator_stack<M: MiddleEngine>(layers: Seq<M>, app: M::App) -> M::App
    decreases layers.len(),
{
    if layers.len() == 0 {
        app
    } else {
        layers.last().applicator_over(applicator_stack(layers.drop_last(), app))
    }
}

/// The engine at the top of the stack: the last layer sees proposals first and
/// hands them down, and `base` sees them last.
pub open spec fn engine_stack<M: MiddleEngine>(layers: Seq<M>, base: M::Eng) -> M::Eng
    decreases layers.len(),
{
    if layers.len() == 0 {
        base
    } else {
        layers.last().engine_over(engine_stack(layers.drop_last(), base))
    }
}

/// A builder that composes engines bottom-up into a layered stack.
///
/// Middlewares are pushed in order from bottom to top. The [`build`](EngineStackBuilder::build)
/// method creates a [`BaseEngine`] at the bottom, wraps the applicator so that the
/// outermost middleware's applicator is the first to see entries, and wraps the
/// engine bottom-up (so the outermost middleware's engine is the one callers
/// interact with).
pub struct EngineStackBuilder<M: MiddleEngine> {
    middlewares: Vec<M>,
}

impl<M: MiddleEngine> EngineStackBuilder<M> {
    /// The layers from bottom to top.
    pub closed spec fn layers(&self) -> Seq<M> {
        self.middlewares@
    }

    /// Create a new empty builder.
    pub fn new() -> (builder: Self)
        ensures
            builder.layers() == Seq::<M>::empty(),
    {
        EngineStackBuilder { middlewares: Vec::new() }
    }

    /// Push a middleware onto the stack.
    ///
    /// Middlewares are applied in push order: the first pushed sits closest
    /// to the BaseEngine, the last pushed is the outermost layer.
    pub fn push(self, middleware: M) -> (builder: Self)
        ensures
            builder.layers() == self.layers().push(middleware),
    {
        let mut middlewares = self.middlewares;
        middlewares.push(middleware);
        EngineStackBuilder { middlewares }
    }

    /// Build the complete engine stack.
    ///
    /// Order: BaseEngine at the bottom, middlewares applied in push order around
    /// the engine and around the provided applicator. `bottom` makes the lowest
    /// layer out of the BaseEngine.
    pub fn build<L: Loglet, S: LocalStore, B: FnOnce(BaseEngine<L, S, M::App>) -> M::Eng>(
        self,
        log: L,
        store: S,
        applicator: M::App,
        bottom: B,
    ) -> (r: Result<M::Eng, RelosError>)
        requires
            log.inv(),
            forall|base: BaseEngine<L, S, M::App>| #[trigger] bottom.requires((base,)),
        ensures
            store.reliable() ==> (r is Ok <==> base_engine::stored_cursor(store.contents()) is Ok),
            store.reliable() && r is Err ==> r->Err_0@ == base_engine::stored_cursor(
                store.contents(),
            )->Err_0,
            r is Ok ==> exists|base: BaseEngine<L, S, M::App>, lowest: M::Eng|
                {
                    &&& base.log_of() == log
                    &&& base.store_of() == store
                    &&& base.app_of() == applicator_stack(self.layers(), applicator)
                    &&& base_engine::stored_cursor(store.contents()) == Result::<
                        crate::base::types::LogPos,
                        crate::base::error::ErrorView,
                    >::Ok(base.cursor_of())
                    &&& #[trigger] bottom.ensures((base,), lowest)
                    &&& r->Ok_0 == engine_stack(self.layers(), lowest)
                },
    {
        let layers = self.middlewares;

        // Wrap the applicator: the last-pushed middleware wraps last, so it is the
        // outermost applicator layer.
        let mut app = applicator;
        let mut i: usize = 0;
        proof {
            assert(layers@.take(0) == Seq::<M>::empty());
        }
        while i < layers.len()
            invariant
                i <= layers@.len(),
                app == applicator_stack(layers@.take(i as int), applicator),
            decreases layers.len() - i,
        {
            app = layers[i].wrap_applicator(app);
            proof {
                let s = layers@.take(i + 1);
                assert(s.last() == layers@[i as int]);
                assert(s.drop_last() == layers@.take(i as int));
            }
            i = i + 1;
        }
        proof {
            assert(layers@.take(i as int) == layers@);
        }

        // Create the BaseEngine at the bottom with the fully-wrapped applicator.
        let base = match BaseEngine::new(log, store, app) {
            Ok(b) => b,
            Err(e) => return Err(e),
        };
        let lowest = bottom(base);

        // Wrap the engine bottom-up: first-pushed middleware wraps first
        // (closest to BaseEngine), last-pushed is outermost.
        let ghost below = lowest;
        let mut engine = lowest;
        let mut k: usize = 0;
        proof {
            assert(layers@.take(0) == Seq::<M>::empty());
        }
        while k < layers.len()
            invariant
                k <= layers@.len(),
                engine == engine_stack(layers@.take(k as int), below),
            decreases layers.len() - k,
        {
            engine = layers[k].wrap_engine(engine);
            proof {
                let s = layers@.take(k + 1);
                assert(s.last() == layers@[k as int]);
                assert(s.drop_last() == layers@.take(k as int));
            }
            k = k + 1;
        }
        proof {
            assert(layers@.take(k as int) == layers@);
        }
        Ok(engine)
    }
}

impl<M: MiddleEngine> Default for EngineStackBuilder<M> {
    fn default() -> (builder: Self)
        ensures
            builder.layers() == Seq::<M>::empty(),
    {
        Self::new()
    }
}

/// A layer that is pushed becomes the outermost: its engine sees proposals first,
/// and its applicator sees entries first.
pub proof fn pushed_layer_is_outermost<M: MiddleEngine>(
    layers: Seq<M>,
    layer: M,
    base: M::Eng,
    app: M::App,
)
    ensures
        engine_stack(layers.push(layer), base) == layer.engine_over(engine_stack(layers, base)),
        applicator_stack(layers.push(layer), app) == layer.applicator_over(
            applicator_stack(layers, app),
        ),
{
    let longer = layers.push(layer);
    assert(longer.last() == layer);
    assert(longer.drop_last() == layers);
}

} // verus!
