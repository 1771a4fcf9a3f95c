//! How a model takes a message: the context first, then each of its parts,
//! in the order in which they are written down.

use crate::models::ctx::Ctx;
use crate::models::ctx::CtxView;
use crate::runtime::effects::Effects;
use crate::runtime::effects::EffectsView;
use crate::runtime::msg::Msg;
use crate::runtime::msg::MsgView;
use vstd::prelude::*;

verus! {

/// A state that takes messages by itself. What a message makes of a state,
/// and what it leaves to do, depends on the state and the message alone.
pub trait Update: View {
    /// The state that `msg` makes of `state`.
    spec fn next(state: Self::V, msg: MsgView) -> Self::V;

    /// What taking `msg` in `state` hands back.
    spec fn emitted(state: Self::V, msg: MsgView) -> EffectsView;

    /// Takes `msg`.
    fn update(&mut self, msg: &Msg) -> (effects: Effects)
        ensures
            final(self)@ == Self::next(old(self)@, msg@),
            effects@ == Self::emitted(old(self)@, msg@),
    ;
}

/// A state that takes messages with the context at hand, which it reads and
/// leaves as it is. What a message makes of a state, and what it leaves to do,
/// depends on the state, the message and the context alone.
pub trait UpdateWithCtx: View {
    /// The state that `msg` makes of `state` where the context is `ctx`.
    spec fn next(state: Self::V, msg: MsgView, ctx: CtxView) -> Self::V;

    /// What taking `msg` in `state` hands back where the context is `ctx`.
    spec fn emitted(state: Self::V, msg: MsgView, ctx: CtxView) -> EffectsView;

    /// Takes `msg`.
    fn update(&mut self, msg: &Msg, ctx: &Ctx) -> (effects: Effects)
        ensures
            final(self)@ == Self::next(old(self)@, msg@, ctx@),
            effects@ == Self::emitted(old(self)@, msg@, ctx@),
    ;
}

/// Two parts of a model, one after the other.
impl<A: UpdateWithCtx, B: UpdateWithCtx> UpdateWithCtx for (A, B) {
    /// Each part takes the message by itself.
    open spec fn next(state: (A::V, B::V), msg: MsgView, ctx: CtxView) -> (A::V, B::V) {
        (A::next(state.0, msg, ctx), B::next(state.1, msg, ctx))
    }

    /// What the first part hands back, joined by what the second does.
    open spec fn emitted(state: (A::V, B::V), msg: MsgView, ctx: CtxView) -> EffectsView {
        A::emitted(state.0, msg, ctx).join(B::emitted(state.1, msg, ctx))
    }

    fn update(&mut self, msg: &Msg, ctx: &Ctx) -> (effects: Effects) {
        let first = self.0.update(msg, ctx);
        let second = self.1.update(msg, ctx);
        first.join(second)
    }
}

/// A whole model: the context, and the parts that read it.
#[derive(Debug)]
pub struct Model<M> {
    pub ctx: Ctx,
    pub models: M,
}

/// What a `Model` holds, as plain values.
pub struct ModelView<V> {
    pub ctx: CtxView,
    pub models: V,
}

impl<M: View> View for Model<M> {
    type V = ModelView<M::V>;

    open spec fn view(&self) -> ModelView<M::V> {
        ModelView { ctx: self.ctx@, models: self.models@ }
    }
}

impl<M: UpdateWithCtx> Update for Model<M> {
    /// The context takes the message first; the parts take it with the
    /// context as the message has left it.
    open spec fn next(state: ModelView<M::V>, msg: MsgView) -> ModelView<M::V> {
        ModelView {
            ctx: state.ctx.after(msg),
            models: M::next(state.models, msg, state.ctx.after(msg)),
        }
    }

    /// What the context hands back, joined by what the parts do.
    open spec fn emitted(state: ModelView<M::V>, msg: MsgView) -> EffectsView {
        state.ctx.handed_back(msg).join(M::emitted(state.models, msg, state.ctx.after(msg)))
    }

    fn update(&mut self, msg: &Msg) -> (effects: Effects) {
        let of_ctx = self.ctx.update(msg);
        let of_models = self.models.update(msg, &self.ctx);
        of_ctx.join(of_models)
    }
}

} // verus!
