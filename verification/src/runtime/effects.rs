//! What an update hands back: whether the state changed, and the work that is
//! left for the host.

use crate::runtime::msg::Msg;
use crate::runtime::msg::MsgView;
use vstd::prelude::*;

verus! {

/// One piece of work that an update leaves for the host.
#[derive(Debug)]
pub enum Effect {
    /// A message to update the model with next.
    Msg(Msg),
    /// Work outside the model, under a name that only the host reads.
    Task(String),
}

/// What an `Effect` holds, as plain values.
pub enum EffectView {
    Msg(MsgView),
    Task(Seq<char>),
}

impl View for Effect {
    type V = EffectView;

    open spec fn view(&self) -> EffectView {
        match self {
            Effect::Msg(msg) => EffectView::Msg(msg@),
            Effect::Task(name) => EffectView::Task(name@),
        }
    }
}

/// The plain values of a sequence of effects, in the same order.
pub open spec fn effects_view(effects: Seq<Effect>) -> Seq<EffectView> {
    effects.map_values(|effect: Effect| effect@)
}

/// The outcome of an update.
#[derive(Debug)]
pub struct Effects {
    /// The work for the host, in the order in which it was asked for.
    pub effects: Vec<Effect>,
    /// Whether the state is no longer what it was.
    pub has_changed: bool,
}

/// What an `Effects` holds, as plain values.
pub struct EffectsView {
    pub effects: Seq<EffectView>,
    pub has_changed: bool,
}

impl View for Effects {
    type V = EffectsView;

    open spec fn view(&self) -> EffectsView {
        EffectsView { effects: effects_view(self.effects@), has_changed: self.has_changed }
    }
}

impl EffectsView {
    /// A change of the state that leaves no work.
    pub open spec fn none() -> EffectsView {
        EffectsView { effects: Seq::empty(), has_changed: true }
    }

    /// The same work, with the state said to be unchanged.
    pub open spec fn unchanged(self) -> EffectsView {
        EffectsView { effects: self.effects, has_changed: false }
    }

    /// The work of `self` followed by that of `other`; the state has changed if
    /// either says so.
    pub open spec fn join(self, other: EffectsView) -> EffectsView {
        EffectsView {
            effects: self.effects + other.effects,
            has_changed: self.has_changed || other.has_changed,
        }
    }
}

impl Effects {
    /// A change of the state that leaves no work.
    pub fn none() -> (r: Effects)
        ensures
            r@ == EffectsView::none(),
    {
        let r = Effects { effects: Vec::new(), has_changed: true };
        assert(r@.effects =~= Seq::empty());
        r
    }

    /// A change of the state that leaves one piece of work.
    pub fn one(effect: Effect) -> (r: Effects)
        ensures
            r@ == (EffectsView { effects: seq![effect@], has_changed: true }),
    {
        let mut effects = Vec::new();
        effects.push(effect);
        let r = Effects { effects, has_changed: true };
        assert(r@.effects =~= seq![effect@]);
        r
    }

    /// A change of the state that leaves one message to update the model with.
    pub fn msg(msg: Msg) -> (r: Effects)
        ensures
            r@ == (EffectsView { effects: seq![EffectView::Msg(msg@)], has_changed: true }),
    {
        Effects::one(Effect::Msg(msg))
    }

    /// The same work, with the state said to be unchanged.
    pub fn unchanged(self) -> (r: Effects)
        ensures
            r@ == self@.unchanged(),
            r.effects == self.effects,
    {
        Effects { effects: self.effects, has_changed: false }
    }

    /// The work of `self` followed by that of `effects`; the state has changed
    /// if either says so.
    pub fn join(self, effects: Effects) -> (r: Effects)
        ensures
            r@ == self@.join(effects@),
            r.effects@ == self.effects@ + effects.effects@,
    {
        let has_changed = self.has_changed || effects.has_changed;
        let mut first = self.effects;
        let mut second = effects.effects;
        first.append(&mut second);
        let r = Effects { effects: first, has_changed };
        assert(r@.effects =~= self@.effects + effects@.effects);
        r
    }

    /// The number of pieces of work.
    pub fn len(&self) -> (n: usize)
        ensures
            n == self@.effects.len(),
    {
        self.effects.len()
    }

    /// Whether no work is left.
    pub fn is_empty(&self) -> (empty: bool)
        ensures
            empty == (self@.effects.len() == 0),
    {
        self.effects.len() == 0
    }
}

/// Joining is associative: how a chain of outcomes is grouped does not matter.
pub proof fn lemma_join_associative(a: EffectsView, b: EffectsView, c: EffectsView)
    ensures
        a.join(b).join(c) == a.join(b.join(c)),
{
    assert((a.effects + b.effects) + c.effects =~= a.effects + (b.effects + c.effects));
}

/// The unchanged outcome without work is the identity of joining, on both
/// sides.
pub proof fn lemma_join_identity(a: EffectsView)
    ensures
        EffectsView::none().unchanged().join(a) == a,
        a.join(EffectsView::none().unchanged()) == a,
{
    assert(Seq::<EffectView>::empty() + a.effects =~= a.effects);
    assert(a.effects + Seq::<EffectView>::empty() =~= a.effects);
}

} // verus!
