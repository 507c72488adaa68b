use vstd::prelude::*;

verus! {

/// Two graph nodes in series: the source's output flows into the effect.
pub struct Through<S, E> {
    source: S,
    effect: E,
}

impl<S, E> Through<S, E> {
    /// Chain `source` into `effect`.
    pub fn new(source: S, effect: E) -> (t: Self)
        ensures
            t.source() == source,
            t.effect() == effect,
    {
        Self { source, effect }
    }

    /// The signal source, for contracts.
    pub closed spec fn source(&self) -> S {
        self.source
    }

    /// The effect, for contracts.
    pub closed spec fn effect(&self) -> E {
        self.effect
    }

    /// The source node.
    pub fn source_node(&self) -> (s: &S)
        ensures
            *s == self.source(),
    {
        &self.source
    }

    /// The source node, to be driven.
    pub fn source_node_mut(&mut self) -> (s: &mut S)
        ensures
            *s == old(self).source(),
            final(self).source() == *final(s),
            final(self).effect() == old(self).effect(),
    {
        &mut self.source
    }

    /// The effect node.
    pub fn effect_node(&self) -> (e: &E)
        ensures
            *e == self.effect(),
    {
        &self.effect
    }

    /// The effect node, to be driven.
    pub fn effect_node_mut(&mut self) -> (e: &mut E)
        ensures
            *e == old(self).effect(),
            final(self).effect() == *final(e),
            final(self).source() == old(self).source(),
    {
        &mut self.effect
    }
}

} // verus!
