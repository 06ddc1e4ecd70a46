//! Mutating traversal: every span of a cluster is lent to the visitor, which
//! may change it in place.
use vstd::prelude::*;
use proc_macro2::Span;
use crate::trace;

verus! {

/// A mutating traversal of a syntax tree, seen from the spans it meets.
pub trait VisitMut: Sized {
    /// `next` is a state this visitor may be in, and `out` the value it may
    /// leave in the span, after being lent the span `span` while in state
    /// `self`.  Unless a visitor says more, it may do anything.
    open spec fn visits_span_mut(self, span: Span, next: Self, out: Span) -> bool {
        true
    }

    /// Lends one span to the visitor, which may change it.
    fn visit_span_mut(&mut self, span: &mut Span)
        ensures
            Self::visits_span_mut(*old(self), *old(span), *final(self), *final(span)),
    ;
}

/// One callback of a mutating visit.
pub open spec fn visit_mut_step<V: VisitMut>() -> spec_fn(V, Span, V, Span) -> bool {
    |a: V, s: Span, b: V, o: Span| V::visits_span_mut(a, s, b, o)
}

/// Lends each span of `spans` to `visitor`, in positional order; the cluster
/// keeps its arity, and each position holds what the visitor left there.
pub fn tokens_helper<V: VisitMut, S: Spans>(visitor: &mut V, spans: &mut S)
    ensures
        trace::runs(visit_mut_step::<V>(), *old(visitor), old(spans).span_seq(), *final(visitor), final(spans).span_seq()),
{
    spans.visit_mut(visitor);
}

/// A cluster of spans that a mutating traversal walks through.
pub trait Spans: Sized {
    /// The spans of the cluster, in positional order.
    spec fn span_seq(&self) -> Seq<Span>;

    /// Lends each span to `visitor`, first to last, each exactly once; the
    /// change to one span is made before the next is lent.
    fn visit_mut<V: VisitMut>(&mut self, visitor: &mut V)
        ensures
            trace::runs(visit_mut_step::<V>(), *old(visitor), old(self).span_seq(), *final(visitor), final(self).span_seq()),
    ;
}

impl Spans for Span {
    open spec fn span_seq(&self) -> Seq<Span> {
        seq![*self]
    }

    fn visit_mut<V: VisitMut>(&mut self, visitor: &mut V) {
        let ghost v0 = *visitor;
        let ghost s0 = *self;
        visitor.visit_span_mut(self);
        proof {
            let step = visit_mut_step::<V>();
            trace::lemma_run_empty(step, v0);
            trace::lemma_run_push(step, seq![v0], v0, seq![], v0, seq![], s0, *visitor, *self);
            assert(seq![s0] =~= Seq::<Span>::empty().push(s0));
            assert(seq![*self] =~= Seq::<Span>::empty().push(*self));
        }
    }
}

impl Spans for [Span; 1] {
    open spec fn span_seq(&self) -> Seq<Span> {
        self@
    }

    fn visit_mut<V: VisitMut>(&mut self, visitor: &mut V) {
        let ghost v0 = *visitor;
        let ghost s0 = self[0];
        visitor.visit_span_mut(&mut self[0]);
        proof {
            let step = visit_mut_step::<V>();
            trace::lemma_run_empty(step, v0);
            trace::lemma_run_push(step, seq![v0], v0, seq![], v0, seq![], s0, *visitor, self[0]);
            assert(old(self)@ =~= Seq::<Span>::empty().push(s0));
            assert(self@ =~= Seq::<Span>::empty().push(self[0]));
        }
    }
}

impl Spans for [Span; 2] {
    open spec fn span_seq(&self) -> Seq<Span> {
        self@
    }

    fn visit_mut<V: VisitMut>(&mut self, visitor: &mut V) {
        let ghost v0 = *visitor;
        let ghost (s0, s1) = (self[0], self[1]);
        visitor.visit_span_mut(&mut self[0]);
        let ghost v1 = *visitor;
        visitor.visit_span_mut(&mut self[1]);
        proof {
            let step = visit_mut_step::<V>();
            let (o0, o1) = (self[0], self[1]);
            trace::lemma_run_empty(step, v0);
            trace::lemma_run_push(step, seq![v0], v0, seq![], v0, seq![], s0, v1, o0);
            assert(seq![v0].push(v1) =~= seq![v0, v1]);
            assert(Seq::<Span>::empty().push(s0) =~= seq![s0]);
            assert(Seq::<Span>::empty().push(o0) =~= seq![o0]);
            trace::lemma_run_push(step, seq![v0, v1], v0, seq![s0], v1, seq![o0], s1, *visitor, o1);
            assert(old(self)@ =~= seq![s0].push(s1));
            assert(self@ =~= seq![o0].push(o1));
        }
    }
}

impl Spans for [Span; 3] {
    open spec fn span_seq(&self) -> Seq<Span> {
        self@
    }

    fn visit_mut<V: VisitMut>(&mut self, visitor: &mut V) {
        let ghost v0 = *visitor;
        let ghost (s0, s1, s2) = (self[0], self[1], self[2]);
        visitor.visit_span_mut(&mut self[0]);
        let ghost v1 = *visitor;
        visitor.visit_span_mut(&mut self[1]);
        let ghost v2 = *visitor;
        visitor.visit_span_mut(&mut self[2]);
        proof {
            let step = visit_mut_step::<V>();
            let (o0, o1, o2) = (self[0], self[1], self[2]);
            trace::lemma_run_empty(step, v0);
            trace::lemma_run_push(step, seq![v0], v0, seq![], v0, seq![], s0, v1, o0);
            assert(seq![v0].push(v1) =~= seq![v0, v1]);
            assert(Seq::<Span>::empty().push(s0) =~= seq![s0]);
            assert(Seq::<Span>::empty().push(o0) =~= seq![o0]);
            trace::lemma_run_push(step, seq![v0, v1], v0, seq![s0], v1, seq![o0], s1, v2, o1);
            assert(seq![v0, v1].push(v2) =~= seq![v0, v1, v2]);
            assert(seq![s0].push(s1) =~= seq![s0, s1]);
            assert(seq![o0].push(o1) =~= seq![o0, o1]);
            trace::lemma_run_push(step, seq![v0, v1, v2], v0, seq![s0, s1], v2, seq![o0, o1], s2, *visitor, o2);
            assert(old(self)@ =~= seq![s0, s1].push(s2));
            assert(self@ =~= seq![o0, o1].push(o2));
        }
    }
}

/// Where the visitor changes each span it is lent into `f` of that span, a
/// visited cluster keeps its arity and holds, at every position, `f` of the
/// span that stood there.
pub proof fn lemma_visit_mut_applies_to_each_span<V: VisitMut>(
    v0: V,
    before: Seq<Span>,
    v1: V,
    after: Seq<Span>,
    f: spec_fn(Span) -> Span,
)
    requires
        trace::runs(visit_mut_step::<V>(), v0, before, v1, after),
        forall|a: V, s: Span, b: V, o: Span| #[trigger] V::visits_span_mut(a, s, b, o) ==> o == f(s),
    ensures
        after.len() == before.len(),
        forall|i: int| 0 <= i < before.len() ==> #[trigger] after[i] == f(before[i]),
{
    let step = visit_mut_step::<V>();
    assert forall|a: V, s: Span, b: V, o: Span| #[trigger] step(a, s, b, o) implies o == f(s) by {
        assert(V::visits_span_mut(a, s, b, o));
    }
    trace::lemma_run_maps(step, v0, before, v1, after, f);
}

} // verus!
