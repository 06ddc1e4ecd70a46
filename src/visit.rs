//! Read-only traversal: every span of a cluster is shown to the visitor.
use vstd::prelude::*;
use proc_macro2::Span;
use crate::trace;

verus! {

/// A read-only traversal of a syntax tree, seen from the spans it meets.
pub trait Visit<'ast>: Sized {
    /// `next` is a state this visitor may be in after being shown `span` while
    /// in state `self`.  Unless a visitor says more, it may end in any state.
    open spec fn visits_span(self, span: Span, next: Self) -> bool {
        true
    }

    /// Shows one span to the visitor.
    fn visit_span(&mut self, span: &'ast Span)
        ensures
            Self::visits_span(*old(self), *span, *final(self)),
    ;
}

/// One callback of a visit: the span is only looked at, so what comes out is
/// the span that went in.
pub open spec fn visit_step<'ast, V: Visit<'ast>>() -> spec_fn(V, Span, V, Span) -> bool {
    |a: V, s: Span, b: V, o: Span| o == s && V::visits_span(a, s, b)
}

/// Shows each span of `spans` to `visitor`, in positional order.
pub fn tokens_helper<'ast, V: Visit<'ast>, S: Spans>(visitor: &mut V, spans: &'ast S)
    ensures
        trace::runs(visit_step::<'ast, V>(), *old(visitor), spans.span_seq(), *final(visitor), spans.span_seq()),
{
    spans.visit(visitor);
}

/// A cluster of spans that a read-only traversal walks through.
pub trait Spans {
    /// The spans of the cluster, in positional order.
    spec fn span_seq(&self) -> Seq<Span>;

    /// Shows each span to `visitor`, first to last, each exactly once.
    fn visit<'ast, V: Visit<'ast>>(&'ast self, visitor: &mut V)
        ensures
            trace::runs(visit_step::<'ast, V>(), *old(visitor), self.span_seq(), *final(visitor), self.span_seq()),
    ;
}

impl Spans for Span {
    open spec fn span_seq(&self) -> Seq<Span> {
        seq![*self]
    }

    fn visit<'ast, V: Visit<'ast>>(&'ast self, visitor: &mut V) {
        let ghost v0 = *visitor;
        visitor.visit_span(self);
        proof {
            let step = visit_step::<'ast, V>();
            trace::lemma_run_empty(step, v0);
            trace::lemma_run_push(step, seq![v0], v0, seq![], v0, seq![], *self, *visitor, *self);
            assert(seq![*self] =~= Seq::<Span>::empty().push(*self));
        }
    }
}

impl Spans for [Span; 1] {
    open spec fn span_seq(&self) -> Seq<Span> {
        self@
    }

    fn visit<'ast, V: Visit<'ast>>(&'ast self, visitor: &mut V) {
        let ghost v0 = *visitor;
        visitor.visit_span(&self[0]);
        proof {
            let step = visit_step::<'ast, V>();
            trace::lemma_run_empty(step, v0);
            trace::lemma_run_push(step, seq![v0], v0, seq![], v0, seq![], self[0], *visitor, self[0]);
            assert(self@ =~= Seq::<Span>::empty().push(self[0]));
        }
    }
}

impl Spans for [Span; 2] {
    open spec fn span_seq(&self) -> Seq<Span> {
        self@
    }

    fn visit<'ast, V: Visit<'ast>>(&'ast self, visitor: &mut V) {
        let ghost v0 = *visitor;
        visitor.visit_span(&self[0]);
        let ghost v1 = *visitor;
        visitor.visit_span(&self[1]);
        proof {
            let step = visit_step::<'ast, V>();
            let (s0, s1) = (self[0], self[1]);
            trace::lemma_run_empty(step, v0);
            trace::lemma_run_push(step, seq![v0], v0, seq![], v0, seq![], s0, v1, s0);
            trace::lemma_run_push(step, seq![v0, v1], v0, seq![s0], v1, seq![s0], s1, *visitor, s1);
            assert(seq![v0].push(v1) =~= seq![v0, v1]);
            assert(Seq::<Span>::empty().push(s0) =~= seq![s0]);
            assert(self@ =~= seq![s0].push(s1));
        }
    }
}

impl Spans for [Span; 3] {
    open spec fn span_seq(&self) -> Seq<Span> {
        self@
    }

    fn visit<'ast, V: Visit<'ast>>(&'ast self, visitor: &mut V) {
        let ghost v0 = *visitor;
        visitor.visit_span(&self[0]);
        let ghost v1 = *visitor;
        visitor.visit_span(&self[1]);
        let ghost v2 = *visitor;
        visitor.visit_span(&self[2]);
        proof {
            let step = visit_step::<'ast, V>();
            let (s0, s1, s2) = (self[0], self[1], self[2]);
            trace::lemma_run_empty(step, v0);
            trace::lemma_run_push(step, seq![v0], v0, seq![], v0, seq![], s0, v1, s0);
            assert(seq![v0].push(v1) =~= seq![v0, v1]);
            assert(Seq::<Span>::empty().push(s0) =~= seq![s0]);
            trace::lemma_run_push(step, seq![v0, v1], v0, seq![s0], v1, seq![s0], s1, v2, s1);
            assert(seq![v0, v1].push(v2) =~= seq![v0, v1, v2]);
            assert(seq![s0].push(s1) =~= seq![s0, s1]);
            trace::lemma_run_push(step, seq![v0, v1, v2], v0, seq![s0, s1], v2, seq![s0, s1], s2, *visitor, s2);
            assert(self@ =~= seq![s0, s1].push(s2));
        }
    }
}

/// A bare span is a cluster of one; an array of `N` spans is a cluster of `N`,
/// taken in index order.
pub proof fn lemma_cluster_spans(one: Span, a1: [Span; 1], a2: [Span; 2], a3: [Span; 3])
    ensures
        one.span_seq() == seq![one],
        a1.span_seq() == seq![a1[0]],
        a2.span_seq() == seq![a2[0], a2[1]],
        a3.span_seq() == seq![a3[0], a3[1], a3[2]],
{
    assert(a1@ =~= seq![a1[0]]);
    assert(a2@ =~= seq![a2[0], a2[1]]);
    assert(a3@ =~= seq![a3[0], a3[1], a3[2]]);
}

/// Visiting a cluster shows the visitor the cluster's spans and nothing else:
/// where each callback records the span it is shown, the record grows by
/// exactly the cluster's spans, first to last.
pub proof fn lemma_visit_records_each_span<'ast, V: Visit<'ast>>(
    v0: V,
    spans: Seq<Span>,
    v1: V,
    seen: spec_fn(V) -> Seq<Span>,
)
    requires
        trace::runs(visit_step::<'ast, V>(), v0, spans, v1, spans),
        forall|a: V, s: Span, b: V| #[trigger] V::visits_span(a, s, b) ==> seen(b) == seen(a).push(s),
    ensures
        seen(v1) == seen(v0) + spans,
{
    let step = visit_step::<'ast, V>();
    let note = |l: Seq<Span>, s: Span| s;
    assert forall|a: V, x: Span, b: V, y: Span| #[trigger] step(a, x, b, y) implies seen(b) == seen(
        a,
    ).push(note(seen(a), x)) by {
        assert(V::visits_span(a, x, b));
    }
    let states = trace::lemma_run_logs(step, v0, spans, v1, spans, seen, note);
    let n = seen(v0).len();
    assert forall|i: int| 0 <= i < seen(v1).len() implies #[trigger] seen(v1)[i] == (seen(v0) + spans)[i] by {
        if i < n {
            assert(seen(v1).take(n as int)[i] == seen(v1)[i]);
        } else {
            assert(seen(v1)[n + (i - n)] == note(seen(states[i - n]), spans[i - n]));
        }
    }
    assert(seen(v1) =~= seen(v0) + spans);
}

} // verus!
