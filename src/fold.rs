//! Rebuilding traversal: every span of a cluster is handed to the folder,
//! which gives back the span that replaces it; and every element of a list
//! field is handed to an element folder, which gives back its replacement.
use vstd::prelude::*;
use proc_macro2::Span;
use crate::punctuated::{Pair, Punctuated};
use crate::trace;

verus! {

/// A rebuilding traversal of a syntax tree, seen from the spans it meets.
pub trait Fold: Sized {
    /// `next` is a state this folder may be in, and `out` the span it may give
    /// back, after being handed `span` while in state `self`.  Unless a folder
    /// says more, it may do anything.
    open spec fn folds_span(self, span: Span, next: Self, out: Span) -> bool {
        true
    }

    /// Hands one span to the folder and takes back its replacement.
    fn fold_span(&mut self, span: Span) -> (out: Span)
        ensures
            Self::folds_span(*old(self), span, *final(self), out),
    ;
}

/// One callback of a fold.
pub open spec fn fold_step<F: Fold>() -> spec_fn(F, Span, F, Span) -> bool {
    |a: F, s: Span, b: F, o: Span| F::folds_span(a, s, b, o)
}

/// Rebuilds `spans` by handing each span to `folder`, in positional order; the
/// result has the same arity, the replacement of each span in its place.
pub fn tokens_helper<F: Fold, S: Spans>(folder: &mut F, spans: &S) -> (rebuilt: S)
    ensures
        trace::runs(fold_step::<F>(), *old(folder), spans.span_seq(), *final(folder), rebuilt.span_seq()),
{
    spans.fold(folder)
}

/// A cluster of spans that a rebuilding traversal replaces one by one.
pub trait Spans: Sized {
    /// The spans of the cluster, in positional order.
    spec fn span_seq(&self) -> Seq<Span>;

    /// Hands each span to `folder`, first to last, each exactly once, and
    /// gathers the replacements into a cluster of the same shape.
    fn fold<F: Fold>(&self, folder: &mut F) -> (rebuilt: Self)
        ensures
            trace::runs(fold_step::<F>(), *old(folder), self.span_seq(), *final(folder), rebuilt.span_seq()),
    ;
}

impl Spans for Span {
    open spec fn span_seq(&self) -> Seq<Span> {
        seq![*self]
    }

    fn fold<F: Fold>(&self, folder: &mut F) -> (rebuilt: Self) {
        let ghost f0 = *folder;
        let o0 = folder.fold_span(*self);
        proof {
            let step = fold_step::<F>();
            trace::lemma_run_empty(step, f0);
            trace::lemma_run_push(step, seq![f0], f0, seq![], f0, seq![], *self, *folder, o0);
            assert(seq![*self] =~= Seq::<Span>::empty().push(*self));
            assert(seq![o0] =~= Seq::<Span>::empty().push(o0));
        }
        o0
    }
}

impl Spans for [Span; 1] {
    open spec fn span_seq(&self) -> Seq<Span> {
        self@
    }

    fn fold<F: Fold>(&self, folder: &mut F) -> (rebuilt: Self) {
        let ghost f0 = *folder;
        let o0 = folder.fold_span(self[0]);
        let rebuilt = [o0];
        proof {
            let step = fold_step::<F>();
            trace::lemma_run_empty(step, f0);
            trace::lemma_run_push(step, seq![f0], f0, seq![], f0, seq![], self[0], *folder, o0);
            assert(self@ =~= Seq::<Span>::empty().push(self[0]));
            assert(rebuilt@ =~= Seq::<Span>::empty().push(o0));
        }
        rebuilt
    }
}

impl Spans for [Span; 2] {
    open spec fn span_seq(&self) -> Seq<Span> {
        self@
    }

    fn fold<F: Fold>(&self, folder: &mut F) -> (rebuilt: Self) {
        let ghost f0 = *folder;
        let o0 = folder.fold_span(self[0]);
        let ghost f1 = *folder;
        let o1 = folder.fold_span(self[1]);
        let rebuilt = [o0, o1];
        proof {
            let step = fold_step::<F>();
            let (s0, s1) = (self[0], self[1]);
            trace::lemma_run_empty(step, f0);
            trace::lemma_run_push(step, seq![f0], f0, seq![], f0, seq![], s0, f1, o0);
            assert(seq![f0].push(f1) =~= seq![f0, f1]);
            assert(Seq::<Span>::empty().push(s0) =~= seq![s0]);
            assert(Seq::<Span>::empty().push(o0) =~= seq![o0]);
            trace::lemma_run_push(step, seq![f0, f1], f0, seq![s0], f1, seq![o0], s1, *folder, o1);
            assert(self@ =~= seq![s0].push(s1));
            assert(rebuilt@ =~= seq![o0].push(o1));
        }
        rebuilt
    }
}

impl Spans for [Span; 3] {
    open spec fn span_seq(&self) -> Seq<Span> {
        self@
    }

    fn fold<F: Fold>(&self, folder: &mut F) -> (rebuilt: Self) {
        let ghost f0 = *folder;
        let o0 = folder.fold_span(self[0]);
        let ghost f1 = *folder;
        let o1 = folder.fold_span(self[1]);
        let ghost f2 = *folder;
        let o2 = folder.fold_span(self[2]);
        let rebuilt = [o0, o1, o2];
        proof {
            let step = fold_step::<F>();
            let (s0, s1, s2) = (self[0], self[1], self[2]);
            trace::lemma_run_empty(step, f0);
            trace::lemma_run_push(step, seq![f0], f0, seq![], f0, seq![], s0, f1, o0);
            assert(seq![f0].push(f1) =~= seq![f0, f1]);
            assert(Seq::<Span>::empty().push(s0) =~= seq![s0]);
            assert(Seq::<Span>::empty().push(o0) =~= seq![o0]);
            trace::lemma_run_push(step, seq![f0, f1], f0, seq![s0], f1, seq![o0], s1, f2, o1);
            assert(seq![f0, f1].push(f2) =~= seq![f0, f1, f2]);
            assert(seq![s0].push(s1) =~= seq![s0, s1]);
            assert(seq![o0].push(o1) =~= seq![o0, o1]);
            trace::lemma_run_push(step, seq![f0, f1, f2], f0, seq![s0, s1], f2, seq![o0, o1], s2, *folder, o2);
            assert(self@ =~= seq![s0, s1].push(s2));
            assert(rebuilt@ =~= seq![o0, o1].push(o2));
        }
        rebuilt
    }
}

/// Where the folder replaces each span it is handed by `g` of that span, a
/// rebuilt cluster holds, at every position, `g` of the span that stood there.
pub proof fn lemma_fold_replaces_each_span<F: Fold>(
    f0: F,
    spans: Seq<Span>,
    f1: F,
    rebuilt: Seq<Span>,
    g: spec_fn(Span) -> Span,
)
    requires
        trace::runs(fold_step::<F>(), f0, spans, f1, rebuilt),
        forall|a: F, s: Span, b: F, o: Span| #[trigger] F::folds_span(a, s, b, o) ==> o == g(s),
    ensures
        rebuilt.len() == spans.len(),
        forall|i: int| 0 <= i < spans.len() ==> #[trigger] rebuilt[i] == g(spans[i]),
{
    let step = fold_step::<F>();
    assert forall|a: F, s: Span, b: F, o: Span| #[trigger] step(a, s, b, o) implies o == g(s) by {
        assert(F::folds_span(a, s, b, o));
    }
    trace::lemma_run_maps(step, f0, spans, f1, rebuilt, g);
}

/// A stateful replacement of list elements, applied to one element at a time.
/// Its state carries over from one call to the next, so that a later element
/// may depend on what the calls for earlier ones did.
pub trait FoldItem<T>: Sized {
    /// `next` is a state this folder may be in, and `out` the element it may
    /// give back, after being handed `item` while in state `self`.  Unless a
    /// folder says more, it may do anything.
    open spec fn folds_item(self, item: T, next: Self, out: T) -> bool {
        true
    }

    /// Hands one element to the folder and takes back its replacement.
    fn fold_item(&mut self, item: T) -> (out: T)
        ensures
            Self::folds_item(*old(self), item, *final(self), out),
    ;
}

/// One call of an element folder.
pub open spec fn item_step<T, F: FoldItem<T>>() -> spec_fn(F, T, F, T) -> bool {
    |a: F, x: T, b: F, y: T| F::folds_item(a, x, b, y)
}

/// A stateful replacement of list elements that may fail on an element.
pub trait TryFoldItem<T>: Sized {
    /// Why an element could not be replaced.
    type Error;

    /// `next` is a state this folder may be in, and `out` the replacement or
    /// failure it may give back, after being handed `item` while in state
    /// `self`.  Unless a folder says more, it may do anything.
    open spec fn tries_item(self, item: T, next: Self, out: Result<T, Self::Error>) -> bool {
        true
    }

    /// Hands one element to the folder and takes back its replacement, or
    /// the reason there is none.
    fn try_fold_item(&mut self, item: T) -> (out: Result<T, Self::Error>)
        ensures
            Self::tries_item(*old(self), item, *final(self), out),
    ;
}

/// One call of a fallible element folder that succeeded with `y`.
pub open spec fn try_item_step<T, F: TryFoldItem<T>>() -> spec_fn(F, T, F, T) -> bool {
    |a: F, x: T, b: F, y: T| F::tries_item(a, x, b, Ok(y))
}

/// The folder, started in `f0` on the elements `xs`, replaced the elements
/// before some position `k` one by one and then failed on `xs[k]` with `e`,
/// ending in `f1`; nothing after `xs[k]` was handed to it.
pub open spec fn fails_at_some_item<T, F: TryFoldItem<T>>(f0: F, xs: Seq<T>, f1: F, e: F::Error) -> bool {
    exists|k: int, mid: F, done: Seq<T>|
        0 <= k < xs.len() && #[trigger] trace::runs(try_item_step::<T, F>(), f0, xs.take(k), mid, done)
            && F::tries_item(mid, xs[k], f1, Err(e))
}

/// An owned list whose elements a fold replaces one by one, in order, while
/// everything else about the list stays as it was.
pub trait FoldHelper: Sized {
    /// The element type.
    type Item;

    /// What the list holds besides its elements.
    type Shape;

    /// The elements, first to last.
    spec fn items(&self) -> Seq<Self::Item>;

    /// What the list holds besides its elements.
    spec fn shape(&self) -> Self::Shape;

    /// Hands each element to `f`, first to last, each exactly once, and
    /// rebuilds the list from the replacements: same length, same shape.
    fn lift<F: FoldItem<Self::Item>>(self, f: &mut F) -> (r: Self)
        ensures
            trace::runs(item_step::<Self::Item, F>(), *old(f), self.items(), *final(f), r.items()),
            r.shape() == self.shape(),
    ;

    /// As `lift`, with a folder that may fail: the first failure stops the
    /// rebuild, hands no further element to `f`, and is returned as it came.
    fn try_lift<F: TryFoldItem<Self::Item>>(self, f: &mut F) -> (r: Result<Self, F::Error>)
        ensures
            match r {
                Ok(rebuilt) => {
                    &&& trace::runs(try_item_step::<Self::Item, F>(), *old(f), self.items(), *final(f), rebuilt.items())
                    &&& rebuilt.shape() == self.shape()
                },
                Err(e) => fails_at_some_item(*old(f), self.items(), *final(f), e),
            },
    ;
}

impl<T> FoldHelper for Vec<T> {
    type Item = T;

    type Shape = ();

    open spec fn items(&self) -> Seq<T> {
        self@
    }

    open spec fn shape(&self) -> () {
        ()
    }

    fn lift<F: FoldItem<T>>(self, f: &mut F) -> (r: Vec<T>) {
        let ghost f0 = *f;
        let ghost xs = self@;
        let ghost step = item_step::<T, F>();
        let ghost mut states: Seq<F> = seq![f0];
        let mut out: Vec<T> = Vec::new();
        proof {
            trace::lemma_run_empty(step, f0);
            assert(xs.take(0) =~= Seq::<T>::empty());
        }
        for x in it: self.into_iter()
            invariant
                it.seq() == xs,
                step == item_step::<T, F>(),
                out@.len() == it.index(),
                trace::is_run(step, states, f0, xs.take(it.index() as int), *f, out@),
        {
            let ghost k = it.index() as int;
            let ghost fa = *f;
            let y = f.fold_item(x);
            proof {
                trace::lemma_run_push(step, states, f0, xs.take(k), fa, out@, x, *f, y);
                states = states.push(*f);
                assert(xs.take(k).push(x) =~= xs.take(k + 1));
            }
            out.push(y);
        }
        proof {
            assert(xs.take(xs.len() as int) =~= xs);
        }
        out
    }

    fn try_lift<F: TryFoldItem<T>>(self, f: &mut F) -> (r: Result<Vec<T>, F::Error>) {
        let ghost f0 = *f;
        let ghost xs = self@;
        let ghost step = try_item_step::<T, F>();
        let ghost mut states: Seq<F> = seq![f0];
        let mut out: Vec<T> = Vec::new();
        let mut failure: Option<F::Error> = None;
        proof {
            trace::lemma_run_empty(step, f0);
            assert(xs.take(0) =~= Seq::<T>::empty());
        }
        for x in it: self.into_iter()
            invariant_except_break
                failure is None,
                out@.len() == it.index(),
                trace::is_run(step, states, f0, xs.take(it.index() as int), *f, out@),
            invariant
                it.seq() == xs,
                step == try_item_step::<T, F>(),
            ensures
                failure is None ==> {
                    &&& it.index() == xs.len()
                    &&& trace::is_run(step, states, f0, xs.take(it.index() as int), *f, out@)
                },
                failure matches Some(e) ==> fails_at_some_item(f0, xs, *f, e),
        {
            let ghost k = it.index() as int;
            let ghost fa = *f;
            let ghost xk = x;
            match f.try_fold_item(x) {
                Ok(y) => {
                    proof {
                        trace::lemma_run_push(step, states, f0, xs.take(k), fa, out@, x, *f, y);
                        states = states.push(*f);
                        assert(xs.take(k).push(x) =~= xs.take(k + 1));
                    }
                    out.push(y);
                },
                Err(e) => {
                    proof {
                        assert(xk == xs[k]);
                        assert(trace::runs(step, f0, xs.take(k), fa, out@));
                    }
                    failure = Some(e);
                    break;
                },
            }
        }
        match failure {
            Some(e) => Err(e),
            None => {
                proof {
                    assert(xs.take(xs.len() as int) =~= xs);
                }
                Ok(out)
            },
        }
    }
}

impl<T, P> FoldHelper for Punctuated<T, P> {
    type Item = T;

    type Shape = Seq<Option<P>>;

    open spec fn items(&self) -> Seq<T> {
        self.values()
    }

    open spec fn shape(&self) -> Seq<Option<P>> {
        self.separators()
    }

    fn lift<F: FoldItem<T>>(self, f: &mut F) -> (r: Punctuated<T, P>) {
        let ghost f0 = *f;
        let ghost whole = self@;
        let ghost xs = self.values();
        let ghost seps = self.separators();
        let ghost step = item_step::<T, F>();
        let ghost mut states: Seq<F> = seq![f0];
        let ghost mut ys: Seq<T> = Seq::empty();
        proof {
            self.lemma_well_formed();
            trace::lemma_run_empty(step, f0);
            assert(xs.take(0) =~= Seq::<T>::empty());
        }
        let pairs = self.into_pairs();
        let ghost split = pairs@;
        let mut out: Vec<Pair<T, P>> = Vec::new();
        for q in it: pairs.into_iter()
            invariant
                it.seq() == split,
                split.len() == whole.len(),
                forall|i: int| 0 <= i < split.len() ==> (#[trigger] split[i]).tuple() == whole[i],
                xs == whole.map_values(|e: (T, Option<P>)| e.0),
                seps == whole.map_values(|e: (T, Option<P>)| e.1),
                step == item_step::<T, F>(),
                out@.len() == it.index(),
                forall|i: int| 0 <= i < out@.len() ==> (#[trigger] out@[i]).tuple() == (ys[i], seps[i]),
                trace::is_run(step, states, f0, xs.take(it.index() as int), *f, ys),
        {
            let ghost k = it.index() as int;
            let ghost fa = *f;
            let (t, u) = q.into_tuple();
            let y = f.fold_item(t);
            proof {
                assert(split[k].tuple() == whole[k]);
                assert(t == xs[k]);
                trace::lemma_run_push(step, states, f0, xs.take(k), fa, ys, t, *f, y);
                states = states.push(*f);
                ys = ys.push(y);
                assert(xs.take(k).push(t) =~= xs.take(k + 1));
            }
            out.push(Pair::new(y, u));
        }
        proof {
            assert(xs.take(xs.len() as int) =~= xs);
            let tuples = out@.map_values(|q: Pair<T, P>| q.tuple());
            assert forall|i: int| 0 <= i < tuples.len() - 1 implies (#[trigger] tuples[i]).1 is Some by {
                assert(tuples[i] == out@[i].tuple());
                assert(whole[i].1 is Some);
            }
        }
        let r = Punctuated::from_pairs(out);
        proof {
            assert(r.values() =~= ys);
            assert(r.separators() =~= seps);
        }
        r
    }

    fn try_lift<F: TryFoldItem<T>>(self, f: &mut F) -> (r: Result<Punctuated<T, P>, F::Error>) {
        let ghost f0 = *f;
        let ghost whole = self@;
        let ghost xs = self.values();
        let ghost seps = self.separators();
        let ghost step = try_item_step::<T, F>();
        let ghost mut states: Seq<F> = seq![f0];
        let ghost mut ys: Seq<T> = Seq::empty();
        proof {
            self.lemma_well_formed();
            trace::lemma_run_empty(step, f0);
            assert(xs.take(0) =~= Seq::<T>::empty());
        }
        let pairs = self.into_pairs();
        let ghost split = pairs@;
        let mut out: Vec<Pair<T, P>> = Vec::new();
        let mut failure: Option<F::Error> = None;
        for q in it: pairs.into_iter()
            invariant_except_break
                failure is None,
                out@.len() == it.index(),
                forall|i: int| 0 <= i < out@.len() ==> (#[trigger] out@[i]).tuple() == (ys[i], seps[i]),
                trace::is_run(step, states, f0, xs.take(it.index() as int), *f, ys),
            invariant
                it.seq() == split,
                split.len() == whole.len(),
                forall|i: int| 0 <= i < split.len() ==> (#[trigger] split[i]).tuple() == whole[i],
                xs == whole.map_values(|e: (T, Option<P>)| e.0),
                seps == whole.map_values(|e: (T, Option<P>)| e.1),
                step == try_item_step::<T, F>(),
            ensures
                failure is None ==> {
                    &&& it.index() == xs.len()
                    &&& out@.len() == xs.len()
                    &&& forall|i: int| 0 <= i < out@.len() ==> (#[trigger] out@[i]).tuple() == (ys[i], seps[i])
                    &&& trace::is_run(step, states, f0, xs.take(it.index() as int), *f, ys)
                },
                failure matches Some(e) ==> fails_at_some_item(f0, xs, *f, e),
        {
            let ghost k = it.index() as int;
            let ghost fa = *f;
            let (t, u) = q.into_tuple();
            proof {
                assert(split[k].tuple() == whole[k]);
                assert(t == xs[k]);
            }
            match f.try_fold_item(t) {
                Ok(y) => {
                    proof {
                        trace::lemma_run_push(step, states, f0, xs.take(k), fa, ys, t, *f, y);
                        states = states.push(*f);
                        ys = ys.push(y);
                        assert(xs.take(k).push(t) =~= xs.take(k + 1));
                    }
                    out.push(Pair::new(y, u));
                },
                Err(e) => {
                    proof {
                        assert(trace::runs(step, f0, xs.take(k), fa, ys));
                    }
                    failure = Some(e);
                    break;
                },
            }
        }
        match failure {
            Some(e) => Err(e),
            None => {
                proof {
                    assert(xs.take(xs.len() as int) =~= xs);
                    let tuples = out@.map_values(|q: Pair<T, P>| q.tuple());
                    assert forall|i: int| 0 <= i < tuples.len() - 1 implies (#[trigger] tuples[i]).1 is Some by {
                        assert(tuples[i] == out@[i].tuple());
                        assert(whole[i].1 is Some);
                    }
                }
                let r = Punctuated::from_pairs(out);
                proof {
                    assert(r.values() =~= ys);
                    assert(r.separators() =~= seps);
                }
                Ok(r)
            },
        }
    }
}

/// Rebuilding a list calls the element folder on the elements in ascending
/// index order: where each call appends to a `log` kept in the folder the
/// number of calls made before it, a rebuild that starts with an empty log
/// ends with the log `0, 1, ..., n - 1`.
pub proof fn lemma_lift_calls_in_index_order<T, F: FoldItem<T>>(
    f0: F,
    items: Seq<T>,
    f1: F,
    rebuilt: Seq<T>,
    log: spec_fn(F) -> Seq<int>,
)
    requires
        trace::runs(item_step::<T, F>(), f0, items, f1, rebuilt),
        log(f0) == Seq::<int>::empty(),
        forall|a: F, x: T, b: F, y: T| #[trigger] F::folds_item(a, x, b, y) ==> log(b) == log(a).push(log(a).len() as int),
    ensures
        log(f1) == Seq::new(items.len(), |i: int| i),
{
    let step = item_step::<T, F>();
    let note = |l: Seq<int>, x: T| l.len() as int;
    assert forall|a: F, x: T, b: F, y: T| #[trigger] step(a, x, b, y) implies log(b) == log(a).push(note(log(a), x)) by {
        assert(F::folds_item(a, x, b, y));
    }
    let states = trace::lemma_run_logs(step, f0, items, f1, rebuilt, log, note);
    assert forall|i: int| 0 <= i < items.len() implies #[trigger] log(f1)[i] == Seq::new(items.len(), |i: int| i)[i] by {
        assert(log(f1)[0 + i] == note(log(states[i]), items[i]));
        assert(log(states[i]) == log(f1).take(0 + i));
    }
    assert(log(f1) =~= Seq::new(items.len(), |i: int| i));
}

/// Any rebuild of a punctuated list keeps its punctuation: the same
/// separators after the same positions, hence the same number of separators
/// and the same trailing-punctuation status; only the values change.
pub proof fn lemma_lift_keeps_punctuation<T, P, F: FoldItem<T>>(
    list: Punctuated<T, P>,
    f0: F,
    rebuilt: Punctuated<T, P>,
    f1: F,
)
    requires
        trace::runs(item_step::<T, F>(), f0, list.items(), f1, rebuilt.items()),
        rebuilt.shape() == list.shape(),
    ensures
        rebuilt@.len() == list@.len(),
        forall|i: int| 0 <= i < list@.len() ==> (#[trigger] rebuilt@[i]).1 == list@[i].1,
        rebuilt.punct_count() == list.punct_count(),
        rebuilt.has_trailing() == list.has_trailing(),
{
    assert forall|i: int| 0 <= i < list@.len() implies (#[trigger] rebuilt@[i]).1 == list@[i].1 by {
        assert(rebuilt.separators()[i] == list.separators()[i]);
    }
    if list@.len() > 0 {
        let k = list@.len() - 1;
        assert(rebuilt@[k].1 == list@[k].1);
    }
}

/// Rebuilding a punctuated list with an element folder that gives every
/// element back unchanged yields the list it was given: the same values, the
/// same separators and the same trailing-punctuation status.
pub proof fn lemma_lift_identity_round_trip<T, P, F: FoldItem<T>>(
    list: Punctuated<T, P>,
    f0: F,
    rebuilt: Punctuated<T, P>,
    f1: F,
)
    requires
        trace::runs(item_step::<T, F>(), f0, list.items(), f1, rebuilt.items()),
        rebuilt.shape() == list.shape(),
        forall|a: F, x: T, b: F, y: T| #[trigger] F::folds_item(a, x, b, y) ==> y == x,
    ensures
        rebuilt@ == list@,
{
    let step = item_step::<T, F>();
    let id = |x: T| x;
    assert forall|a: F, x: T, b: F, y: T| #[trigger] step(a, x, b, y) implies y == id(x) by {
        assert(F::folds_item(a, x, b, y));
    }
    trace::lemma_run_maps(step, f0, list.items(), f1, rebuilt.items(), id);
    assert forall|i: int| 0 <= i < list@.len() implies #[trigger] rebuilt@[i] == list@[i] by {
        assert(rebuilt.values()[i] == list.values()[i]);
        assert(rebuilt.separators()[i] == list.separators()[i]);
    }
    assert(rebuilt@ =~= list@);
}

} // verus!
