//! Runs of a stateful callback over a sequence of inputs.
//!
//! A callback that is handed the inputs `xs[0]`, `xs[1]`, ... one after the
//! other moves through states `v0 = s[0]`, `s[1]`, ..., `s[n] = v1` and gives
//! back the outputs `ys[0]`, `ys[1]`, ....  `step(s[i], xs[i], s[i + 1], ys[i])`
//! says what one call may do; a run chains the calls in index order.
use vstd::prelude::*;

verus! {

/// `states` witnesses a run of `step` from `v0` to `v1` that consumes `xs` and
/// produces `ys`, one call per input, in ascending index order.
pub open spec fn is_run<V, A, B>(
    step: spec_fn(V, A, V, B) -> bool,
    states: Seq<V>,
    v0: V,
    xs: Seq<A>,
    v1: V,
    ys: Seq<B>,
) -> bool {
    &&& states.len() == xs.len() + 1
    &&& ys.len() == xs.len()
    &&& states[0] == v0
    &&& states[xs.len() as int] == v1
    &&& forall|i: int|
        0 <= i < xs.len() ==> #[trigger] step(states[i], xs[i], states[i + 1], ys[i])
}

/// There is a run of `step` from `v0` to `v1` consuming `xs` and producing `ys`.
pub open spec fn runs<V, A, B>(
    step: spec_fn(V, A, V, B) -> bool,
    v0: V,
    xs: Seq<A>,
    v1: V,
    ys: Seq<B>,
) -> bool {
    exists|states: Seq<V>| is_run(step, states, v0, xs, v1, ys)
}

/// The run that has made no call yet.
pub proof fn lemma_run_empty<V, A, B>(step: spec_fn(V, A, V, B) -> bool, v0: V)
    ensures
        is_run(step, seq![v0], v0, Seq::<A>::empty(), v0, Seq::<B>::empty()),
{
}

/// One more call appended to a run is again a run.
pub proof fn lemma_run_push<V, A, B>(
    step: spec_fn(V, A, V, B) -> bool,
    states: Seq<V>,
    v0: V,
    xs: Seq<A>,
    v1: V,
    ys: Seq<B>,
    x: A,
    v2: V,
    y: B,
)
    requires
        is_run(step, states, v0, xs, v1, ys),
        step(v1, x, v2, y),
    ensures
        is_run(step, states.push(v2), v0, xs.push(x), v2, ys.push(y)),
{
    let states2 = states.push(v2);
    let xs2 = xs.push(x);
    let ys2 = ys.push(y);
    assert forall|i: int| 0 <= i < xs2.len() implies #[trigger] step(
        states2[i],
        xs2[i],
        states2[i + 1],
        ys2[i],
    ) by {
        if i < xs.len() {
            assert(step(states[i], xs[i], states[i + 1], ys[i]));
        }
    }
}

/// Where every single call turns its input `x` into `g(x)`, a whole run turns
/// each input into `g` of it, position by position.
pub proof fn lemma_run_maps<V, A, B>(
    step: spec_fn(V, A, V, B) -> bool,
    v0: V,
    xs: Seq<A>,
    v1: V,
    ys: Seq<B>,
    g: spec_fn(A) -> B,
)
    requires
        runs(step, v0, xs, v1, ys),
        forall|a: V, x: A, b: V, y: B| #[trigger] step(a, x, b, y) ==> y == g(x),
    ensures
        ys == xs.map_values(g),
{
    let states = choose|states: Seq<V>| is_run(step, states, v0, xs, v1, ys);
    assert forall|i: int| 0 <= i < xs.len() implies ys[i] == xs.map_values(g)[i] by {
        assert(step(states[i], xs[i], states[i + 1], ys[i]));
    }
    assert(ys =~= xs.map_values(g));
}

/// Along a run whose calls each append one note to `log`, the log of every
/// state up to the `k`-th is a prefix of the log of the `k`-th state.
proof fn lemma_run_log_prefix<V, A, B, N>(
    step: spec_fn(V, A, V, B) -> bool,
    states: Seq<V>,
    v0: V,
    xs: Seq<A>,
    v1: V,
    ys: Seq<B>,
    log: spec_fn(V) -> Seq<N>,
    note: spec_fn(Seq<N>, A) -> N,
    k: int,
)
    requires
        is_run(step, states, v0, xs, v1, ys),
        forall|a: V, x: A, b: V, y: B| #[trigger] step(a, x, b, y) ==> log(b) == log(a).push(note(log(a), x)),
        0 <= k <= xs.len(),
    ensures
        log(states[k]).len() == log(v0).len() + k,
        forall|j: int| 0 <= j <= k ==> #[trigger] log(states[j]) == log(states[k]).take(log(v0).len() + j),
    decreases k,
{
    let base = log(v0).len();
    if k == 0 {
        assert(log(states[0]).take(base as int) =~= log(states[0]));
    } else {
        lemma_run_log_prefix(step, states, v0, xs, v1, ys, log, note, k - 1);
        let i = k - 1;
        assert(step(states[i], xs[i], states[i + 1], ys[i]));
        let cur = log(states[k - 1]);
        let nxt = log(states[k]);
        assert forall|j: int| 0 <= j <= k implies #[trigger] log(states[j]) == nxt.take(base + j) by {
            if j < k {
                assert(nxt.take(base + j) =~= cur.take(base + j));
            } else {
                assert(nxt.take(base + j) =~= nxt);
            }
        }
    }
}

/// Where every single call appends what `note` makes of the state and the input
/// to a `log` kept in the state, a whole run appends the notes of all the calls,
/// in the order in which the calls were made.
pub proof fn lemma_run_logs<V, A, B, N>(
    step: spec_fn(V, A, V, B) -> bool,
    v0: V,
    xs: Seq<A>,
    v1: V,
    ys: Seq<B>,
    log: spec_fn(V) -> Seq<N>,
    note: spec_fn(Seq<N>, A) -> N,
) -> (states: Seq<V>)
    requires
        runs(step, v0, xs, v1, ys),
        forall|a: V, x: A, b: V, y: B| #[trigger] step(a, x, b, y) ==> log(b) == log(a).push(note(log(a), x)),
    ensures
        is_run(step, states, v0, xs, v1, ys),
        log(v1).len() == log(v0).len() + xs.len(),
        log(v1).take(log(v0).len() as int) == log(v0),
        forall|i: int|
            0 <= i < xs.len() ==> #[trigger] log(v1)[log(v0).len() + i] == note(log(states[i]), xs[i]),
        forall|i: int| 0 <= i <= xs.len() ==> #[trigger] log(states[i]) == log(v1).take(log(v0).len() + i),
{
    let states = choose|states: Seq<V>| is_run(step, states, v0, xs, v1, ys);
    let base = log(v0).len();
    lemma_run_log_prefix(step, states, v0, xs, v1, ys, log, note, xs.len() as int);
    assert forall|i: int| 0 <= i < xs.len() implies #[trigger] log(v1)[base + i] == note(log(states[i]), xs[i]) by {
        assert(step(states[i], xs[i], states[i + 1], ys[i]));
        assert(log(states[i + 1]) == log(v1).take(base + i + 1));
    }
    assert(log(v1).take(base as int) == log(states[0]));
    states
}

} // verus!
