//! A list of values separated by punctuation, such as `a, b, c` or `a, b,`.
//!
//! Only the last value may stand without a following punctuation; whether it
//! does is the list's trailing-punctuation status.
use vstd::prelude::*;

verus! {

/// One value of a punctuated list, with the punctuation that follows it, if any.
pub enum Pair<T, P> {
    /// A value followed by punctuation.
    Punctuated(T, P),
    /// A value with no punctuation after it; only the last value of a list.
    End(T),
}

impl<T, P> Pair<T, P> {
    /// The value and the punctuation after it.
    pub open spec fn tuple(self) -> (T, Option<P>) {
        match self {
            Pair::Punctuated(t, p) => (t, Some(p)),
            Pair::End(t) => (t, None),
        }
    }

    /// Makes a pair from a value and the punctuation after it, if any.
    pub fn new(t: T, p: Option<P>) -> (pair: Self)
        ensures
            pair.tuple() == (t, p),
    {
        match p {
            Some(p) => Pair::Punctuated(t, p),
            None => Pair::End(t),
        }
    }

    /// Splits the pair into the value and the punctuation after it, if any.
    pub fn into_tuple(self) -> (r: (T, Option<P>))
        ensures
            r == self.tuple(),
    {
        match self {
            Pair::Punctuated(t, p) => (t, Some(p)),
            Pair::End(t) => (t, None),
        }
    }
}

/// A sequence of pairs in which only the last may lack punctuation.
pub open spec fn well_formed_pairs<T, P>(pairs: Seq<(T, Option<P>)>) -> bool {
    forall|i: int| 0 <= i < pairs.len() - 1 ==> (#[trigger] pairs[i]).1 is Some
}

/// A list of `T` values separated by `P` punctuation.
pub struct Punctuated<T, P> {
    inner: Vec<(T, P)>,
    last: Option<T>,
}

impl<T, P> View for Punctuated<T, P> {
    /// Each value with the punctuation after it, first to last.
    type V = Seq<(T, Option<P>)>;

    closed spec fn view(&self) -> Seq<(T, Option<P>)> {
        self.inner@.map_values(|e: (T, P)| (e.0, Some(e.1))) + match self.last {
            Some(t) => seq![(t, None)],
            None => Seq::empty(),
        }
    }
}

impl<T, P> Punctuated<T, P> {
    /// The number of values fits in `usize`.
    #[verifier::type_invariant]
    spec fn fits(&self) -> bool {
        self.inner@.len() + if self.last is Some { 1int } else { 0int } <= usize::MAX
    }

    /// The values, first to last.
    pub open spec fn values(&self) -> Seq<T> {
        self@.map_values(|e: (T, Option<P>)| e.0)
    }

    /// The punctuation after each value, or `None` where there is none.
    pub open spec fn separators(&self) -> Seq<Option<P>> {
        self@.map_values(|e: (T, Option<P>)| e.1)
    }

    /// The list is not empty and ends with punctuation.
    pub open spec fn has_trailing(&self) -> bool {
        self@.len() > 0 && self@.last().1 is Some
    }

    /// The number of punctuation tokens: one after each value but the last,
    /// and one after the last where the list has trailing punctuation.
    pub open spec fn punct_count(&self) -> nat {
        if self@.len() == 0 {
            0
        } else if self.has_trailing() {
            self@.len()
        } else {
            (self@.len() - 1) as nat
        }
    }

    /// Only the last value may lack punctuation: every list is so.
    pub proof fn lemma_well_formed(&self)
        ensures
            well_formed_pairs(self@),
    {
        let head = self.inner@.map_values(|e: (T, P)| (e.0, Some(e.1)));
        assert forall|i: int| 0 <= i < self@.len() - 1 implies (#[trigger] self@[i]).1 is Some by {
            assert(i < head.len());
            assert(self@[i] == head[i]);
        }
    }

    /// An empty list.
    pub fn new() -> (r: Self)
        ensures
            r@ == Seq::<(T, Option<P>)>::empty(),
    {
        let r = Punctuated { inner: Vec::new(), last: None };
        assert(r@ =~= Seq::<(T, Option<P>)>::empty());
        r
    }

    /// The number of values.
    pub fn len(&self) -> (n: usize)
        ensures
            n == self@.len(),
    {
        proof {
            use_type_invariant(self);
        }
        match self.last {
            Some(_) => self.inner.len() + 1,
            None => self.inner.len(),
        }
    }

    /// There is no value in the list.
    pub fn is_empty(&self) -> (r: bool)
        ensures
            r == (self@.len() == 0),
    {
        self.inner.len() == 0 && self.last.is_none()
    }

    /// The list is not empty and ends with punctuation.
    pub fn trailing_punct(&self) -> (r: bool)
        ensures
            r == self.has_trailing(),
    {
        proof {
            if self.last is None && self.inner@.len() > 0 {
                let k = self.inner@.len() - 1;
                assert(self@[k] == (self.inner@[k].0, Some(self.inner@[k].1)));
            }
        }
        self.last.is_none() && self.inner.len() > 0
    }

    /// The list is empty or ends with punctuation, so that a value can follow.
    pub fn empty_or_trailing(&self) -> (r: bool)
        ensures
            r == (self@.len() == 0 || self.has_trailing()),
    {
        self.is_empty() || self.trailing_punct()
    }

    /// Appends a value after the trailing punctuation.
    pub fn push_value(&mut self, value: T)
        requires
            old(self)@.len() == 0 || old(self).has_trailing(),
            old(self)@.len() < usize::MAX,
        ensures
            final(self)@ == old(self)@.push((value, None)),
    {
        proof {
            use_type_invariant(&*self);
            if old(self).last is Some {
                let k = old(self)@.len() - 1;
                assert(old(self)@[k].1 is None);
            }
        }
        self.last = Some(value);
        assert(self@ =~= old(self)@.push((value, None)));
    }

    /// Appends punctuation after the last value.
    pub fn push_punct(&mut self, punct: P)
        requires
            old(self)@.len() > 0,
            !old(self).has_trailing(),
        ensures
            final(self)@ == old(self)@.drop_last().push((old(self)@.last().0, Some(punct))),
    {
        proof {
            use_type_invariant(&*self);
            if old(self).last is None {
                let k = old(self)@.len() - 1;
                assert(old(self)@[k] == (old(self).inner@[k].0, Some(old(self).inner@[k].1)));
            }
        }
        let mut taken = Punctuated::new();
        std::mem::swap(self, &mut taken);
        proof {
            use_type_invariant(&taken);
        }
        let Punctuated { mut inner, last } = taken;
        match last {
            Some(t) => {
                inner.push((t, punct));
            },
            None => {},
        }
        *self = Punctuated { inner, last: None };
        assert(self@ =~= old(self)@.drop_last().push((old(self)@.last().0, Some(punct))));
    }

    /// Puts a list together from its pairs, first to last; only the last pair
    /// may lack punctuation.
    pub fn from_pairs(pairs: Vec<Pair<T, P>>) -> (r: Self)
        requires
            well_formed_pairs(pairs@.map_values(|q: Pair<T, P>| q.tuple())),
        ensures
            r@ == pairs@.map_values(|q: Pair<T, P>| q.tuple()),
    {
        let ghost tuples = pairs@.map_values(|q: Pair<T, P>| q.tuple());
        let n = pairs.len();
        let mut r = Punctuated::new();
        for q in it: pairs.into_iter()
            invariant
                it.seq() == pairs@,
                pairs@.len() == n,
                tuples == pairs@.map_values(|q: Pair<T, P>| q.tuple()),
                well_formed_pairs(tuples),
                r@ == tuples.take(it.index() as int),
        {
            let ghost k = it.index() as int;
            assert(tuples[k] == q.tuple());
            proof {
                if k > 0 {
                    assert(r@[k - 1] == tuples[k - 1]);
                }
            }
            match q {
                Pair::Punctuated(t, p) => {
                    r.push_value(t);
                    r.push_punct(p);
                },
                Pair::End(t) => {
                    r.push_value(t);
                },
            }
            assert(r@ =~= tuples.take(k + 1));
        }
        assert(tuples.take(pairs@.len() as int) =~= tuples);
        r
    }

    /// Takes the list apart into its pairs, first to last.
    pub fn into_pairs(self) -> (pairs: Vec<Pair<T, P>>)
        ensures
            pairs@.len() == self@.len(),
            forall|i: int| 0 <= i < pairs@.len() ==> (#[trigger] pairs@[i]).tuple() == self@[i],
    {
        let ghost whole = self@;
        let Punctuated { inner, last } = self;
        let ghost head = inner@;
        let mut pairs: Vec<Pair<T, P>> = Vec::new();
        for e in it: inner.into_iter()
            invariant
                it.seq() == head,
                pairs@.len() == it.index(),
                whole == head.map_values(|e: (T, P)| (e.0, Some(e.1))) + match last {
                    Some(t) => seq![(t, None)],
                    None => Seq::empty(),
                },
                forall|i: int| 0 <= i < pairs@.len() ==> (#[trigger] pairs@[i]).tuple() == whole[i],
        {
            let (t, p) = e;
            pairs.push(Pair::Punctuated(t, p));
        }
        match last {
            Some(t) => {
                pairs.push(Pair::End(t));
            },
            None => {},
        }
        pairs
    }
}

} // verus!
