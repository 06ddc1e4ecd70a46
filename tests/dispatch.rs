use gen_helper::fold::{self, Fold};
use gen_helper::visit::{self, Visit};
use gen_helper::visit_mut::{self, VisitMut};
use proc_macro2::{Span, TokenStream};

/// Spans of the tokens `a b c d e f g h`: token `k` starts at column `2 * k`.
fn spans() -> Vec<Span> {
    let ts: TokenStream = "a b c d e f g h".parse().unwrap();
    ts.into_iter().map(|t| t.span()).collect()
}

fn col(s: &Span) -> usize {
    s.start().column
}

struct Recorder {
    seen: Vec<usize>,
}

impl<'ast> Visit<'ast> for Recorder {
    fn visit_span(&mut self, span: &'ast Span) {
        self.seen.push(col(span));
    }
}

/// Moves each span to the token after it, and records what it was lent.
struct Shifter {
    table: Vec<Span>,
    seen: Vec<usize>,
}

impl Shifter {
    fn next_of(&self, s: Span) -> Span {
        self.table[col(&s) / 2 + 1]
    }
}

impl VisitMut for Shifter {
    fn visit_span_mut(&mut self, span: &mut Span) {
        self.seen.push(col(span));
        *span = self.next_of(*span);
    }
}

impl Fold for Shifter {
    fn fold_span(&mut self, span: Span) -> Span {
        self.seen.push(col(&span));
        self.next_of(span)
    }
}

fn shifter() -> Shifter {
    Shifter { table: spans(), seen: Vec::new() }
}

#[test]
fn visit_pair_sees_first_then_second() {
    let s = spans();
    let cluster = [s[0], s[1]];
    let mut r = Recorder { seen: Vec::new() };
    visit::tokens_helper(&mut r, &cluster);
    assert_eq!(r.seen, vec![0, 2]);
    assert_eq!(col(&cluster[0]), 0);
    assert_eq!(col(&cluster[1]), 2);
}

#[test]
fn visit_bare_span_once() {
    let s = spans();
    let mut r = Recorder { seen: Vec::new() };
    visit::tokens_helper(&mut r, &s[3]);
    assert_eq!(r.seen, vec![6]);
}

#[test]
fn visit_each_arity_in_order() {
    let s = spans();
    let mut r = Recorder { seen: Vec::new() };
    visit::tokens_helper(&mut r, &[s[4]]);
    assert_eq!(r.seen, vec![8]);
    let mut r = Recorder { seen: Vec::new() };
    visit::tokens_helper(&mut r, &[s[2], s[0], s[1]]);
    assert_eq!(r.seen, vec![4, 0, 2]);
}

#[test]
fn visit_keeps_state_across_clusters() {
    let s = spans();
    let mut r = Recorder { seen: Vec::new() };
    visit::tokens_helper(&mut r, &[s[1], s[2]]);
    visit::tokens_helper(&mut r, &s[0]);
    assert_eq!(r.seen, vec![2, 4, 0]);
}

#[test]
fn visit_mut_changes_each_span_in_place() {
    let s = spans();
    let mut v = shifter();
    let mut bare = s[0];
    visit_mut::tokens_helper(&mut v, &mut bare);
    assert_eq!(col(&bare), 2);

    let mut one = [s[5]];
    visit_mut::tokens_helper(&mut v, &mut one);
    assert_eq!(col(&one[0]), 12);

    let mut two = [s[3], s[1]];
    visit_mut::tokens_helper(&mut v, &mut two);
    assert_eq!((col(&two[0]), col(&two[1])), (8, 4));

    let mut three = [s[0], s[2], s[4]];
    visit_mut::tokens_helper(&mut v, &mut three);
    assert_eq!((col(&three[0]), col(&three[1]), col(&three[2])), (2, 6, 10));

    assert_eq!(v.seen, vec![0, 10, 6, 2, 0, 4, 8]);
}

#[test]
fn visit_mut_finishes_one_span_before_the_next() {
    // Each span is moved onto the one after it; were the second lent before
    // the first changed, both would see the original values.
    struct Chain {
        table: Vec<Span>,
        last: Option<usize>,
        seen: Vec<(usize, Option<usize>)>,
    }
    impl VisitMut for Chain {
        fn visit_span_mut(&mut self, span: &mut Span) {
            self.seen.push((col(span), self.last));
            *span = self.table[col(span) / 2 + 1];
            self.last = Some(col(span));
        }
    }
    let s = spans();
    let mut v = Chain { table: s.clone(), last: None, seen: Vec::new() };
    let mut three = [s[0], s[0], s[0]];
    visit_mut::tokens_helper(&mut v, &mut three);
    assert_eq!(v.seen, vec![(0, None), (0, Some(2)), (0, Some(2))]);
    assert_eq!((col(&three[0]), col(&three[1]), col(&three[2])), (2, 2, 2));
}

#[test]
fn fold_rebuilds_each_arity() {
    let s = spans();
    let mut f = shifter();
    let bare = fold::tokens_helper(&mut f, &s[6]);
    assert_eq!(col(&bare), 14);

    let one = fold::tokens_helper(&mut f, &[s[0]]);
    assert_eq!(col(&one[0]), 2);

    let two_in = [s[1], s[0]];
    let two = fold::tokens_helper(&mut f, &two_in);
    assert_eq!((col(&two[0]), col(&two[1])), (4, 2));
    assert_eq!((col(&two_in[0]), col(&two_in[1])), (2, 0));

    let three = fold::tokens_helper(&mut f, &[s[2], s[3], s[4]]);
    assert_eq!((col(&three[0]), col(&three[1]), col(&three[2])), (6, 8, 10));

    assert_eq!(f.seen, vec![12, 0, 2, 0, 4, 6, 8]);
}
