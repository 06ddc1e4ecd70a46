use gen_helper::fold::{FoldHelper, FoldItem, TryFoldItem};
use gen_helper::punctuated::{Pair, Punctuated};

struct Upper;

impl FoldItem<String> for Upper {
    fn fold_item(&mut self, item: String) -> String {
        item.to_uppercase()
    }
}

struct Same;

impl FoldItem<String> for Same {
    fn fold_item(&mut self, item: String) -> String {
        item
    }
}

/// Appends the number of the call to a log, and doubles the element.
struct Logger {
    log: Vec<usize>,
}

impl FoldItem<u32> for Logger {
    fn fold_item(&mut self, item: u32) -> u32 {
        let n = self.log.len();
        self.log.push(n);
        item * 2
    }
}

/// Fails on the element `bad`; records every element it is handed.
struct FailOn {
    bad: u32,
    seen: Vec<u32>,
}

impl TryFoldItem<u32> for FailOn {
    type Error = String;

    fn try_fold_item(&mut self, item: u32) -> Result<u32, String> {
        self.seen.push(item);
        if item == self.bad {
            Err(format!("cannot fold {}", item))
        } else {
            Ok(item + 100)
        }
    }
}

fn list(values: &[&str], trailing: bool) -> Punctuated<String, char> {
    let mut p = Punctuated::new();
    for (i, v) in values.iter().enumerate() {
        p.push_value(v.to_string());
        if i + 1 < values.len() || trailing {
            p.push_punct(',');
        }
    }
    p
}

fn tuples(p: Punctuated<String, char>) -> Vec<(String, Option<char>)> {
    p.into_pairs().into_iter().map(|q| q.into_tuple()).collect()
}

fn s(x: &str) -> String {
    x.to_string()
}

#[test]
fn uppercase_three_without_trailing() {
    let p = list(&["a", "b", "c"], false);
    let r = p.lift(&mut Upper);
    assert_eq!(r.len(), 3);
    assert!(!r.trailing_punct());
    assert_eq!(
        tuples(r),
        vec![(s("A"), Some(',')), (s("B"), Some(',')), (s("C"), None)]
    );
}

#[test]
fn identity_keeps_single_trailing() {
    let p = list(&["a"], true);
    assert!(p.trailing_punct());
    let r = p.lift(&mut Same);
    assert_eq!(r.len(), 1);
    assert!(r.trailing_punct());
    assert_eq!(tuples(r), vec![(s("a"), Some(','))]);
}

#[test]
fn identity_round_trip_keeps_everything() {
    for trailing in [false, true] {
        let p = list(&["x", "y", "z", "w"], trailing);
        let r = p.lift(&mut Same);
        assert_eq!(r.trailing_punct(), trailing);
        assert_eq!(tuples(r), tuples(list(&["x", "y", "z", "w"], trailing)));
    }
}

#[test]
fn remap_keeps_separator_count_and_trailing() {
    let p = list(&["p", "q"], true);
    let r = p.lift(&mut Upper);
    assert!(r.trailing_punct());
    assert_eq!(
        tuples(r),
        vec![(s("P"), Some(',')), (s("Q"), Some(','))]
    );
}

#[test]
fn remap_empty_lists() {
    let p: Punctuated<String, char> = Punctuated::new();
    let r = p.lift(&mut Upper);
    assert!(r.is_empty());
    assert!(!r.trailing_punct());
    let v: Vec<String> = Vec::new();
    assert!(v.lift(&mut Upper).is_empty());
}

#[test]
fn plain_remap_calls_in_index_order() {
    let mut f = Logger { log: Vec::new() };
    let r = vec![5u32, 1, 7, 3].lift(&mut f);
    assert_eq!(f.log, vec![0, 1, 2, 3]);
    assert_eq!(r, vec![10, 2, 14, 6]);
}

#[test]
fn punctuated_remap_calls_in_index_order() {
    struct Count {
        log: Vec<usize>,
    }
    impl FoldItem<String> for Count {
        fn fold_item(&mut self, item: String) -> String {
            let n = self.log.len();
            self.log.push(n);
            format!("{}{}", item, n)
        }
    }
    let mut f = Count { log: Vec::new() };
    let r = list(&["a", "b", "c"], true).lift(&mut f);
    assert_eq!(f.log, vec![0, 1, 2]);
    assert_eq!(
        tuples(r),
        vec![(s("a0"), Some(',')), (s("b1"), Some(',')), (s("c2"), Some(','))]
    );
}

#[test]
fn failure_on_second_of_three_propagates() {
    let mut f = FailOn { bad: 2, seen: Vec::new() };
    let r = vec![1u32, 2, 3].try_lift(&mut f);
    assert_eq!(r, Err(s("cannot fold 2")));
    assert_eq!(f.seen, vec![1, 2]);
}

#[test]
fn fallible_remap_succeeds_without_failure() {
    let mut f = FailOn { bad: 0, seen: Vec::new() };
    let r = vec![1u32, 2, 3].try_lift(&mut f);
    assert_eq!(r, Ok(vec![101, 102, 103]));
    assert_eq!(f.seen, vec![1, 2, 3]);
}

#[test]
fn fallible_punctuated_remap() {
    let mut p: Punctuated<u32, char> = Punctuated::new();
    p.push_value(1);
    p.push_punct(';');
    p.push_value(2);
    let mut f = FailOn { bad: 9, seen: Vec::new() };
    let r = p.try_lift(&mut f).ok().unwrap();
    let pairs: Vec<(u32, Option<char>)> = r.into_pairs().into_iter().map(|q| q.into_tuple()).collect();
    assert_eq!(pairs, vec![(101, Some(';')), (102, None)]);

    let mut p: Punctuated<u32, char> = Punctuated::new();
    p.push_value(9);
    p.push_punct(';');
    p.push_value(4);
    let mut f = FailOn { bad: 9, seen: Vec::new() };
    assert!(matches!(p.try_lift(&mut f), Err(e) if e == "cannot fold 9"));
    assert_eq!(f.seen, vec![9]);
}

#[test]
fn punctuated_building_and_pairs() {
    let mut p: Punctuated<String, char> = Punctuated::new();
    assert!(p.is_empty());
    assert!(p.empty_or_trailing());
    p.push_value(s("a"));
    assert_eq!(p.len(), 1);
    assert!(!p.trailing_punct());
    assert!(!p.empty_or_trailing());
    p.push_punct(',');
    assert!(p.trailing_punct());
    assert!(p.empty_or_trailing());
    p.push_value(s("b"));
    assert_eq!(p.len(), 2);
    let pairs = p.into_pairs();
    assert!(matches!(&pairs[0], Pair::Punctuated(v, ',') if v == "a"));
    assert!(matches!(&pairs[1], Pair::End(v) if v == "b"));
    let back = Punctuated::from_pairs(pairs);
    assert_eq!(tuples(back), vec![(s("a"), Some(',')), (s("b"), None)]);
}

#[test]
fn pair_new_and_into_tuple() {
    let q: Pair<u8, char> = Pair::new(3, Some('+'));
    assert!(matches!(q, Pair::Punctuated(3, '+')));
    assert_eq!(q.into_tuple(), (3, Some('+')));
    let e: Pair<u8, char> = Pair::new(4, None);
    assert!(matches!(e, Pair::End(4)));
    assert_eq!(e.into_tuple(), (4, None));
}
