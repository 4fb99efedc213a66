use markdown_it::common::ruler::{Ruler, RulerError};

fn order(ruler: &Ruler<u32>) -> Vec<u32> {
    ruler.iterate().into_iter().copied().collect()
}

#[test]
fn add_appends_and_refuses_a_taken_name() {
    let mut ruler: Ruler<u32> = Ruler::new();
    assert_eq!(ruler.len(), 0);
    assert_eq!(ruler.add("a", 1), Ok(()));
    assert_eq!(ruler.add("b", 2), Ok(()));
    assert_eq!(ruler.add("a", 3), Err(RulerError::DuplicateName));
    assert_eq!(order(&ruler), vec![1, 2]);
    assert_eq!(ruler.len(), 2);
    assert!(ruler.contains("a"));
    assert!(!ruler.contains("c"));
}

#[test]
fn before_and_after_insert_next_to_the_anchor() {
    let mut ruler: Ruler<u32> = Ruler::new();
    ruler.add("a", 1).unwrap();
    ruler.add("b", 2).unwrap();
    assert_eq!(ruler.before("b", "c", 3), Ok(()));
    assert_eq!(order(&ruler), vec![1, 3, 2]);
    assert_eq!(ruler.after("a", "d", 4), Ok(()));
    assert_eq!(order(&ruler), vec![1, 4, 3, 2]);
    assert_eq!(ruler.after("b", "e", 5), Ok(()));
    assert_eq!(order(&ruler), vec![1, 4, 3, 2, 5]);
    assert_eq!(ruler.before("a", "f", 6), Ok(()));
    assert_eq!(order(&ruler), vec![6, 1, 4, 3, 2, 5]);
    assert_eq!(ruler.position("f"), Some(0));
    assert_eq!(ruler.position("b"), Some(4));
    assert_eq!(ruler.position("zzz"), None);
}

#[test]
fn a_missing_anchor_and_a_taken_name_are_refused() {
    let mut ruler: Ruler<u32> = Ruler::new();
    ruler.add("a", 1).unwrap();
    ruler.add("b", 2).unwrap();
    assert_eq!(ruler.before("x", "c", 3), Err(RulerError::NotFound));
    assert_eq!(ruler.after("x", "c", 3), Err(RulerError::NotFound));
    assert_eq!(ruler.before("a", "b", 3), Err(RulerError::DuplicateName));
    assert_eq!(ruler.after("a", "a", 3), Err(RulerError::DuplicateName));
    assert_eq!(ruler.before("x", "a", 3), Err(RulerError::NotFound));
    assert_eq!(order(&ruler), vec![1, 2]);
}

#[test]
fn the_last_insertion_at_an_anchor_stands_next_to_it() {
    let mut ruler: Ruler<u32> = Ruler::new();
    ruler.add("anchor", 0).unwrap();
    ruler.after("anchor", "first", 1).unwrap();
    ruler.after("anchor", "second", 2).unwrap();
    ruler.before("anchor", "third", 3).unwrap();
    ruler.before("anchor", "fourth", 4).unwrap();
    assert_eq!(order(&ruler), vec![3, 4, 0, 2, 1]);
}

#[test]
fn every_constraint_holds_after_later_registrations() {
    let mut ruler: Ruler<u32> = Ruler::new();
    ruler.add("block", 10).unwrap();
    ruler.add("inline", 20).unwrap();
    ruler.before("inline", "x", 1).unwrap();
    ruler.after("block", "y", 2).unwrap();
    ruler.after("x", "z", 3).unwrap();
    ruler.before("block", "w", 4).unwrap();
    ruler.add("last", 5).unwrap();
    let at = |name: &str| ruler.position(name).unwrap();
    assert!(at("x") < at("inline"));
    assert!(at("block") < at("y"));
    assert!(at("x") < at("z"));
    assert!(at("w") < at("block"));
    assert_eq!(at("last"), ruler.len() - 1);
    assert_eq!(order(&ruler), vec![4, 10, 2, 1, 3, 20, 5]);
}

#[test]
fn disable_and_enable_keep_the_order() {
    let mut ruler: Ruler<u32> = Ruler::new();
    ruler.add("a", 1).unwrap();
    ruler.add("b", 2).unwrap();
    ruler.add("c", 3).unwrap();
    assert_eq!(ruler.is_enabled("b"), Some(true));
    assert_eq!(ruler.disable("b"), Ok(()));
    assert_eq!(ruler.is_enabled("b"), Some(false));
    assert_eq!(order(&ruler), vec![1, 3]);
    assert_eq!(ruler.len(), 3);
    assert_eq!(ruler.position("b"), Some(1));
    assert_eq!(ruler.enable("b"), Ok(()));
    assert_eq!(order(&ruler), vec![1, 2, 3]);
    assert_eq!(ruler.enable("b"), Ok(()));
    assert_eq!(order(&ruler), vec![1, 2, 3]);
    assert_eq!(ruler.is_enabled("nope"), None);
}

#[test]
fn a_disabled_rule_still_anchors_and_still_holds_its_name() {
    let mut ruler: Ruler<u32> = Ruler::new();
    ruler.add("a", 1).unwrap();
    ruler.disable("a").unwrap();
    assert_eq!(ruler.add("a", 9), Err(RulerError::DuplicateName));
    ruler.after("a", "b", 2).unwrap();
    assert_eq!(order(&ruler), vec![2]);
    ruler.enable("a").unwrap();
    assert_eq!(order(&ruler), vec![1, 2]);
}

#[test]
fn remove_enable_disable_fail_on_a_missing_name() {
    let mut ruler: Ruler<u32> = Ruler::new();
    ruler.add("a", 1).unwrap();
    assert_eq!(ruler.remove("b"), Err(RulerError::NotFound));
    assert_eq!(ruler.enable("b"), Err(RulerError::NotFound));
    assert_eq!(ruler.disable("b"), Err(RulerError::NotFound));
    assert_eq!(ruler.remove("a"), Ok(()));
    assert_eq!(ruler.remove("a"), Err(RulerError::NotFound));
    assert_eq!(order(&ruler), Vec::<u32>::new());
    assert_eq!(ruler.add("a", 7), Ok(()));
    assert_eq!(order(&ruler), vec![7]);
}

#[test]
fn iterate_can_be_asked_again() {
    let mut ruler: Ruler<u32> = Ruler::new();
    ruler.add("a", 1).unwrap();
    ruler.add("b", 2).unwrap();
    assert_eq!(order(&ruler), order(&ruler));
    assert_eq!(Ruler::<u32>::new().iterate().len(), 0);
}
