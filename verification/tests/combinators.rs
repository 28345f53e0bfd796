use parlor::conditions::{make_condition, signal};
use parlor::event::{
    enabled_indices, flatten_alternatives, losers, plan_choice, shuffled_positions, try_order,
    wrap_base, wrap_choice, ChoiceItem, ChoicePlan,
};
use parlor::timers::make_timer_event;

#[test]
fn choose_flattens_nested_choices() {
    let items = vec![
        ChoiceItem::Single(1),
        ChoiceItem::Many(vec![2, 3]),
        ChoiceItem::Many(vec![]),
        ChoiceItem::Single(4),
    ];
    assert_eq!(flatten_alternatives(items), vec![1, 2, 3, 4]);
    let empty: Vec<ChoiceItem<u8>> = vec![];
    assert!(flatten_alternatives(empty).is_empty());
}

#[test]
fn wraps_compose_innermost_first() {
    let w = wrap_base(Vec::new(), "f");
    let w = wrap_base(w, "g");
    assert_eq!(w, vec!["f", "g"]);
}

#[test]
fn wrap_distributes_over_choice() {
    let alts = vec![vec!["a"], vec![], vec!["b", "c"]];
    let r = wrap_choice(alts, &"t");
    assert_eq!(r, vec![vec!["a", "t"], vec!["t"], vec!["b", "c", "t"]]);
}

#[test]
fn choice_plans() {
    assert_eq!(plan_choice(0), ChoicePlan::NoAlternatives);
    assert_eq!(plan_choice(1), ChoicePlan::Single);
    assert_eq!(plan_choice(2), ChoicePlan::Race);
}

#[test]
fn ready_alternatives_in_random_order() {
    let polls = vec![false, true, true, false, true];
    assert_eq!(enabled_indices(&polls), vec![1, 2, 4]);
    for _ in 0..20 {
        let mut o = try_order(&polls);
        o.sort();
        assert_eq!(o, vec![1, 2, 4]);
    }
    assert!(try_order(&vec![false, false]).is_empty());
}

#[test]
fn shuffled_positions_is_permutation() {
    for _ in 0..20 {
        let mut p = shuffled_positions(6);
        p.sort();
        assert_eq!(p, vec![0, 1, 2, 3, 4, 5]);
    }
    assert!(shuffled_positions(0).is_empty());
}

#[test]
fn losers_are_all_but_winner() {
    assert_eq!(losers(4, 2), vec![0, 1, 3]);
    assert_eq!(losers(1, 0), Vec::<usize>::new());
}

#[test]
fn condition_signal_is_single_shot() {
    let mut c = make_condition();
    assert!(!c.poll_wait());
    assert_eq!(c.do_wait(), None);
    assert!(signal(&mut c));
    assert!(!signal(&mut c));
    assert!(c.poll_wait());
    assert_eq!(c.do_wait(), Some(true));
}

#[test]
fn zero_timer_fires_at_once() {
    let t = make_timer_event(0);
    assert!(t.poll());
    assert_eq!(t.attempt(), Some(false));
    let t = make_timer_event(1_000_000);
    assert!(!t.poll());
    assert_eq!(t.attempt(), None);
}

#[test]
fn shuffle_does_reorder() {
    // with six positions, fifty identity orders in a row would be a broken shuffle
    let identity: Vec<usize> = (0..6).collect();
    let moved = (0..50).any(|_| shuffled_positions(6) != identity);
    assert!(moved);
}
