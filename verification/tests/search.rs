use four_fours::search::MAX_SEARCH_DEPTH;
use four_fours::{explore, Action, Expression, FloatOp, Registry, Search};

fn fpu(op: FloatOp, x: u64, y: u64) -> u64 {
    let a = f64::from_bits(x);
    let b = f64::from_bits(y);
    let r = match op {
        FloatOp::Add => a + b,
        FloatOp::Sub => a - b,
        FloatOp::Mul => a * b,
        FloatOp::Div => a / b,
        FloatOp::Rem => a % b,
        FloatOp::Pow => a.powf(b),
        FloatOp::Sqrt => a.sqrt(),
        FloatOp::Floor => a.floor(),
        FloatOp::Ceil => a.ceil(),
        FloatOp::Round => a.round(),
    };
    r.to_bits()
}

use Action::{
    Abs, Add, Ceiling, Div, Factorial, Floor, FourthRoot, Modulo, Mul, Negate, Power, Push4,
    SquareRoot, Sub,
};

fn path_of(actions: &[Action]) -> Search {
    let mut s = Search::new();
    for a in actions {
        assert!(s.advance(*a, &fpu), "{:?} was not taken", a);
    }
    s
}

fn text_of(actions: &[Action]) -> String {
    path_of(actions).make_expression().render()
}

fn value_of(s: &Search) -> f64 {
    f64::from_bits(s.last_result().unwrap())
}

fn leaf() -> Expression {
    Expression { action: Push4, args: Vec::new() }
}

#[test]
fn an_empty_path_has_reached_the_initial_state() {
    let s = Search::new();
    assert_eq!(s.len(), 0);
    assert_eq!(s.last_action(), None);
    assert_eq!(s.last_result(), None);
    assert!(s.actions().is_empty());
    assert!(!s.is_done());
    assert_eq!(s.state().fours_used(), 0);
    assert_eq!(s.state().depth(), 0);
}

#[test]
fn advance_puts_the_value_on_the_stack() {
    let mut s = Search::new();
    assert!(s.advance(Push4, &fpu));
    assert!(s.advance(Push4, &fpu));
    assert_eq!(s.state().depth(), 2);
    assert_eq!(s.state().fours_used(), 2);
    assert!(s.advance(Mul, &fpu));
    assert_eq!(s.len(), 3);
    assert_eq!(s.state().depth(), 1);
    assert_eq!(f64::from_bits(s.state().operand(0)), 16.0);
    assert_eq!(value_of(&s), 16.0);
    assert_eq!(s.last_action(), Some(Mul));
    assert_eq!(s.actions(), vec![Push4, Push4, Mul]);
}

#[test]
fn a_rejected_action_leaves_the_path() {
    let mut s = path_of(&[Push4]);
    assert!(!s.advance(Add, &fpu));
    assert!(!s.advance(Floor, &fpu));
    assert!(!s.advance(Abs, &fpu));
    assert_eq!(s.actions(), vec![Push4]);
    assert_eq!(s.state().depth(), 1);
}

#[test]
fn a_pruned_action_is_not_taken() {
    let mut s = path_of(&[Push4, Negate]);
    assert_eq!(value_of(&s), -4.0);
    assert!(!s.advance(Abs, &fpu));
    assert_eq!(s.len(), 2);
    let mut s = path_of(&[Push4, Push4, Sub, Push4, Sub, Abs]);
    assert_eq!(value_of(&s), 4.0);
    assert!(!s.advance(Negate, &fpu));
    assert!(!s.advance(Abs, &fpu));
    let mut s = path_of(&[Push4, Push4, Div, Push4, Add, SquareRoot, Floor]);
    assert_eq!(value_of(&s), 2.0);
    assert!(!s.advance(Ceiling, &fpu));
    assert!(!s.advance(Floor, &fpu));
}

#[test]
fn a_value_that_is_not_finite_is_not_taken() {
    let mut s = path_of(&[Push4, Push4, Push4, Power, Power]);
    assert_eq!(value_of(&s), 4.0f64.powf(256.0));
    assert!(s.advance(Push4, &fpu));
    assert!(!s.advance(Power, &fpu));
    assert_eq!(s.len(), 6);
    assert!(s.advance(Negate, &fpu));
    assert!(!s.advance(Factorial, &fpu));
}

#[test]
fn division_by_zero_is_never_on_a_path() {
    let mut s = path_of(&[Push4, Push4, Push4, Sub]);
    assert_eq!(value_of(&s), 0.0);
    let before = s.actions();
    assert!(!s.advance(Div, &fpu));
    assert!(!s.advance(Modulo, &fpu));
    assert_eq!(s.actions(), before);
    assert_eq!(s.state().depth(), 2);
    assert_eq!(f64::from_bits(s.state().operand(0)), 4.0);
    assert_eq!(f64::from_bits(s.state().operand(1)), 0.0);
}

#[test]
fn retreat_takes_the_last_action_back() {
    let mut s = path_of(&[Push4, Push4]);
    assert!(s.advance(Add, &fpu));
    s.retreat();
    assert_eq!(s.actions(), vec![Push4, Push4]);
    assert_eq!(s.state().depth(), 2);
    s.retreat();
    s.retreat();
    assert_eq!(s.len(), 0);
    s.retreat();
    assert_eq!(s.len(), 0);
}

#[test]
fn a_clone_holds_the_same_path() {
    let s = path_of(&[Push4, Push4, Add, Push4, Mul]);
    let c = s.clone();
    assert_eq!(c.actions(), s.actions());
    assert_eq!(c.last_result(), s.last_result());
    assert!(c.state() == s.state());
}

#[test]
fn four_plus_four_plus_four_plus_four_is_sixteen() {
    let s = path_of(&[Push4, Push4, Add, Push4, Add, Push4, Add]);
    assert!(s.is_done());
    assert_eq!(s.len(), 7);
    assert_eq!(value_of(&s), 16.0);
    assert_eq!(s.make_expression().render(), "4+4+4+4");
}

#[test]
fn zero_from_additions_and_subtractions() {
    let s = path_of(&[Push4, Push4, Sub, Push4, Add, Push4, Sub]);
    assert!(s.is_done());
    assert_eq!(s.len(), 7);
    assert_eq!(s.actions().iter().filter(|a| **a == Push4).count(), 4);
    assert_eq!(value_of(&s), 0.0);
    assert_eq!(s.make_expression().render(), "((4-4)+4)-4");
    let mut found = Registry::new(101);
    assert!(found.offer(&s, &fpu));
    let slot = found.get(0).unwrap();
    assert_eq!(slot.search().len(), 7);
    assert_eq!(slot.rendered().as_str(), "((4-4)+4)-4");
}

#[test]
fn operands_are_written_left_to_right() {
    assert_eq!(text_of(&[Push4, Push4, Push4, Sub, Sub]), "4-(4-4)");
    assert_eq!(text_of(&[Push4, Push4, Sub, Push4, Sub]), "(4-4)-4");
    assert_eq!(text_of(&[Push4, Push4, Push4, Mul, Div]), "4/(4*4)");
    assert_eq!(text_of(&[Push4, Push4, Div, Push4, Power]), "(4/4)^4");
    assert_eq!(text_of(&[Push4, Push4, Push4, Add, Modulo]), "4mod(4+4)");
    let s = path_of(&[Push4, Push4, Push4, Mul, Div]);
    assert_eq!(value_of(&s), 0.25);
    let s = path_of(&[Push4, Push4, Push4, Add, Sub]);
    assert_eq!(value_of(&s), -4.0);
}

#[test]
fn repeated_commutative_actions_need_no_parentheses() {
    assert_eq!(text_of(&[Push4, Push4, Push4, Push4, Add, Add, Add]), "4+4+4+4");
    assert_eq!(text_of(&[Push4, Push4, Mul, Push4, Mul]), "4*4*4");
    assert_eq!(text_of(&[Push4, Push4, Mul, Push4, Add]), "(4*4)+4");
    assert_eq!(text_of(&[Push4, Push4, Add, Push4, Mul]), "(4+4)*4");
    assert_eq!(text_of(&[Push4, Push4, Push4, Sub, Add]), "4+(4-4)");
}

#[test]
fn unary_actions_are_written_with_their_glyphs() {
    assert_eq!(text_of(&[Push4]), "4");
    assert_eq!(text_of(&[Push4, Negate]), "-4");
    assert_eq!(text_of(&[Push4, Factorial]), "4!");
    assert_eq!(text_of(&[Push4, SquareRoot]), "√(4)");
    assert_eq!(text_of(&[Push4, SquareRoot, SquareRoot, Floor]), "⌊√(√(4))⌋");
    assert_eq!(text_of(&[Push4, SquareRoot, SquareRoot, Ceiling]), "⌈√(√(4))⌉");
    assert_eq!(text_of(&[Push4, Push4, FourthRoot]), "∜(4)");
    assert_eq!(text_of(&[Push4, Push4, Add, Factorial]), "(4+4)!");
    assert_eq!(text_of(&[Push4, Push4, Add, Negate]), "-(4+4)");
    assert_eq!(text_of(&[Push4, Factorial, Negate]), "-(4!)");
    assert_eq!(text_of(&[Push4, Negate, Push4, Add]), "(-4)+4");
    assert_eq!(text_of(&[Push4, Push4, Add, SquareRoot]), "√(4+4)");
    assert_eq!(text_of(&[Push4, Push4, Sub, Push4, Sub, Abs]), "|(4-4)-4|");
    assert_eq!(text_of(&[Push4, Push4, Push4, Add, FourthRoot]), "∜(4+4)");
    assert_eq!(text_of(&[Push4, Push4, Div, Push4, Add, SquareRoot, Floor]), "⌊√((4/4)+4)⌋");
}

#[test]
fn trees_hold_the_left_operand_first() {
    let e = path_of(&[Push4, Push4, Negate, Sub]).make_expression();
    assert_eq!(e.action, Sub);
    assert_eq!(e.args.len(), 2);
    assert_eq!(e.args[0].action, Push4);
    assert_eq!(e.args[0].args.len(), 0);
    assert_eq!(e.args[1].action, Negate);
    assert_eq!(e.args[1].args.len(), 1);
    assert_eq!(e.args[1].args[0].action, Push4);
    assert_eq!(e.render(), "4-(-4)");
}

fn count_nodes(e: &Expression) -> usize {
    1 + e.args.iter().map(count_nodes).sum::<usize>()
}

fn has_exact_children(e: &Expression) -> bool {
    e.args.len() == e.action.arity() && e.args.iter().all(has_exact_children)
}

#[test]
fn three_additions_make_three_nodes_of_two_children() {
    let s = path_of(&[Push4, Push4, Push4, Push4, Add, Add, Add]);
    let e = s.make_expression();
    assert_eq!(count_nodes(&e), 7);
    assert!(has_exact_children(&e));
    assert_eq!(e.action, Add);
    assert_eq!(e.args.len(), 2);
    assert_eq!(e.args[0].action, Push4);
    assert_eq!(e.args[0].args.len(), 0);
    assert_eq!(e.args[1].action, Add);
    assert_eq!(e.args[1].args.len(), 2);
    assert_eq!(e.args[1].args[0].action, Push4);
    assert_eq!(e.args[1].args[1].action, Add);
    assert_eq!(e.args[1].args[1].args.len(), 2);
    assert_eq!(e.args[1].args[1].args[0].action, Push4);
    assert_eq!(e.args[1].args[1].args[1].action, Push4);
    assert_eq!(e.render(), "4+4+4+4");
}

#[test]
fn the_top_of_the_stack_becomes_the_right_child() {
    let s = path_of(&[Push4, Push4, SquareRoot, Sub]);
    assert_eq!(value_of(&s), 2.0);
    let e = s.make_expression();
    assert_eq!(count_nodes(&e), 4);
    assert!(has_exact_children(&e));
    assert_eq!(e.action, Sub);
    assert_eq!(e.args.len(), 2);
    assert_eq!(e.args[0].action, Push4);
    assert_eq!(e.args[0].args.len(), 0);
    assert_eq!(e.args[1].action, SquareRoot);
    assert_eq!(e.args[1].args.len(), 1);
    assert_eq!(e.args[1].args[0].action, Push4);
    assert_eq!(e.args[1].args[0].args.len(), 0);
    assert_eq!(e.render(), "4-√(4)");
}

#[test]
fn a_tree_has_a_node_for_each_action() {
    for actions in [
        vec![Push4],
        vec![Push4, Negate],
        vec![Push4, Push4, FourthRoot],
        vec![Push4, Push4, Div, Push4, Add, SquareRoot, Push4, Power],
        vec![Push4, Push4, Push4, Push4, Div, Sub, Negate, Negate, Mul],
    ] {
        let s = path_of(&actions);
        let e = s.make_expression();
        assert_eq!(count_nodes(&e), actions.len());
        assert!(has_exact_children(&e));
        assert_eq!(s.actions(), actions);
    }
}

#[test]
fn fmt_appends_under_a_parent() {
    let sum = Expression { action: Add, args: vec![leaf(), leaf()] };
    let mut out = String::from("x=");
    sum.fmt(&mut out, true, None);
    assert_eq!(out, "x=4+4");
    let mut out = String::new();
    sum.fmt(&mut out, false, None);
    assert_eq!(out, "(4+4)");
    let mut out = String::new();
    sum.fmt(&mut out, false, Some(Add));
    assert_eq!(out, "4+4");
    let mut out = String::new();
    sum.fmt(&mut out, false, Some(Mul));
    assert_eq!(out, "(4+4)");
    let difference = Expression { action: Sub, args: vec![leaf(), leaf()] };
    let mut out = String::new();
    difference.fmt(&mut out, false, Some(Sub));
    assert_eq!(out, "(4-4)");
    let root = Expression { action: SquareRoot, args: vec![leaf()] };
    let mut out = String::new();
    root.fmt(&mut out, false, Some(Add));
    assert_eq!(out, "√(4)");
}

#[test]
fn building_twice_gives_the_same_tree() {
    let s = path_of(&[Push4, Push4, Div, Push4, Add, SquareRoot, Push4, Power]);
    let a = s.make_expression();
    let b = s.make_expression();
    let c = s.clone().make_expression();
    assert_eq!(format!("{:?}", a), format!("{:?}", b));
    assert_eq!(format!("{:?}", a), format!("{:?}", c));
    assert_eq!(a.render(), b.render());
    let again = path_of(&s.actions()).make_expression();
    assert_eq!(format!("{:?}", a), format!("{:?}", again));
}

#[test]
fn a_new_registry_is_empty() {
    let found = Registry::new(101);
    assert_eq!(found.len(), 101);
    for t in 0..101 {
        assert!(found.get(t).is_none());
    }
    assert!(found.get(101).is_none());
}

#[test]
fn sixteen_prefers_the_shortest_derivation() {
    let short = path_of(&[Push4, Push4, Add, Push4, Add, Push4, Add]);
    let long = path_of(&[Push4, Push4, Add, Push4, Add, Push4, Add, Negate, Negate]);
    assert_eq!(value_of(&long), 16.0);
    assert!(long.is_done());
    let mut found = Registry::new(101);
    assert!(found.offer(&short, &fpu));
    assert!(!found.offer(&long, &fpu));
    assert_eq!(found.get(16).unwrap().search().len(), 7);
    assert_eq!(found.get(16).unwrap().rendered().as_str(), "4+4+4+4");
    let mut found = Registry::new(101);
    assert!(found.offer(&long, &fpu));
    assert_eq!(found.get(16).unwrap().rendered().as_str(), "-(-(4+4+4+4))");
    assert!(found.offer(&short, &fpu));
    assert_eq!(found.get(16).unwrap().search().len(), 7);
    assert_eq!(found.get(16).unwrap().rendered().as_str(), "4+4+4+4");
    for t in 0..101 {
        assert_eq!(found.get(t).is_some(), t == 16);
    }
}

#[test]
fn of_equal_paths_the_shorter_text_wins() {
    let plain = path_of(&[Push4, Push4, Add, Push4, Add, Push4, Add]);
    let wide = path_of(&[Push4, Push4, Mul, Push4, Add, Push4, Sub]);
    assert_eq!(value_of(&wide), 16.0);
    assert_eq!(wide.len(), plain.len());
    assert_eq!(wide.make_expression().render(), "((4*4)+4)-4");
    let mut found = Registry::new(101);
    assert!(found.offer(&wide, &fpu));
    assert!(found.offer(&plain, &fpu));
    assert_eq!(found.get(16).unwrap().rendered().as_str(), "4+4+4+4");
    let mut found = Registry::new(101);
    assert!(found.offer(&plain, &fpu));
    assert!(!found.offer(&wide, &fpu));
    assert_eq!(found.get(16).unwrap().rendered().as_str(), "4+4+4+4");
    assert_eq!(found.get(16).unwrap().search().actions(), plain.actions());
}

#[test]
fn of_equals_the_first_one_stays() {
    let first = path_of(&[Push4, Push4, Add, Push4, Add, Push4, Add]);
    let second = path_of(&[Push4, Push4, Push4, Push4, Add, Add, Add]);
    assert_eq!(value_of(&second), 16.0);
    assert_eq!(second.make_expression().render(), "4+4+4+4");
    let mut found = Registry::new(101);
    assert!(found.offer(&first, &fpu));
    assert!(!found.offer(&second, &fpu));
    assert_eq!(found.get(16).unwrap().search().actions(), first.actions());
    let mut found = Registry::new(101);
    assert!(found.offer(&second, &fpu));
    assert!(!found.offer(&first, &fpu));
    assert_eq!(found.get(16).unwrap().search().actions(), second.actions());
}

#[test]
fn text_width_counts_characters() {
    let glyphs = path_of(&[Push4, SquareRoot, Push4, SquareRoot, Add, Push4, Add, Push4, Add]);
    assert_eq!(value_of(&glyphs), 12.0);
    assert_eq!(glyphs.make_expression().render(), "√(4)+√(4)+4+4");
    assert_eq!(glyphs.make_expression().render().chars().count(), 13);
    assert_eq!(glyphs.make_expression().render().len(), 17);
    let digits = path_of(&[Push4, Push4, Push4, Push4, Div, Sub, Negate, Negate, Mul]);
    assert_eq!(value_of(&digits), 12.0);
    assert_eq!(digits.len(), glyphs.len());
    assert_eq!(digits.make_expression().render(), "4*(-(-(4-(4/4))))");
    assert_eq!(digits.make_expression().render().len(), 17);
    let mut found = Registry::new(101);
    assert!(found.offer(&digits, &fpu));
    assert!(found.offer(&glyphs, &fpu));
    assert_eq!(found.get(12).unwrap().rendered().as_str(), "√(4)+√(4)+4+4");
    assert!(!found.offer(&digits, &fpu));
}

#[test]
fn an_incomplete_derivation_is_turned_away() {
    let mut found = Registry::new(101);
    assert!(!found.offer(&Search::new(), &fpu));
    assert!(!found.offer(&path_of(&[Push4]), &fpu));
    assert!(!found.offer(&path_of(&[Push4, Push4, Add, Push4, Add]), &fpu));
    assert!(!found.offer(&path_of(&[Push4, Push4, Push4, Push4, Add, Add]), &fpu));
    assert!(!found.offer(&path_of(&[Push4, Push4, Push4, Push4]), &fpu));
    for t in 0..101 {
        assert!(found.get(t).is_none());
    }
    assert!(found.offer(&path_of(&[Push4, Push4, Push4, Push4, Add, Add, Add]), &fpu));
}

#[test]
fn values_that_belong_to_no_slot_are_not_accepted() {
    let mut found = Registry::new(101);
    let negative = path_of(&[Push4, Push4, Sub, Push4, Sub, Push4, Sub]);
    assert_eq!(value_of(&negative), -8.0);
    assert!(!found.offer(&negative, &fpu));
    let large = path_of(&[Push4, Push4, Mul, Push4, Mul, Push4, Mul]);
    assert_eq!(value_of(&large), 256.0);
    assert!(!found.offer(&large, &fpu));
    let fraction = path_of(&[Push4, Push4, Add, Push4, Add, Push4, Div, SquareRoot]);
    assert_eq!(value_of(&fraction), 3.0f64.sqrt());
    assert!(!found.offer(&fraction, &fpu));
    for t in 0..101 {
        assert!(found.get(t).is_none());
    }
    assert_eq!(found.target_of(100.0f64.to_bits(), &fpu), Some(100));
    assert_eq!(found.target_of(101.0f64.to_bits(), &fpu), None);
    assert_eq!(found.target_of(0.0f64.to_bits(), &fpu), Some(0));
    assert_eq!(found.target_of((-0.0f64).to_bits(), &fpu), Some(0));
    assert_eq!(found.target_of((-1.0f64).to_bits(), &fpu), None);
    assert_eq!(found.target_of(15.99999999f64.to_bits(), &fpu), Some(16));
    assert_eq!(found.target_of(16.00000001f64.to_bits(), &fpu), Some(16));
    assert_eq!(found.target_of(16.000001f64.to_bits(), &fpu), None);
    assert_eq!(found.target_of(15.5f64.to_bits(), &fpu), None);
    assert_eq!(found.target_of((-0.00000001f64).to_bits(), &fpu), Some(0));
    assert_eq!(found.target_of(1e300f64.to_bits(), &fpu), None);
    let small = Registry::new(3);
    assert_eq!(small.target_of(2.0f64.to_bits(), &fpu), Some(2));
    assert_eq!(small.target_of(3.0f64.to_bits(), &fpu), None);
}

fn examine_slots(found: &Registry) -> usize {
    let mut filled = 0;
    for t in 0..found.len() {
        let slot = match found.get(t) {
            Some(slot) => slot,
            None => continue,
        };
        filled += 1;
        let actions = slot.search().actions();
        assert_eq!(actions.iter().filter(|a| **a == Push4).count(), 4, "slot {}", t);
        for pair in actions.windows(2) {
            assert!(!pair[1].pruned_after(pair[0]), "slot {}: {:?}", t, pair);
        }
        let again = path_of(&actions);
        assert!(again.is_done());
        assert_eq!(again.state().fours_used(), 4);
        assert_eq!(again.state().depth(), 1);
        let value = f64::from_bits(again.state().operand(0));
        assert!((value - t as f64).abs() < 0.0000001, "slot {}: {}", t, value);
        assert_eq!(again.last_result(), slot.search().last_result());
        assert_eq!(again.make_expression().render(), *slot.rendered());
        assert!(actions.len() <= MAX_SEARCH_DEPTH + 1);
    }
    filled
}

#[test]
fn exploring_from_a_long_path_fills_slots_and_restores_the_path() {
    let mut s = path_of(&[Push4, Push4, Add, Push4, Add, Push4]);
    let before = s.actions();
    let mut found = Registry::new(101);
    explore(&mut s, &mut found, &fpu);
    assert_eq!(s.actions(), before);
    assert_eq!(s.state().depth(), 2);
    assert_eq!(found.get(16).unwrap().rendered().as_str(), "4+4+4+4");
    assert_eq!(found.get(16).unwrap().search().len(), 7);
    assert_eq!(found.get(8).unwrap().rendered().as_str(), "(4+4+4)-4");
    assert_eq!(found.get(48).unwrap().rendered().as_str(), "(4+4+4)*4");
    assert_eq!(found.get(3).unwrap().rendered().as_str(), "(4+4+4)/4");
    assert_eq!(found.get(0).unwrap().rendered().as_str(), "(4+4+4)mod4");
    for t in 0..found.len() {
        if let Some(slot) = found.get(t) {
            assert_eq!(&slot.search().actions()[..6], &before[..]);
        }
    }
    assert!(examine_slots(&found) >= 5);
}

#[test]
fn exploring_keeps_what_is_better() {
    let mut found = Registry::new(101);
    assert!(found.offer(&path_of(&[Push4, Push4, Add, Push4, Add, Push4, Add]), &fpu));
    let mut s = path_of(&[Push4, Push4, Mul, Push4, Push4, Sub]);
    explore(&mut s, &mut found, &fpu);
    assert_eq!(s.len(), 6);
    assert_eq!(found.get(16).unwrap().rendered().as_str(), "4+4+4+4");
    examine_slots(&found);
}

#[test]
fn exploring_at_the_depth_bound_goes_no_deeper() {
    let mut s = path_of(&[
        Push4, Negate, Negate, Push4, Negate, Negate, Add, Push4, Add, Negate, Negate,
    ]);
    assert_eq!(s.len(), MAX_SEARCH_DEPTH);
    let mut found = Registry::new(101);
    explore(&mut s, &mut found, &fpu);
    assert_eq!(s.len(), MAX_SEARCH_DEPTH);
    for t in 0..found.len() {
        assert!(found.get(t).is_none());
    }
    let mut s = path_of(&[Push4, Push4, Add, Push4, Add, Negate, Negate, Negate, Negate, Push4]);
    explore(&mut s, &mut found, &fpu);
    assert_eq!(s.len(), 10);
    assert_eq!(found.get(16).unwrap().search().len(), 11);
    assert_eq!(found.get(8).unwrap().search().len(), 11);
    assert_eq!(examine_slots(&found), 5);
}
