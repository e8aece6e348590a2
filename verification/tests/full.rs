use four_fours::search::MAX_SEARCH_DEPTH;
use four_fours::number::{exact_num, strict_f64_to_i64};
use four_fours::{explore, factorial, Action, Expression, FloatOp, Registry, Search};

fn fpu(op: FloatOp, x: u64, y: u64) -> u64 {
    let a = f64::from_bits(x);
    let b = f64::from_bits(y);
    let r = match op {
        FloatOp::Add => a + b,
        FloatOp::Sub => a - b,
        FloatOp::Mul => a * b,
        FloatOp::Div => a / b,
        FloatOp::Rem => a % b,
        FloatOp::Pow => a.powf(b),
        FloatOp::Sqrt => a.sqrt(),
        FloatOp::Floor => a.floor(),
        FloatOp::Ceil => a.ceil(),
        FloatOp::Round => a.round(),
    };
    r.to_bits()
}

fn count_nodes(e: &Expression) -> usize {
    1 + e.args.iter().map(count_nodes).sum::<usize>()
}

fn value_of(e: &Expression) -> f64 {
    assert_eq!(e.args.len(), e.action.arity());
    let of = |i: usize| value_of(&e.args[i]);
    match e.action {
        Action::Push4 => 4.0,
        Action::Add => of(0) + of(1),
        Action::Sub => of(0) - of(1),
        Action::Mul => of(0) * of(1),
        Action::Div => of(0) / of(1),
        Action::Modulo => of(0) % of(1),
        Action::Power => of(0).powf(of(1)),
        Action::SquareRoot => of(0).sqrt(),
        Action::FourthRoot => {
            assert_eq!(of(0), 4.0);
            of(1).powf(0.25)
        }
        Action::Floor => of(0).floor(),
        Action::Ceiling => of(0).ceil(),
        Action::Abs => of(0).abs(),
        Action::Negate => -of(0),
        Action::Factorial => {
            let n = strict_f64_to_i64(of(0).to_bits()).unwrap();
            f64::from_bits(exact_num(factorial(n).unwrap()).unwrap())
        }
    }
}

#[test]
fn the_whole_search_solves_every_target_to_a_hundred() {
    let mut found = Registry::new(101);
    let mut search = Search::new();
    explore(&mut search, &mut found, &fpu);
    assert_eq!(search.len(), 0);
    assert_eq!(found.len(), 101);

    for t in 0..found.len() {
        let slot = found.get(t).unwrap();
        let actions = slot.search().actions();
        assert!(actions.len() >= 7, "slot {}", t);
        assert!(actions.len() <= MAX_SEARCH_DEPTH, "slot {}", t);
        assert_eq!(actions.iter().filter(|a| **a == Action::Push4).count(), 4, "slot {}", t);
        for pair in actions.windows(2) {
            assert!(!pair[1].pruned_after(pair[0]), "slot {}: {:?}", t, pair);
        }

        let mut again = Search::new();
        for a in &actions {
            let divisor = again.state().depth() >= 1
                && f64::from_bits(again.state().operand(again.state().depth() - 1)) == 0.0;
            if *a == Action::Div || *a == Action::Modulo {
                assert!(!divisor, "slot {}", t);
            }
            assert!(again.advance(*a, &fpu), "slot {}: {:?}", t, a);
        }
        assert!(again.is_done());
        assert_eq!(again.state().fours_used(), 4);
        assert_eq!(again.state().depth(), 1);
        let value = f64::from_bits(again.state().operand(0));
        assert!((value - t as f64).abs() < 0.0000001, "slot {}: {}", t, value);
        let tree = again.make_expression();
        assert_eq!(tree.render(), *slot.rendered());
        assert_eq!(count_nodes(&tree), actions.len());
        assert_eq!(value_of(&tree).to_bits(), again.last_result().unwrap(), "slot {}", t);
    }

    assert_eq!(found.get(16).unwrap().rendered().as_str(), "4+4+4+4");
    assert_eq!(found.get(16).unwrap().search().len(), 7);
    assert_eq!(found.get(0).unwrap().search().len(), 7);
    assert_eq!(found.get(48).unwrap().rendered().as_str(), "4*(4+4+4)");
    assert_eq!(found.get(100).unwrap().rendered().as_str(), "4*((4/4)+(4!))");
}
