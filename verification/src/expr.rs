//! Expression trees and their rendering.
//!
//! A node holds an action and as many children as the action has operands,
//! the left-hand operand first. The fourth root keeps both of its operands
//! and shows only its radicand, the second child.

use crate::action::{arity_of, is_commutative, is_unbracketed, Action};
use vstd::prelude::*;
use vstd::string::StringExecFns;

verus! {

/// An expression tree.
#[derive(Debug)]
pub struct Expression {
    pub action: Action,
    pub args: Vec<Expression>,
}

/// What an expression tree holds.
#[verifier::ext_equal]
pub struct Tree {
    pub action: Action,
    pub args: Seq<Tree>,
}

/// The tree that an expression holds: its action, and the trees of all its
/// children, in order.
pub open spec fn tree_of(e: Expression) -> Tree
    decreases e,
{
    Tree {
        action: e.action,
        args: Seq::new(
            e.args@.len(),
            |i: int|
                if 0 <= i < e.args@.len() {
                    tree_of(e.args@[i])
                } else {
                    arbitrary()
                },
        ),
    }
}

impl View for Expression {
    type V = Tree;

    open spec fn view(&self) -> Tree {
        tree_of(*self)
    }
}

/// Whether every node has as many children as its action has operands.
pub open spec fn well_formed(t: Tree) -> bool
    decreases t,
{
    &&& t.args.len() == arity_of(t.action)
    &&& forall|i: int| 0 <= i < t.args.len() ==> well_formed(#[trigger] t.args[i])
}

/// Whether every node of an expression has as many children as its action
/// has operands.
pub open spec fn has_exact_children(e: Expression) -> bool
    decreases e,
{
    &&& e.args@.len() == arity_of(e.action)
    &&& forall|i: int| 0 <= i < e.args@.len() ==> has_exact_children(#[trigger] e.args@[i])
}

/// An expression has exactly the children that its actions ask for where its
/// view is well formed, and only there.
pub proof fn exact_children_is_well_formed(e: Expression)
    ensures
        has_exact_children(e) <==> well_formed(e@),
    decreases e,
{
    view_of_node(e);
    assert forall|i: int| 0 <= i < e.args@.len() implies (has_exact_children(
        #[trigger] e.args@[i],
    ) <==> well_formed(e@.args[i])) by {
        exact_children_is_well_formed(e.args@[i]);
    }
    if has_exact_children(e) {
        assert forall|i: int| 0 <= i < e@.args.len() implies well_formed(#[trigger] e@.args[i]) by {
            assert(has_exact_children(e.args@[i]));
        }
    }
    if well_formed(e@) {
        assert forall|i: int| 0 <= i < e.args@.len() implies has_exact_children(
            #[trigger] e.args@[i],
        ) by {
            assert(well_formed(e@.args[i]));
        }
    }
}

/// The node that an action makes of the trees on top of a construction
/// stack: as many as it has operands, the deepest first.
pub open spec fn node(a: Action, stack: Seq<Tree>) -> Tree {
    Tree { action: a, args: stack.subrange(stack.len() - arity_of(a), stack.len() as int) }
}

/// The construction stack after a sequence of actions: each action takes its
/// operands' trees off the stack and puts its node there. An action that
/// finds too few trees leaves the stack as it is.
pub open spec fn build(actions: Seq<Action>) -> Seq<Tree>
    decreases actions.len(),
{
    if actions.len() == 0 {
        Seq::empty()
    } else {
        let stack = build(actions.drop_last());
        let a = actions.last();
        if stack.len() >= arity_of(a) {
            stack.subrange(0, stack.len() - arity_of(a)).push(node(a, stack))
        } else {
            stack
        }
    }
}

/// Whether every action of the sequence finds its operands' trees on the
/// construction stack.
pub open spec fn balanced(actions: Seq<Action>) -> bool {
    forall|k: int|
        0 <= k < actions.len() ==> (#[trigger] build(actions.take(k))).len() >= arity_of(
            actions[k],
        )
}

/// The tree of a balanced sequence of actions that leaves one tree.
pub open spec fn expression_of(actions: Seq<Action>) -> Tree {
    build(actions)[0]
}

/// What an action is written with before its operands.
pub open spec fn opening(a: Action) -> Seq<char> {
    match a {
        Action::Push4 => seq!['4'],
        Action::Negate => seq!['-'],
        Action::Abs => seq!['|'],
        Action::SquareRoot => seq!['√', '('],
        Action::FourthRoot => seq!['∜', '('],
        Action::Floor => seq!['⌊'],
        Action::Ceiling => seq!['⌈'],
        _ => Seq::empty(),
    }
}

/// What a binary action is written with between its operands.
pub open spec fn infix(a: Action) -> Seq<char> {
    match a {
        Action::Add => seq!['+'],
        Action::Sub => seq!['-'],
        Action::Mul => seq!['*'],
        Action::Div => seq!['/'],
        Action::Power => seq!['^'],
        Action::Modulo => seq!['m', 'o', 'd'],
        _ => Seq::empty(),
    }
}

/// What an action is written with after its operands.
pub open spec fn closing(a: Action) -> Seq<char> {
    match a {
        Action::Factorial => seq!['!'],
        Action::Abs => seq!['|'],
        Action::SquareRoot | Action::FourthRoot => seq![')'],
        Action::Floor => seq!['⌋'],
        Action::Ceiling => seq!['⌉'],
        _ => Seq::empty(),
    }
}

/// Whether the notation of an action encloses its operand in brackets of its
/// own: bars, a radical with its parentheses, floor or ceiling brackets.
pub open spec fn encloses(a: Action) -> bool {
    match a {
        Action::Abs | Action::SquareRoot | Action::FourthRoot | Action::Floor
        | Action::Ceiling => true,
        _ => false,
    }
}

/// Whether a node is put in parentheses: not where brackets already enclose
/// it, not where it repeats the commutative action of its parent, and else
/// where its own notation has no delimiters.
pub open spec fn is_wrapped(a: Action, has_parens: bool, parent: Option<Action>) -> bool {
    if is_commutative(a) && parent == Some(a) {
        false
    } else {
        is_unbracketed(a) && !has_parens
    }
}

/// The operands of a well-formed tree as they are written: none for the
/// digit, the radicand alone for the fourth root, the one operand of a unary
/// action, and both operands of any other with its sign between them.
pub open spec fn operands_text(t: Tree) -> Seq<char>
    decreases t, 0nat,
{
    if t.args.len() != arity_of(t.action) || t.args.len() == 0 {
        Seq::empty()
    } else if t.action == Action::FourthRoot {
        rendering(t.args[1], true, Some(t.action))
    } else if t.args.len() == 1 {
        rendering(t.args[0], encloses(t.action), Some(t.action))
    } else {
        rendering(t.args[0], false, Some(t.action)) + infix(t.action) + rendering(
            t.args[1],
            false,
            Some(t.action),
        )
    }
}

/// The text of a well-formed tree, without parentheses of its own.
pub open spec fn body(t: Tree) -> Seq<char>
    decreases t, 1nat,
{
    opening(t.action) + operands_text(t) + closing(t.action)
}

/// The text of a well-formed tree that stands under `parent`, where
/// `has_parens` says that brackets already enclose it.
pub open spec fn rendering(t: Tree, has_parens: bool, parent: Option<Action>) -> Seq<char>
    decreases t, 2nat,
{
    if is_wrapped(t.action, has_parens, parent) {
        seq!['('] + body(t) + seq![')']
    } else {
        body(t)
    }
}

/// The text of a whole expression.
pub open spec fn text_of(t: Tree) -> Seq<char> {
    rendering(t, true, None)
}

/// The text that an action is written with before its operands.
fn opening_text(a: Action) -> (s: &'static str)
    ensures
        s@ == opening(a),
{
    proof {
        reveal_strlit("4");
        reveal_strlit("-");
        reveal_strlit("|");
        reveal_strlit("√(");
        reveal_strlit("∜(");
        reveal_strlit("⌊");
        reveal_strlit("⌈");
        reveal_strlit("");
    }
    match a {
        Action::Push4 => "4",
        Action::Negate => "-",
        Action::Abs => "|",
        Action::SquareRoot => "√(",
        Action::FourthRoot => "∜(",
        Action::Floor => "⌊",
        Action::Ceiling => "⌈",
        _ => "",
    }
}

/// The text that a binary action is written with between its operands.
fn infix_text(a: Action) -> (s: &'static str)
    ensures
        s@ == infix(a),
{
    proof {
        reveal_strlit("+");
        reveal_strlit("-");
        reveal_strlit("*");
        reveal_strlit("/");
        reveal_strlit("^");
        reveal_strlit("mod");
        reveal_strlit("");
    }
    match a {
        Action::Add => "+",
        Action::Sub => "-",
        Action::Mul => "*",
        Action::Div => "/",
        Action::Power => "^",
        Action::Modulo => "mod",
        _ => "",
    }
}

/// The text that an action is written with after its operands.
fn closing_text(a: Action) -> (s: &'static str)
    ensures
        s@ == closing(a),
{
    proof {
        reveal_strlit("!");
        reveal_strlit("|");
        reveal_strlit(")");
        reveal_strlit("⌋");
        reveal_strlit("⌉");
        reveal_strlit("");
    }
    match a {
        Action::Factorial => "!",
        Action::Abs => "|",
        Action::SquareRoot | Action::FourthRoot => ")",
        Action::Floor => "⌋",
        Action::Ceiling => "⌉",
        _ => "",
    }
}

/// How the view of an expression follows its fields: the same action, as
/// many children, and each child's view in its place.
pub proof fn view_of_node(e: Expression)
    ensures
        e@.action == e.action,
        e@.args.len() == e.args@.len(),
        forall|i: int| 0 <= i < e.args@.len() ==> #[trigger] e@.args[i] == e.args@[i]@,
{
}

impl Expression {
    /// Appends the operands of the expression, as they are written, to
    /// `out`.
    fn fmt_operands(&self, out: &mut String)
        requires
            well_formed(self@),
        ensures
            final(out)@ == old(out)@ + operands_text(self@),
        decreases self, 0nat,
    {
        proof {
            view_of_node(*self);
            if arity_of(self.action) >= 1 {
                assert(well_formed(self@.args[0]));
            }
            if arity_of(self.action) >= 2 {
                assert(well_formed(self@.args[1]));
            }
        }
        let ghost start = out@;
        match self.action {
            Action::Push4 => {
                assert(out@ =~= start + operands_text(self@));
            },
            Action::FourthRoot => {
                self.args[1].fmt(out, true, Some(self.action));
            },
            Action::Abs | Action::SquareRoot | Action::Floor | Action::Ceiling => {
                self.args[0].fmt(out, true, Some(self.action));
            },
            Action::Negate | Action::Factorial => {
                self.args[0].fmt(out, false, Some(self.action));
            },
            Action::Add | Action::Sub | Action::Mul | Action::Div | Action::Power
            | Action::Modulo => {
                self.args[0].fmt(out, false, Some(self.action));
                out.append(infix_text(self.action));
                self.args[1].fmt(out, false, Some(self.action));
                assert(out@ =~= start + operands_text(self@));
            },
        }
    }

    /// Appends the text of the expression to `out`. `parent_action` is the
    /// action of the node above, and `has_parens` says that brackets already
    /// enclose this one.
    pub fn fmt(&self, out: &mut String, has_parens: bool, parent_action: Option<Action>)
        requires
            well_formed(self@),
        ensures
            final(out)@ == old(out)@ + rendering(self@, has_parens, parent_action),
        decreases self, 1nat,
    {
        let same_as_parent = match parent_action {
            Some(p) => p == self.action,
            None => false,
        };
        let needs_parens_around = if self.action.communative() && same_as_parent {
            false
        } else {
            self.action.needs_parens_around() && !has_parens
        };
        proof {
            reveal_strlit("(");
            reveal_strlit(")");
        }
        let ghost start = out@;
        if needs_parens_around {
            out.append("(");
        }
        let ghost opened = out@;
        out.append(opening_text(self.action));
        self.fmt_operands(out);
        out.append(closing_text(self.action));
        assert(out@ =~= opened + body(self@));
        if needs_parens_around {
            out.append(")");
            assert(out@ =~= start + (seq!['('] + body(self@) + seq![')']));
        }
    }

    /// The text of the expression as a whole.
    pub fn render(&self) -> (text: String)
        requires
            well_formed(self@),
        ensures
            text@ == text_of(self@),
    {
        let mut text = String::new();
        self.fmt(&mut text, true, None);
        text
    }
}

} // verus!
