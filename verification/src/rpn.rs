//! The stack-based evaluator for grounded RPN formulas, the rewrite pass
//! that pushes negations to the leaves (negation normal form), the pass that
//! distributes OR over AND (conjunctive normal form), and the two composed
//! entry points from formula text to rewritten formula text.

use vstd::prelude::*;
use vstd::string::*;
use crate::ast::{
    ASTNode, BinaryOperator, FormulaError, UnaryOperator, ast_to_rpn, is_digit_char,
    lemma_normalize_only_not_and_or, lemma_normalize_preserves_sem, node_size, normalize_ast,
    normalize_spec, only_not_and_or, parse_boolean_rpn, parse_spec, rpn_of, sem, xor_free,
};

verus! {

/// One left-to-right scan of a grounded formula over a stack of booleans:
/// a digit pushes its truth value (true exactly for `1`), `!` negates the
/// top, a binary operator pops the right operand and then the left one and
/// pushes the combination, and any other character first pops like a binary
/// operator and then fails as unknown. The scan fails with `MissingOperand`
/// when an operand is missing at that point, and with `EmptyFormula` when
/// the final stack is empty; the result is the final top of the stack.
pub open spec fn eval_chars(s: Seq<char>, stack: Seq<bool>) -> Result<bool, FormulaError>
    decreases s.len(),
{
    if s.len() == 0 {
        if stack.len() == 0 {
            Err(FormulaError::EmptyFormula)
        } else {
            Ok(stack.last())
        }
    } else {
        let c = s[0];
        let rest = s.subrange(1, s.len() as int);
        if is_digit_char(c) {
            eval_chars(rest, stack.push(c == '1'))
        } else if stack.len() < 1 {
            Err(FormulaError::MissingOperand)
        } else if c == '!' {
            eval_chars(rest, stack.drop_last().push(!stack.last()))
        } else if stack.len() < 2 {
            Err(FormulaError::MissingOperand)
        } else {
            let right = stack.last();
            let left = stack.drop_last().last();
            let popped = stack.drop_last().drop_last();
            if c == '&' {
                eval_chars(rest, popped.push(left && right))
            } else if c == '|' {
                eval_chars(rest, popped.push(left || right))
            } else if c == '^' {
                eval_chars(rest, popped.push(left != right))
            } else if c == '>' {
                eval_chars(rest, popped.push(!left || right))
            } else if c == '=' {
                eval_chars(rest, popped.push(left == right))
            } else {
                Err(FormulaError::UnknownOperator)
            }
        }
    }
}

/// What evaluating a whole grounded formula yields.
pub open spec fn eval_spec(s: Seq<char>) -> Result<bool, FormulaError> {
    eval_chars(s, Seq::empty())
}

/// Evaluates a grounded formula: RPN text whose variable positions already
/// hold the digits `0` or `1`. Digits push their truth value, `!` negates
/// the top of the stack, and each binary operator pops the right operand,
/// then the left one, and pushes AND, OR, XOR, IMPLIES (`!left || right`)
/// or BICONDITIONAL (`left == right`). An operator that finds too few
/// operands fails with `MissingOperand`, an unrecognized character fails
/// with `UnknownOperator`, and a scan that leaves an empty stack fails with
/// `EmptyFormula`; otherwise the result is the final top of the stack.
pub fn eval_formula(formula: &str) -> (r: Result<bool, FormulaError>)
    ensures
        r == eval_spec(formula@),
{
    let n = formula.unicode_len();
    let mut stack: Vec<bool> = Vec::new();
    let mut i: usize = 0;
    proof {
        assert(formula@.subrange(0, n as int) =~= formula@);
    }
    while i < n
        invariant
            n == formula@.len(),
            i <= n,
            eval_chars(formula@, Seq::empty()) == eval_chars(
                formula@.subrange(i as int, n as int),
                stack@,
            ),
        decreases n - i,
    {
        let c = formula.get_char(i);
        proof {
            let cur = formula@.subrange(i as int, n as int);
            assert(cur[0] == c);
            assert(cur.subrange(1, cur.len() as int) =~= formula@.subrange(i + 1, n as int));
        }
        let u = c as u32;
        if 48 <= u && u <= 57 {
            stack.push(c == '1');
        } else {
            let right = match stack.pop() {
                Some(v) => v,
                None => {
                    return Err(FormulaError::MissingOperand);
                },
            };
            if c == '!' {
                stack.push(!right);
            } else {
                let left = match stack.pop() {
                    Some(v) => v,
                    None => {
                        return Err(FormulaError::MissingOperand);
                    },
                };
                if c == '&' {
                    stack.push(left && right);
                } else if c == '|' {
                    stack.push(left || right);
                } else if c == '^' {
                    stack.push(left != right);
                } else if c == '>' {
                    stack.push(!left || right);
                } else if c == '=' {
                    stack.push(left == right);
                } else {
                    return Err(FormulaError::UnknownOperator);
                }
            }
        }
        i += 1;
    }
    proof {
        assert(formula@.subrange(n as int, n as int) =~= Seq::<char>::empty());
    }
    match stack.pop() {
        Some(v) => Ok(v),
        None => Err(FormulaError::EmptyFormula),
    }
}

/// True when every NOT node's child is a leaf: the shape negation normal
/// form guarantees.
pub open spec fn negations_at_leaves(node: ASTNode) -> bool
    decreases node,
{
    match node {
        ASTNode::Number(b) => true,
        ASTNode::Variable(c) => true,
        ASTNode::UnaryOp { operator, child } => match *child {
            ASTNode::Number(b) => true,
            ASTNode::Variable(c) => true,
            _ => false,
        },
        ASTNode::BinaryOp { operator, left, right } => negations_at_leaves(*left)
            && negations_at_leaves(*right),
    }
}

/// The push of negations toward the leaves: a double negation cancels, a
/// negated AND becomes an OR of negations, a negated OR becomes an AND of
/// negations, and other shapes recurse or pass through unchanged. A NOT
/// node is rewritten by `neg_nnf_spec` on its child.
pub open spec fn nnf_spec(node: ASTNode) -> ASTNode
    decreases node_size(node), 1int,
{
    match node {
        ASTNode::UnaryOp { operator, child } => neg_nnf_spec(*child),
        ASTNode::BinaryOp { operator, left, right } => ASTNode::BinaryOp {
            operator,
            left: Box::new(nnf_spec(*left)),
            right: Box::new(nnf_spec(*right)),
        },
        _ => node,
    }
}

/// What `NOT(node)` rewrites to when negations are pushed toward the
/// leaves: `NOT(NOT(X))` becomes the rewritten `X`, a negated AND or OR
/// turns by De Morgan's laws, and a negated leaf or other shape stands
/// unchanged under its NOT.
pub open spec fn neg_nnf_spec(node: ASTNode) -> ASTNode
    decreases node_size(node), 2int,
{
    match node {
        ASTNode::UnaryOp { operator, child } => nnf_spec(*child),
        ASTNode::BinaryOp { operator: BinaryOperator::And, left, right } => ASTNode::BinaryOp {
            operator: BinaryOperator::Or,
            left: Box::new(neg_nnf_spec(*left)),
            right: Box::new(neg_nnf_spec(*right)),
        },
        ASTNode::BinaryOp { operator: BinaryOperator::Or, left, right } => ASTNode::BinaryOp {
            operator: BinaryOperator::And,
            left: Box::new(neg_nnf_spec(*left)),
            right: Box::new(neg_nnf_spec(*right)),
        },
        _ => ASTNode::UnaryOp { operator: UnaryOperator::Not, child: Box::new(node) },
    }
}

/// Pushing negations inward preserves the truth value of the formula under
/// every assignment.
pub proof fn lemma_nnf_preserves_sem(node: ASTNode, env: Map<char, bool>)
    ensures
        sem(nnf_spec(node), env) == sem(node, env),
    decreases node_size(node), 1int,
{
    match node {
        ASTNode::UnaryOp { operator, child } => {
            lemma_neg_nnf_sem(*child, env);
        },
        ASTNode::BinaryOp { operator, left, right } => {
            lemma_nnf_preserves_sem(*left, env);
            lemma_nnf_preserves_sem(*right, env);
        },
        _ => {},
    }
}

/// The rewrite of a negated tree means the negation of the tree, under
/// every assignment.
pub proof fn lemma_neg_nnf_sem(node: ASTNode, env: Map<char, bool>)
    ensures
        sem(neg_nnf_spec(node), env) == !sem(node, env),
    decreases node_size(node), 2int,
{
    match node {
        ASTNode::UnaryOp { operator, child } => {
            lemma_nnf_preserves_sem(*child, env);
        },
        ASTNode::BinaryOp { operator: BinaryOperator::And, left, right } => {
            lemma_neg_nnf_sem(*left, env);
            lemma_neg_nnf_sem(*right, env);
        },
        ASTNode::BinaryOp { operator: BinaryOperator::Or, left, right } => {
            lemma_neg_nnf_sem(*left, env);
            lemma_neg_nnf_sem(*right, env);
        },
        _ => {},
    }
}

/// On input with only NOT, AND and OR, the push of negations leaves every
/// NOT directly above a leaf, and the connectives stay NOT, AND and OR.
pub proof fn lemma_nnf_structure(node: ASTNode)
    requires
        only_not_and_or(node),
    ensures
        negations_at_leaves(nnf_spec(node)),
        only_not_and_or(nnf_spec(node)),
    decreases node_size(node), 1int,
{
    match node {
        ASTNode::UnaryOp { operator, child } => {
            lemma_neg_nnf_structure(*child);
        },
        ASTNode::BinaryOp { operator, left, right } => {
            lemma_nnf_structure(*left);
            lemma_nnf_structure(*right);
        },
        _ => {},
    }
}

/// On a negated tree with only NOT, AND and OR, the rewrite leaves every
/// NOT directly above a leaf, and the connectives stay NOT, AND and OR.
pub proof fn lemma_neg_nnf_structure(node: ASTNode)
    requires
        only_not_and_or(node),
    ensures
        negations_at_leaves(neg_nnf_spec(node)),
        only_not_and_or(neg_nnf_spec(node)),
    decreases node_size(node), 2int,
{
    match node {
        ASTNode::UnaryOp { operator, child } => {
            lemma_nnf_structure(*child);
        },
        ASTNode::BinaryOp { operator: BinaryOperator::And, left, right } => {
            lemma_neg_nnf_structure(*left);
            lemma_neg_nnf_structure(*right);
        },
        ASTNode::BinaryOp { operator: BinaryOperator::Or, left, right } => {
            lemma_neg_nnf_structure(*left);
            lemma_neg_nnf_structure(*right);
        },
        _ => {},
    }
}

/// Pushes negations toward the leaves by De Morgan's laws and
/// double-negation elimination: `NOT(NOT(X))` becomes the rewritten `X`,
/// `NOT(AND(L, R))` becomes `OR(NOT(L), NOT(R))` rewritten, `NOT(OR(L, R))`
/// becomes `AND(NOT(L), NOT(R))` rewritten, AND and OR recurse, and leaves
/// or a negated leaf pass through unchanged. The result is equivalent to
/// the input under every assignment; on input with only NOT, AND and OR,
/// every NOT of the result sits directly above a leaf.
pub fn expand_negations(node: &ASTNode) -> (r: ASTNode)
    ensures
        r == nnf_spec(*node),
        forall|env: Map<char, bool>| sem(r, env) == sem(*node, env),
        only_not_and_or(*node) ==> negations_at_leaves(r) && only_not_and_or(r),
    decreases node_size(*node), 1int,
{
    proof {
        assert forall|env: Map<char, bool>| sem(nnf_spec(*node), env) == sem(*node, env) by {
            lemma_nnf_preserves_sem(*node, env);
        }
        if only_not_and_or(*node) {
            lemma_nnf_structure(*node);
        }
    }
    match node {
        ASTNode::UnaryOp { operator, child } => expand_negation_of(child),
        ASTNode::BinaryOp { operator, left, right } => {
            ASTNode::binary_op(*operator, expand_negations(left), expand_negations(right))
        },
        _ => node.duplicate(),
    }
}

/// Rewrites the negation of a tree with negations pushed toward the
/// leaves, as `neg_nnf_spec` describes it.
fn expand_negation_of(node: &ASTNode) -> (r: ASTNode)
    ensures
        r == neg_nnf_spec(*node),
    decreases node_size(*node), 2int,
{
    match node {
        ASTNode::UnaryOp { operator, child } => expand_negations(child),
        ASTNode::BinaryOp { operator: BinaryOperator::And, left, right } => {
            ASTNode::binary_op(
                BinaryOperator::Or,
                expand_negation_of(left),
                expand_negation_of(right),
            )
        },
        ASTNode::BinaryOp { operator: BinaryOperator::Or, left, right } => {
            ASTNode::binary_op(
                BinaryOperator::And,
                expand_negation_of(left),
                expand_negation_of(right),
            )
        },
        _ => ASTNode::unary_op(UnaryOperator::Not, node.duplicate()),
    }
}

/// True when no OR node has an AND node as either direct child: the shape
/// conjunctive normal form guarantees.
pub open spec fn no_or_over_and(node: ASTNode) -> bool
    decreases node,
{
    match node {
        ASTNode::Number(b) => true,
        ASTNode::Variable(c) => true,
        ASTNode::UnaryOp { operator, child } => no_or_over_and(*child),
        ASTNode::BinaryOp { operator, left, right } => {
            let children_ok = no_or_over_and(*left) && no_or_over_and(*right);
            if operator == BinaryOperator::Or {
                children_ok && !(*left matches ASTNode::BinaryOp {
                    operator: BinaryOperator::And,
                    ..
                }) && !(*right matches ASTNode::BinaryOp { operator: BinaryOperator::And, .. })
            } else {
                children_ok
            }
        },
    }
}

/// The distribution of a single OR whose operands are already rewritten:
/// `(A & B) | C` becomes `(A | C) & (B | C)`, `A | (B & C)` becomes
/// `(A | B) & (A | C)` when the left operand is not an AND, and an OR of
/// two non-AND operands stands as it is.
pub open spec fn dist_or_spec(left: ASTNode, right: ASTNode) -> ASTNode
    decreases node_size(left) + node_size(right),
{
    match left {
        ASTNode::BinaryOp { operator: BinaryOperator::And, left: a, right: b } => {
            ASTNode::BinaryOp {
                operator: BinaryOperator::And,
                left: Box::new(dist_or_spec(*a, right)),
                right: Box::new(dist_or_spec(*b, right)),
            }
        },
        _ => match right {
            ASTNode::BinaryOp { operator: BinaryOperator::And, left: b, right: c } => {
                ASTNode::BinaryOp {
                    operator: BinaryOperator::And,
                    left: Box::new(dist_or_spec(left, *b)),
                    right: Box::new(dist_or_spec(left, *c)),
                }
            },
            _ => ASTNode::BinaryOp {
                operator: BinaryOperator::Or,
                left: Box::new(left),
                right: Box::new(right),
            },
        },
    }
}

/// The distribution of OR over AND across a whole tree: each OR first
/// rewrites its operands, then distributes; every other binary node
/// recurses; leaves and NOT nodes pass through unchanged.
pub open spec fn dist_spec(node: ASTNode) -> ASTNode
    decreases node_size(node),
{
    match node {
        ASTNode::BinaryOp { operator: BinaryOperator::Or, left, right } => dist_or_spec(
            dist_spec(*left),
            dist_spec(*right),
        ),
        ASTNode::BinaryOp { operator, left, right } => ASTNode::BinaryOp {
            operator,
            left: Box::new(dist_spec(*left)),
            right: Box::new(dist_spec(*right)),
        },
        _ => node,
    }
}

/// Distributing one OR preserves truth value: the result always means
/// `left OR right`.
pub proof fn lemma_dist_or_sem(left: ASTNode, right: ASTNode, env: Map<char, bool>)
    ensures
        sem(dist_or_spec(left, right), env) == (sem(left, env) || sem(right, env)),
    decreases node_size(left) + node_size(right),
{
    match left {
        ASTNode::BinaryOp { operator: BinaryOperator::And, left: a, right: b } => {
            lemma_dist_or_sem(*a, right, env);
            lemma_dist_or_sem(*b, right, env);
        },
        _ => {
            match right {
                ASTNode::BinaryOp { operator: BinaryOperator::And, left: b, right: c } => {
                    lemma_dist_or_sem(left, *b, env);
                    lemma_dist_or_sem(left, *c, env);
                },
                _ => {},
            }
        },
    }
}

/// Distributing OR over AND across a tree preserves the truth value of the
/// formula under every assignment.
pub proof fn lemma_dist_preserves_sem(node: ASTNode, env: Map<char, bool>)
    ensures
        sem(dist_spec(node), env) == sem(node, env),
    decreases node_size(node),
{
    match node {
        ASTNode::BinaryOp { operator: BinaryOperator::Or, left, right } => {
            lemma_dist_preserves_sem(*left, env);
            lemma_dist_preserves_sem(*right, env);
            lemma_dist_or_sem(dist_spec(*left), dist_spec(*right), env);
        },
        ASTNode::BinaryOp { operator, left, right } => {
            lemma_dist_preserves_sem(*left, env);
            lemma_dist_preserves_sem(*right, env);
        },
        _ => {},
    }
}

/// Distributing one OR over operands in which no OR sits above an AND
/// yields a tree in which no OR sits above an AND.
pub proof fn lemma_dist_or_structure(left: ASTNode, right: ASTNode)
    requires
        no_or_over_and(left),
        no_or_over_and(right),
    ensures
        no_or_over_and(dist_or_spec(left, right)),
    decreases node_size(left) + node_size(right),
{
    match left {
        ASTNode::BinaryOp { operator: BinaryOperator::And, left: a, right: b } => {
            lemma_dist_or_structure(*a, right);
            lemma_dist_or_structure(*b, right);
        },
        _ => {
            match right {
                ASTNode::BinaryOp { operator: BinaryOperator::And, left: b, right: c } => {
                    lemma_dist_or_structure(left, *b);
                    lemma_dist_or_structure(left, *c);
                },
                _ => {},
            }
        },
    }
}

/// On a tree whose negations sit at the leaves, distributing OR over AND
/// leaves no OR node with an AND node as a direct child.
pub proof fn lemma_dist_structure(node: ASTNode)
    requires
        negations_at_leaves(node),
    ensures
        no_or_over_and(dist_spec(node)),
    decreases node_size(node),
{
    match node {
        ASTNode::BinaryOp { operator: BinaryOperator::Or, left, right } => {
            lemma_dist_structure(*left);
            lemma_dist_structure(*right);
            lemma_dist_or_structure(dist_spec(*left), dist_spec(*right));
        },
        ASTNode::BinaryOp { operator, left, right } => {
            lemma_dist_structure(*left);
            lemma_dist_structure(*right);
        },
        ASTNode::UnaryOp { operator, child } => {
            assert(no_or_over_and(*child));
        },
        _ => {},
    }
}

/// Distributes one OR whose operands are already rewritten, duplicating the
/// operand that appears in both halves of the produced AND.
fn distribute_or(left: ASTNode, right: ASTNode) -> (r: ASTNode)
    ensures
        r == dist_or_spec(left, right),
    decreases node_size(left) + node_size(right),
{
    match left {
        ASTNode::BinaryOp { operator: BinaryOperator::And, left: a, right: b } => {
            let right2 = right.duplicate();
            ASTNode::binary_op(
                BinaryOperator::And,
                distribute_or(*a, right),
                distribute_or(*b, right2),
            )
        },
        l => {
            match right {
                ASTNode::BinaryOp { operator: BinaryOperator::And, left: b, right: c } => {
                    let l2 = l.duplicate();
                    ASTNode::binary_op(
                        BinaryOperator::And,
                        distribute_or(l, *b),
                        distribute_or(l2, *c),
                    )
                },
                r => ASTNode::binary_op(BinaryOperator::Or, l, r),
            }
        },
    }
}

/// Distributes OR over AND: each OR node first rewrites its operands, then
/// `(A & B) | C` becomes `(A | C) & (B | C)` (the left rule is tried first)
/// and `A | (B & C)` becomes `(A | B) & (A | C)`; other binary nodes
/// recurse, and leaves and NOT nodes pass through unchanged. The result is
/// equivalent to the input under every assignment; on input whose negations
/// sit at the leaves, no OR node of the result has an AND node as a direct
/// child.
pub fn distribute_ors_over_ands(node: &ASTNode) -> (r: ASTNode)
    ensures
        r == dist_spec(*node),
        forall|env: Map<char, bool>| sem(r, env) == sem(*node, env),
        negations_at_leaves(*node) ==> no_or_over_and(r),
    decreases node_size(*node),
{
    proof {
        assert forall|env: Map<char, bool>| sem(dist_spec(*node), env) == sem(*node, env) by {
            lemma_dist_preserves_sem(*node, env);
        }
        if negations_at_leaves(*node) {
            lemma_dist_structure(*node);
        }
    }
    match node {
        ASTNode::BinaryOp { operator: BinaryOperator::Or, left, right } => {
            let l = distribute_ors_over_ands(left);
            let r = distribute_ors_over_ands(right);
            distribute_or(l, r)
        },
        ASTNode::BinaryOp { operator, left, right } => {
            ASTNode::binary_op(
                *operator,
                distribute_ors_over_ands(left),
                distribute_ors_over_ands(right),
            )
        },
        _ => node.duplicate(),
    }
}

/// The tree a formula's negation normal form is written from.
pub open spec fn nnf_of(s: Seq<char>) -> ASTNode
    recommends
        parse_spec(s) is Ok,
{
    nnf_spec(normalize_spec(parse_spec(s)->Ok_0))
}

/// The tree a formula's conjunctive normal form is written from.
pub open spec fn cnf_of(s: Seq<char>) -> ASTNode
    recommends
        parse_spec(s) is Ok,
{
    dist_spec(nnf_of(s))
}

/// Parses a formula, eliminates IMPLIES and BICONDITIONAL, pushes
/// negations to the leaves, and writes the result back as RPN text. A
/// parse failure is propagated unchanged.
pub fn negation_normal_form(formula: &str) -> (r: Result<String, FormulaError>)
    ensures
        match parse_spec(formula@) {
            Ok(tree) => r matches Ok(text) && text@ == rpn_of(nnf_of(formula@)),
            Err(e) => r matches Err(e2) && e2 == e,
        },
{
    let tree = match parse_boolean_rpn(formula) {
        Ok(tree) => tree,
        Err(e) => {
            return Err(e);
        },
    };
    let norm = normalize_ast(&tree);
    let expanded = expand_negations(&norm);
    Ok(ast_to_rpn(&expanded))
}

/// Parses a formula, eliminates IMPLIES and BICONDITIONAL, pushes
/// negations to the leaves, distributes OR over AND, and writes the result
/// back as RPN text. A parse failure is propagated unchanged.
pub fn conjunctive_normal_form(formula: &str) -> (r: Result<String, FormulaError>)
    ensures
        match parse_spec(formula@) {
            Ok(tree) => r matches Ok(text) && text@ == rpn_of(cnf_of(formula@)),
            Err(e) => r matches Err(e2) && e2 == e,
        },
{
    let tree = match parse_boolean_rpn(formula) {
        Ok(tree) => tree,
        Err(e) => {
            return Err(e);
        },
    };
    let norm = normalize_ast(&tree);
    let expanded = expand_negations(&norm);
    let distributed = distribute_ors_over_ands(&expanded);
    Ok(ast_to_rpn(&distributed))
}

/// The tree behind a formula's negation normal form keeps the formula's
/// truth value under every assignment; on a formula free of XOR, its
/// negations moreover sit directly above leaves.
pub proof fn lemma_nnf_of_properties(s: Seq<char>, env: Map<char, bool>)
    requires
        parse_spec(s) is Ok,
    ensures
        sem(nnf_of(s), env) == sem(parse_spec(s)->Ok_0, env),
        xor_free(parse_spec(s)->Ok_0) ==> negations_at_leaves(nnf_of(s)),
{
    let tree = parse_spec(s)->Ok_0;
    lemma_normalize_preserves_sem(tree, env);
    lemma_nnf_preserves_sem(normalize_spec(tree), env);
    if xor_free(tree) {
        lemma_normalize_only_not_and_or(tree);
        lemma_nnf_structure(normalize_spec(tree));
    }
}

/// The tree behind a formula's conjunctive normal form keeps the formula's
/// truth value under every assignment; on a formula free of XOR, no OR node
/// of it moreover has an AND node as a direct child.
pub proof fn lemma_cnf_of_properties(s: Seq<char>, env: Map<char, bool>)
    requires
        parse_spec(s) is Ok,
    ensures
        sem(cnf_of(s), env) == sem(parse_spec(s)->Ok_0, env),
        xor_free(parse_spec(s)->Ok_0) ==> no_or_over_and(cnf_of(s)),
{
    let tree = parse_spec(s)->Ok_0;
    lemma_nnf_of_properties(s, env);
    lemma_dist_preserves_sem(nnf_of(s), env);
    if xor_free(tree) {
        lemma_normalize_only_not_and_or(tree);
        lemma_nnf_structure(normalize_spec(tree));
        lemma_dist_structure(nnf_of(s));
    }
}

} // verus!
