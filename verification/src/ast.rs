//! The abstract syntax tree of a boolean formula, the RPN parser that builds
//! it, the serializer back to RPN text, and the rewrite pass that eliminates
//! the derived connectives IMPLIES and BICONDITIONAL.

use vstd::prelude::*;
use vstd::string::*;

verus! {

/// The binary connectives: AND `&`, OR `|`, XOR `^`, IMPLIES `>`,
/// BICONDITIONAL `=`.
#[derive(Clone, Copy, PartialEq, Eq, Structural, Debug)]
pub enum BinaryOperator {
    And,
    Or,
    Xor,
    Implies,
    Biconditional,
}

/// The unary connectives: NOT `!` is the only one.
#[derive(Clone, Copy, PartialEq, Eq, Structural, Debug)]
pub enum UnaryOperator {
    Not,
}

/// A node of the abstract syntax tree of a boolean formula. Each node owns
/// its children outright: the tree is strict, with no sharing and no cycles.
#[derive(PartialEq, Eq, Debug)]
pub enum ASTNode {
    /// A boolean literal: the bit `1` (true) or `0` (false).
    Number(bool),
    /// A free variable, named by a single uppercase letter `A`-`Z`.
    Variable(char),
    UnaryOp { operator: UnaryOperator, child: Box<ASTNode> },
    BinaryOp { operator: BinaryOperator, left: Box<ASTNode>, right: Box<ASTNode> },
}

/// How a failed parse or evaluation is reported.
#[derive(Clone, Copy, PartialEq, Eq, Structural, Debug)]
pub enum FormulaError {
    /// The formula text yields no result at all (empty, or only ignored
    /// characters), or a grounded formula leaves an empty stack.
    EmptyFormula,
    /// An operator token was scanned while the stack held too few operands
    /// (one is needed for NOT, two for a binary connective).
    MissingOperand,
    /// A character resolved to no recognized operation where one was
    /// expected.
    UnknownOperator,
    /// A truth table was requested for a formula without variable letters.
    NoFreeVariables,
}

/// The character that writes a binary connective in RPN text.
pub open spec fn op_char(op: BinaryOperator) -> char {
    match op {
        BinaryOperator::And => '&',
        BinaryOperator::Or => '|',
        BinaryOperator::Xor => '^',
        BinaryOperator::Implies => '>',
        BinaryOperator::Biconditional => '=',
    }
}

/// The truth value of a formula under an assignment of its variables.
pub open spec fn sem(node: ASTNode, env: Map<char, bool>) -> bool
    decreases node,
{
    match node {
        ASTNode::Number(b) => b,
        ASTNode::Variable(c) => env[c],
        ASTNode::UnaryOp { operator, child } => !sem(*child, env),
        ASTNode::BinaryOp { operator, left, right } => {
            let l = sem(*left, env);
            let r = sem(*right, env);
            match operator {
                BinaryOperator::And => l && r,
                BinaryOperator::Or => l || r,
                BinaryOperator::Xor => l != r,
                BinaryOperator::Implies => !l || r,
                BinaryOperator::Biconditional => l == r,
            }
        },
    }
}

/// The number of nodes in a tree; a measure for the rewrite passes, whose
/// recursion is not always structural.
pub open spec fn node_size(node: ASTNode) -> nat
    decreases node,
{
    match node {
        ASTNode::Number(b) => 1,
        ASTNode::Variable(c) => 1,
        ASTNode::UnaryOp { operator, child } => 1 + node_size(*child),
        ASTNode::BinaryOp { operator, left, right } => 1 + node_size(*left) + node_size(
            *right,
        ),
    }
}

/// An ASCII digit `0`-`9`.
pub open spec fn is_digit_char(c: char) -> bool {
    48 <= c as u32 && c as u32 <= 57
}

/// An ASCII letter, either case.
pub open spec fn is_letter_char(c: char) -> bool {
    is_uppercase_letter(c) || is_lowercase_letter(c)
}

/// An uppercase ASCII letter `A`-`Z`.
pub open spec fn is_uppercase_letter(c: char) -> bool {
    65 <= c as u32 && c as u32 <= 90
}

/// A lowercase ASCII letter `a`-`z`.
pub open spec fn is_lowercase_letter(c: char) -> bool {
    97 <= c as u32 && c as u32 <= 122
}

/// A character that writes one of the binary connectives.
pub open spec fn is_binary_op_char(c: char) -> bool {
    c == '&' || c == '|' || c == '^' || c == '>' || c == '='
}

/// The connective written by a binary operator character.
pub open spec fn binop_of_char(c: char) -> BinaryOperator {
    if c == '&' {
        BinaryOperator::And
    } else if c == '|' {
        BinaryOperator::Or
    } else if c == '^' {
        BinaryOperator::Xor
    } else if c == '>' {
        BinaryOperator::Implies
    } else {
        BinaryOperator::Biconditional
    }
}

/// A lowercase ASCII letter mapped to its uppercase form; any other
/// character is left as it is.
pub open spec fn to_upper(c: char) -> char {
    if is_lowercase_letter(c) {
        (((c as u32) - 32) as u8) as char
    } else {
        c
    }
}

/// One left-to-right scan of RPN text over a stack of subtrees, as the
/// parser performs it: a digit or letter pushes a leaf, an operator pops its
/// operands (the top of the stack is the right operand) and pushes the
/// combined node, and any other character is ignored.
pub open spec fn parse_chars(s: Seq<char>, stack: Seq<ASTNode>) -> Result<
    Seq<ASTNode>,
    FormulaError,
>
    decreases s.len(),
{
    if s.len() == 0 {
        Ok(stack)
    } else {
        let c = s[0];
        let rest = s.subrange(1, s.len() as int);
        if is_digit_char(c) {
            parse_chars(rest, stack.push(ASTNode::Number(c == '1')))
        } else if is_letter_char(c) {
            parse_chars(rest, stack.push(ASTNode::Variable(to_upper(c))))
        } else if c == '!' {
            if stack.len() < 1 {
                Err(FormulaError::MissingOperand)
            } else {
                parse_chars(
                    rest,
                    stack.drop_last().push(
                        ASTNode::UnaryOp {
                            operator: UnaryOperator::Not,
                            child: Box::new(stack.last()),
                        },
                    ),
                )
            }
        } else if is_binary_op_char(c) {
            if stack.len() < 2 {
                Err(FormulaError::MissingOperand)
            } else {
                parse_chars(
                    rest,
                    stack.drop_last().drop_last().push(
                        ASTNode::BinaryOp {
                            operator: binop_of_char(c),
                            left: Box::new(stack.drop_last().last()),
                            right: Box::new(stack.last()),
                        },
                    ),
                )
            }
        } else {
            parse_chars(rest, stack)
        }
    }
}

/// What parsing a whole formula yields: the top of the final stack, or
/// `EmptyFormula` when the scan leaves nothing. Extra stack entries under
/// the top are tolerated and discarded.
pub open spec fn parse_spec(s: Seq<char>) -> Result<ASTNode, FormulaError> {
    match parse_chars(s, Seq::empty()) {
        Ok(stack) => if stack.len() == 0 {
            Err(FormulaError::EmptyFormula)
        } else {
            Ok(stack.last())
        },
        Err(e) => Err(e),
    }
}

/// The RPN text of a tree: leaves write their own character, a unary node
/// writes its child followed by `!`, and a binary node writes its left
/// child, its right child, then the operator character.
pub open spec fn rpn_of(node: ASTNode) -> Seq<char>
    decreases node,
{
    match node {
        ASTNode::Number(b) => seq![if b { '1' } else { '0' }],
        ASTNode::Variable(c) => seq![c],
        ASTNode::UnaryOp { operator, child } => rpn_of(*child) + seq!['!'],
        ASTNode::BinaryOp { operator, left, right } => rpn_of(*left) + rpn_of(*right) + seq![
            op_char(operator),
        ],
    }
}

impl ASTNode {
    /// Builds a literal leaf.
    pub fn number(value: bool) -> (r: ASTNode)
        ensures
            r == ASTNode::Number(value),
    {
        ASTNode::Number(value)
    }

    /// Builds a variable leaf.
    pub fn variable(name: char) -> (r: ASTNode)
        ensures
            r == ASTNode::Variable(name),
    {
        ASTNode::Variable(name)
    }

    /// Builds a unary node over a child tree.
    pub fn unary_op(operator: UnaryOperator, child: Self) -> (r: Self)
        ensures
            r == (ASTNode::UnaryOp { operator, child: Box::new(child) }),
    {
        ASTNode::UnaryOp { operator, child: Box::new(child) }
    }

    /// Builds a binary node over two child trees.
    pub fn binary_op(operator: BinaryOperator, left: Self, right: Self) -> (r: Self)
        ensures
            r == (ASTNode::BinaryOp {
                operator,
                left: Box::new(left),
                right: Box::new(right),
            }),
    {
        ASTNode::BinaryOp { operator, left: Box::new(left), right: Box::new(right) }
    }

    /// An explicit deep copy. Rewrite passes that need the same operand in
    /// two places duplicate it rather than share it, keeping the tree strict.
    pub fn duplicate(&self) -> (r: ASTNode)
        ensures
            r == *self,
        decreases node_size(*self),
    {
        match self {
            ASTNode::Number(b) => ASTNode::Number(*b),
            ASTNode::Variable(c) => ASTNode::Variable(*c),
            ASTNode::UnaryOp { operator, child } => ASTNode::UnaryOp {
                operator: *operator,
                child: Box::new(child.duplicate()),
            },
            ASTNode::BinaryOp { operator, left, right } => ASTNode::BinaryOp {
                operator: *operator,
                left: Box::new(left.duplicate()),
                right: Box::new(right.duplicate()),
            },
        }
    }
}

/// The uppercase form of a character, as `to_upper` describes it.
fn to_uppercase_char(c: char) -> (r: char)
    ensures
        r == to_upper(c),
{
    let u = c as u32;
    if 97 <= u && u <= 122 {
        ((u - 32) as u8) as char
    } else {
        c
    }
}

/// Reads a formula written in RPN into a tree. A digit pushes a `Number`
/// leaf (true exactly for the digit `1`), a letter pushes a `Variable` leaf
/// normalized to uppercase, `!` pops one operand, a binary operator
/// character pops the right operand and then the left one, and every other
/// character is ignored. The scan fails with `MissingOperand` when an
/// operator finds too few operands, and with `EmptyFormula` when the final
/// stack is empty; entries under the final top are discarded.
pub fn parse_boolean_rpn(formula: &str) -> (r: Result<ASTNode, FormulaError>)
    ensures
        r == parse_spec(formula@),
{
    let n = formula.unicode_len();
    let mut stack: Vec<ASTNode> = Vec::new();
    let mut i: usize = 0;
    proof {
        assert(formula@.subrange(0, n as int) =~= formula@);
    }
    while i < n
        invariant
            n == formula@.len(),
            i <= n,
            parse_chars(formula@, Seq::empty()) == parse_chars(
                formula@.subrange(i as int, n as int),
                stack@,
            ),
        decreases n - i,
    {
        let c = formula.get_char(i);
        proof {
            let cur = formula@.subrange(i as int, n as int);
            assert(cur[0] == c);
            assert(cur.subrange(1, cur.len() as int) =~= formula@.subrange(i + 1, n as int));
        }
        let u = c as u32;
        if 48 <= u && u <= 57 {
            stack.push(ASTNode::Number(c == '1'));
        } else if (65 <= u && u <= 90) || (97 <= u && u <= 122) {
            stack.push(ASTNode::Variable(to_uppercase_char(c)));
        } else if c == '!' {
            let child = match stack.pop() {
                Some(node) => node,
                None => {
                    return Err(FormulaError::MissingOperand);
                },
            };
            stack.push(ASTNode::unary_op(UnaryOperator::Not, child));
        } else if c == '&' || c == '|' || c == '^' || c == '>' || c == '=' {
            let right = match stack.pop() {
                Some(node) => node,
                None => {
                    return Err(FormulaError::MissingOperand);
                },
            };
            let left = match stack.pop() {
                Some(node) => node,
                None => {
                    return Err(FormulaError::MissingOperand);
                },
            };
            let operator = if c == '&' {
                BinaryOperator::And
            } else if c == '|' {
                BinaryOperator::Or
            } else if c == '^' {
                BinaryOperator::Xor
            } else if c == '>' {
                BinaryOperator::Implies
            } else {
                BinaryOperator::Biconditional
            };
            stack.push(ASTNode::binary_op(operator, left, right));
        }
        i += 1;
    }
    proof {
        assert(formula@.subrange(n as int, n as int) =~= Seq::<char>::empty());
    }
    match stack.pop() {
        Some(node) => Ok(node),
        None => Err(FormulaError::EmptyFormula),
    }
}

/// Relies on String::push from std: it appends exactly the given character
/// to the end of the string.
#[verifier::external_body]
pub(crate) fn push_char(s: &mut String, c: char)
    ensures
        final(s)@ == old(s)@.push(c),
{
    s.push(c);
}

/// Appends the RPN text of a tree to an output string.
fn write_rpn(node: &ASTNode, out: &mut String)
    ensures
        final(out)@ == old(out)@ + rpn_of(*node),
    decreases node_size(*node),
{
    match node {
        ASTNode::Number(b) => {
            push_char(out, if *b { '1' } else { '0' });
        },
        ASTNode::Variable(c) => {
            push_char(out, *c);
        },
        ASTNode::UnaryOp { operator, child } => {
            write_rpn(child, out);
            push_char(out, '!');
        },
        ASTNode::BinaryOp { operator, left, right } => {
            write_rpn(left, out);
            write_rpn(right, out);
            let oc = match operator {
                BinaryOperator::And => '&',
                BinaryOperator::Or => '|',
                BinaryOperator::Xor => '^',
                BinaryOperator::Implies => '>',
                BinaryOperator::Biconditional => '=',
            };
            push_char(out, oc);
        },
    }
    proof {
        assert(out@ =~= old(out)@ + rpn_of(*node));
    }
}

/// True when the tree uses only the connectives NOT, AND and OR.
pub open spec fn only_not_and_or(node: ASTNode) -> bool
    decreases node,
{
    match node {
        ASTNode::Number(b) => true,
        ASTNode::Variable(c) => true,
        ASTNode::UnaryOp { operator, child } => only_not_and_or(*child),
        ASTNode::BinaryOp { operator, left, right } => (operator == BinaryOperator::And
            || operator == BinaryOperator::Or) && only_not_and_or(*left) && only_not_and_or(
            *right,
        ),
    }
}

/// True when the tree holds no XOR node. The elimination pass rewrites
/// IMPLIES and BICONDITIONAL but leaves an XOR subtree untouched, so only
/// XOR-free input is guaranteed to come out with NOT, AND and OR alone.
pub open spec fn xor_free(node: ASTNode) -> bool
    decreases node,
{
    match node {
        ASTNode::Number(b) => true,
        ASTNode::Variable(c) => true,
        ASTNode::UnaryOp { operator, child } => xor_free(*child),
        ASTNode::BinaryOp { operator, left, right } => operator != BinaryOperator::Xor
            && xor_free(*left) && xor_free(*right),
    }
}

/// The elimination of derived connectives: `IMPLIES(L, R)` becomes
/// `OR(NOT(L'), R')` and `BICONDITIONAL(L, R)` becomes
/// `AND(OR(NOT(L'), R'), OR(NOT(R'), L'))`, where `L'` and `R'` are the
/// rewritten operands; AND, OR and NOT keep their operator and recurse;
/// leaves and unrecognized shapes (an XOR node) pass through unchanged.
pub open spec fn normalize_spec(node: ASTNode) -> ASTNode
    decreases node,
{
    match node {
        ASTNode::BinaryOp { operator: BinaryOperator::Implies, left, right } => {
            let ln = normalize_spec(*left);
            let rn = normalize_spec(*right);
            ASTNode::BinaryOp {
                operator: BinaryOperator::Or,
                left: Box::new(
                    ASTNode::UnaryOp { operator: UnaryOperator::Not, child: Box::new(ln) },
                ),
                right: Box::new(rn),
            }
        },
        ASTNode::BinaryOp { operator: BinaryOperator::Biconditional, left, right } => {
            let ln = normalize_spec(*left);
            let rn = normalize_spec(*right);
            ASTNode::BinaryOp {
                operator: BinaryOperator::And,
                left: Box::new(
                    ASTNode::BinaryOp {
                        operator: BinaryOperator::Or,
                        left: Box::new(
                            ASTNode::UnaryOp {
                                operator: UnaryOperator::Not,
                                child: Box::new(ln),
                            },
                        ),
                        right: Box::new(rn),
                    },
                ),
                right: Box::new(
                    ASTNode::BinaryOp {
                        operator: BinaryOperator::Or,
                        left: Box::new(
                            ASTNode::UnaryOp {
                                operator: UnaryOperator::Not,
                                child: Box::new(rn),
                            },
                        ),
                        right: Box::new(ln),
                    },
                ),
            }
        },
        ASTNode::UnaryOp { operator, child } => ASTNode::UnaryOp {
            operator,
            child: Box::new(normalize_spec(*child)),
        },
        ASTNode::BinaryOp { operator: BinaryOperator::And, left, right } => ASTNode::BinaryOp {
            operator: BinaryOperator::And,
            left: Box::new(normalize_spec(*left)),
            right: Box::new(normalize_spec(*right)),
        },
        ASTNode::BinaryOp { operator: BinaryOperator::Or, left, right } => ASTNode::BinaryOp {
            operator: BinaryOperator::Or,
            left: Box::new(normalize_spec(*left)),
            right: Box::new(normalize_spec(*right)),
        },
        _ => node,
    }
}

/// Eliminating derived connectives preserves the truth value of the
/// formula under every assignment.
pub proof fn lemma_normalize_preserves_sem(node: ASTNode, env: Map<char, bool>)
    ensures
        sem(normalize_spec(node), env) == sem(node, env),
    decreases node,
{
    match node {
        ASTNode::BinaryOp { operator, left, right } => {
            lemma_normalize_preserves_sem(*left, env);
            lemma_normalize_preserves_sem(*right, env);
            match operator {
                BinaryOperator::Implies => {
                    reveal_with_fuel(sem, 3);
                    assert(sem(normalize_spec(node), env) == sem(node, env));
                },
                BinaryOperator::Biconditional => {
                    reveal_with_fuel(sem, 4);
                    assert(sem(normalize_spec(node), env) == sem(node, env));
                },
                _ => {},
            }
        },
        ASTNode::UnaryOp { operator, child } => {
            lemma_normalize_preserves_sem(*child, env);
        },
        _ => {},
    }
}

/// On XOR-free input, the elimination pass leaves only NOT, AND and OR.
pub proof fn lemma_normalize_only_not_and_or(node: ASTNode)
    requires
        xor_free(node),
    ensures
        only_not_and_or(normalize_spec(node)),
    decreases node,
{
    reveal_with_fuel(only_not_and_or, 4);
    match node {
        ASTNode::BinaryOp { operator, left, right } => {
            lemma_normalize_only_not_and_or(*left);
            lemma_normalize_only_not_and_or(*right);
        },
        ASTNode::UnaryOp { operator, child } => {
            lemma_normalize_only_not_and_or(*child);
        },
        _ => {},
    }
}

/// Rewrites IMPLIES and BICONDITIONAL away. `IMPLIES(L, R)` becomes
/// `OR(NOT(L'), R')`; `BICONDITIONAL(L, R)` becomes
/// `AND(OR(NOT(L'), R'), OR(NOT(R'), L'))`, its operands duplicated because
/// each appears twice; NOT, AND and OR recurse into their children; leaves
/// and XOR subtrees pass through unchanged. The result is equivalent to the
/// input under every assignment, and on XOR-free input it uses only NOT,
/// AND and OR.
pub fn normalize_ast(node: &ASTNode) -> (r: ASTNode)
    ensures
        r == normalize_spec(*node),
        forall|env: Map<char, bool>| sem(r, env) == sem(*node, env),
        xor_free(*node) ==> only_not_and_or(r),
    decreases node_size(*node),
{
    proof {
        assert forall|env: Map<char, bool>| sem(normalize_spec(*node), env) == sem(
            *node,
            env,
        ) by {
            lemma_normalize_preserves_sem(*node, env);
        }
        if xor_free(*node) {
            lemma_normalize_only_not_and_or(*node);
        }
    }
    match node {
        ASTNode::BinaryOp { operator: BinaryOperator::Implies, left, right } => {
            let ln = normalize_ast(left);
            let rn = normalize_ast(right);
            ASTNode::binary_op(
                BinaryOperator::Or,
                ASTNode::unary_op(UnaryOperator::Not, ln),
                rn,
            )
        },
        ASTNode::BinaryOp { operator: BinaryOperator::Biconditional, left, right } => {
            let ln = normalize_ast(left);
            let rn = normalize_ast(right);
            let ln2 = ln.duplicate();
            let rn2 = rn.duplicate();
            ASTNode::binary_op(
                BinaryOperator::And,
                ASTNode::binary_op(
                    BinaryOperator::Or,
                    ASTNode::unary_op(UnaryOperator::Not, ln),
                    rn,
                ),
                ASTNode::binary_op(
                    BinaryOperator::Or,
                    ASTNode::unary_op(UnaryOperator::Not, rn2),
                    ln2,
                ),
            )
        },
        ASTNode::UnaryOp { operator, child } => {
            ASTNode::unary_op(*operator, normalize_ast(child))
        },
        ASTNode::BinaryOp { operator: BinaryOperator::And, left, right } => {
            ASTNode::binary_op(BinaryOperator::And, normalize_ast(left), normalize_ast(right))
        },
        ASTNode::BinaryOp { operator: BinaryOperator::Or, left, right } => {
            ASTNode::binary_op(BinaryOperator::Or, normalize_ast(left), normalize_ast(right))
        },
        _ => node.duplicate(),
    }
}

/// True when every variable leaf is named by an uppercase letter: the
/// shape the parser itself produces, since it normalizes letter case.
pub open spec fn wf_variable_names(node: ASTNode) -> bool
    decreases node,
{
    match node {
        ASTNode::Number(b) => true,
        ASTNode::Variable(c) => is_uppercase_letter(c),
        ASTNode::UnaryOp { operator, child } => wf_variable_names(*child),
        ASTNode::BinaryOp { operator, left, right } => wf_variable_names(*left)
            && wf_variable_names(*right),
    }
}

/// Scanning the RPN text of a tree pushes exactly that tree: the parser
/// step relation over any following text and any starting stack.
proof fn lemma_parse_chars_prefix(t: ASTNode, rest: Seq<char>, stack: Seq<ASTNode>)
    requires
        wf_variable_names(t),
    ensures
        parse_chars(rpn_of(t) + rest, stack) == parse_chars(rest, stack.push(t)),
    decreases t,
{
    match t {
        ASTNode::Number(b) => {
            let c = if b { '1' } else { '0' };
            let s = rpn_of(t) + rest;
            assert(s[0] == c);
            assert(s.subrange(1, s.len() as int) =~= rest);
            assert(is_digit_char(c));
            assert((c == '1') == b);
        },
        ASTNode::Variable(c) => {
            let s = rpn_of(t) + rest;
            assert(s[0] == c);
            assert(s.subrange(1, s.len() as int) =~= rest);
            assert(!is_digit_char(c));
            assert(is_letter_char(c));
            assert(to_upper(c) == c);
        },
        ASTNode::UnaryOp { operator, child } => {
            let tail = seq!['!'] + rest;
            assert(rpn_of(t) + rest =~= rpn_of(*child) + tail);
            lemma_parse_chars_prefix(*child, tail, stack);
            assert(tail[0] == '!');
            assert(tail.subrange(1, tail.len() as int) =~= rest);
            assert(!is_digit_char('!'));
            assert(!is_letter_char('!'));
            let st = stack.push(*child);
            assert(st.last() == *child);
            assert(st.drop_last() =~= stack);
            assert(operator == UnaryOperator::Not);
            assert(st.drop_last().push(
                ASTNode::UnaryOp { operator: UnaryOperator::Not, child: Box::new(st.last()) },
            ) =~= stack.push(t));
        },
        ASTNode::BinaryOp { operator, left, right } => {
            let c = op_char(operator);
            let tail = seq![c] + rest;
            let mid = rpn_of(*right) + tail;
            assert(rpn_of(t) + rest =~= rpn_of(*left) + mid);
            lemma_parse_chars_prefix(*left, mid, stack);
            lemma_parse_chars_prefix(*right, tail, stack.push(*left));
            assert(tail[0] == c);
            assert(tail.subrange(1, tail.len() as int) =~= rest);
            assert(!is_digit_char(c));
            assert(!is_letter_char(c));
            assert(c != '!');
            assert(is_binary_op_char(c));
            assert(binop_of_char(c) == operator);
            let st = stack.push(*left).push(*right);
            assert(st.last() == *right);
            assert(st.drop_last() =~= stack.push(*left));
            assert(st.drop_last().last() == *left);
            assert(st.drop_last().drop_last() =~= stack);
            assert(st.drop_last().drop_last().push(
                ASTNode::BinaryOp {
                    operator: binop_of_char(c),
                    left: Box::new(st.drop_last().last()),
                    right: Box::new(st.last()),
                },
            ) =~= stack.push(t));
        },
    }
}

/// Parser/serializer round trip: parsing the serialized text of any tree
/// whose variables are uppercase letters yields that very tree, so in
/// particular a tree of the same truth value under every assignment.
pub proof fn lemma_parse_round_trip(t: ASTNode)
    requires
        wf_variable_names(t),
    ensures
        parse_spec(rpn_of(t)) == Ok::<ASTNode, FormulaError>(t),
{
    lemma_parse_chars_prefix(t, Seq::empty(), Seq::empty());
    assert(rpn_of(t) + Seq::<char>::empty() =~= rpn_of(t));
    let st = Seq::<ASTNode>::empty().push(t);
    assert(st.len() == 1 && st.last() == t);
}

/// Writes a tree back as RPN text: the exact inverse of the parser.
pub fn ast_to_rpn(node: &ASTNode) -> (r: String)
    ensures
        r@ == rpn_of(*node),
{
    let mut out = String::new();
    write_rpn(node, &mut out);
    proof {
        assert(out@ =~= rpn_of(*node));
    }
    out
}

} // verus!
