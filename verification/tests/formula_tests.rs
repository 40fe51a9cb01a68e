use boolrpn::ast::{
    ast_to_rpn, normalize_ast, parse_boolean_rpn, ASTNode, BinaryOperator, FormulaError,
    UnaryOperator,
};
use boolrpn::rpn::{conjunctive_normal_form, eval_formula, negation_normal_form};
use boolrpn::truth_table::truth_table;

#[test]
fn test_eval_formula() {
    assert_eq!(eval_formula("10&"), Ok(false));
    assert_eq!(eval_formula("11=!"), Ok(false));
    assert_eq!(eval_formula("10|"), Ok(true));
    assert_eq!(eval_formula("11>"), Ok(true));
    assert_eq!(eval_formula("10="), Ok(false));
    assert_eq!(eval_formula("1011||="), Ok(true));
}

#[test]
fn test_negation_normal_form() {
    assert_eq!(negation_normal_form("AB&!").unwrap(), "A!B!|");
    assert_eq!(negation_normal_form("AB|!").unwrap(), "A!B!&");
    assert_eq!(negation_normal_form("AB>").unwrap(), "A!B|");
    assert_eq!(negation_normal_form("AB=").unwrap(), "A!B|B!A|&");
    assert_eq!(negation_normal_form("AB|C&!").unwrap(), "A!B!&C!|");
    assert_eq!(negation_normal_form("AB&!C|").unwrap(), "A!B!|C|");
}

#[test]
fn test_conjunctive_normal_form() {
    assert_eq!(conjunctive_normal_form("AB&C|").unwrap(), "AC|BC|&");
    assert_eq!(conjunctive_normal_form("ABC&|").unwrap(), "AB|AC|&");
}

#[test]
fn test_eval_remaining_operators() {
    assert_eq!(eval_formula("10^"), Ok(true));
    assert_eq!(eval_formula("11^"), Ok(false));
    assert_eq!(eval_formula("10>"), Ok(false));
    assert_eq!(eval_formula("01>"), Ok(true));
    assert_eq!(eval_formula("1!"), Ok(false));
    assert_eq!(eval_formula("1!!"), Ok(true));
}

#[test]
fn test_eval_errors() {
    assert_eq!(eval_formula(""), Err(FormulaError::EmptyFormula));
    assert_eq!(eval_formula("1&"), Err(FormulaError::MissingOperand));
    assert_eq!(eval_formula("!"), Err(FormulaError::MissingOperand));
    assert_eq!(eval_formula("11?"), Err(FormulaError::UnknownOperator));
}

#[test]
fn test_parse_errors_and_tolerance() {
    assert!(matches!(parse_boolean_rpn(""), Err(FormulaError::EmptyFormula)));
    assert!(matches!(parse_boolean_rpn("!"), Err(FormulaError::MissingOperand)));
    assert!(matches!(parse_boolean_rpn("1&"), Err(FormulaError::MissingOperand)));
    // Unrecognized characters are ignored by the parser.
    let tolerated = parse_boolean_rpn("1 ?").unwrap();
    assert_eq!(tolerated, ASTNode::Number(true));
    // Extra stack entries under the final top are discarded.
    let extra = parse_boolean_rpn("101|").unwrap();
    assert_eq!(ast_to_rpn(&extra), "01|");
}

#[test]
fn test_parser_normalizes_letter_case() {
    let tree = parse_boolean_rpn("ab&").unwrap();
    assert_eq!(ast_to_rpn(&tree), "AB&");
}

#[test]
fn test_round_trip_of_directly_built_tree() {
    let tree = ASTNode::binary_op(
        BinaryOperator::Implies,
        ASTNode::unary_op(UnaryOperator::Not, ASTNode::variable('A')),
        ASTNode::binary_op(
            BinaryOperator::Xor,
            ASTNode::number(true),
            ASTNode::variable('B'),
        ),
    );
    let text = ast_to_rpn(&tree);
    assert_eq!(text, "A!1B^>");
    let reparsed = parse_boolean_rpn(&text).unwrap();
    assert_eq!(reparsed, tree);
}

#[test]
fn test_normalize_eliminates_derived_connectives() {
    let implies = parse_boolean_rpn("AB>").unwrap();
    assert_eq!(ast_to_rpn(&normalize_ast(&implies)), "A!B|");
    let bicond = parse_boolean_rpn("AB=").unwrap();
    assert_eq!(ast_to_rpn(&normalize_ast(&bicond)), "A!B|B!A|&");
    // An XOR subtree is an unrecognized shape and passes through unchanged.
    let xor = parse_boolean_rpn("AB^").unwrap();
    assert_eq!(ast_to_rpn(&normalize_ast(&xor)), "AB^");
}

#[test]
fn test_normalize_preserves_truth_tables() {
    let original = truth_table("AB>").unwrap();
    let tree = parse_boolean_rpn("AB>").unwrap();
    let rewritten_text = ast_to_rpn(&normalize_ast(&tree));
    let rewritten = truth_table(&rewritten_text).unwrap();
    assert_eq!(original.variables, rewritten.variables);
    assert_eq!(original.rows, rewritten.rows);
}

#[test]
fn test_truth_table_shape_and_rows() {
    let table = truth_table("AB&").unwrap();
    assert_eq!(table.variables, vec!['A', 'B']);
    assert_eq!(
        table.rows,
        vec![
            vec![false, false, false],
            vec![false, true, false],
            vec![true, false, false],
            vec![true, true, true],
        ]
    );
}

#[test]
fn test_truth_table_prefixes_distinct_and_exhaustive() {
    let table = truth_table("AB|C&").unwrap();
    let k = table.variables.len();
    assert_eq!(k, 3);
    assert_eq!(table.rows.len(), 8);
    for row in &table.rows {
        assert_eq!(row.len(), k + 1);
    }
    for i in 0..table.rows.len() {
        for j in 0..table.rows.len() {
            if i != j {
                assert_ne!(table.rows[i][..k], table.rows[j][..k]);
            }
        }
    }
    // Each row's prefix reads as its own index in binary.
    for (i, row) in table.rows.iter().enumerate() {
        let mut index = 0usize;
        for bit in &row[..k] {
            index = index * 2 + if *bit { 1 } else { 0 };
        }
        assert_eq!(index, i);
    }
}

#[test]
fn test_truth_table_collects_letters_in_first_occurrence_order() {
    let table = truth_table("BA&B|").unwrap();
    assert_eq!(table.variables, vec!['B', 'A']);
    assert_eq!(table.rows.len(), 4);
}

#[test]
fn test_truth_table_without_letters_is_refused() {
    assert!(matches!(
        truth_table("10&"),
        Err(FormulaError::NoFreeVariables)
    ));
    assert!(matches!(truth_table(""), Err(FormulaError::NoFreeVariables)));
}

#[test]
fn test_normal_forms_propagate_parse_failures() {
    assert_eq!(negation_normal_form(""), Err(FormulaError::EmptyFormula));
    assert_eq!(negation_normal_form("&"), Err(FormulaError::MissingOperand));
    assert_eq!(conjunctive_normal_form(""), Err(FormulaError::EmptyFormula));
    assert_eq!(conjunctive_normal_form("!"), Err(FormulaError::MissingOperand));
}

#[test]
fn test_cnf_on_nested_formula() {
    // ((A | B) & C) | D distributes to (A | B | D) & (C | D).
    assert_eq!(conjunctive_normal_form("AB|C&D|").unwrap(), "AB|D|CD|&");
}
