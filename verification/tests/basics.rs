use graph_calc::GraphStore;
use graph_calc::Instr;
use graph_calc::LexerTokenType;
use graph_calc::ParseTree;
use graph_calc::VarStore;
use graph_calc::lex;

#[test]
fn integration() {
    let tokens = lex("sin(2+1)").unwrap();

    let a = GraphStore::new();

    let tree: ParseTree = ParseTree::new(&tokens, &a).unwrap();

    println!("{:?}", tokens);
    println!("{:?}", tree);
}

#[test]
fn lex_simple_expression() {
    let tokens = lex("2+3*4").unwrap();
    assert_eq!(tokens.len(), 5);
    assert!(matches!(&tokens[0].token_type, LexerTokenType::Num(cs) if cs == &vec!['2']));
    assert!(matches!(&tokens[1].token_type, LexerTokenType::Add));
    assert!(matches!(&tokens[2].token_type, LexerTokenType::Num(cs) if cs == &vec!['3']));
    assert!(matches!(&tokens[3].token_type, LexerTokenType::Mul));
    assert!(matches!(&tokens[4].token_type, LexerTokenType::Num(cs) if cs == &vec!['4']));
    assert!(tokens.iter().all(|t| t.bracket_depth == 0));
}

#[test]
fn lex_tracks_bracket_depth() {
    let tokens = lex("(2+3)*4").unwrap();
    assert_eq!(tokens.len(), 5);
    assert_eq!(tokens[0].bracket_depth, 1);
    assert_eq!(tokens[1].bracket_depth, 1);
    assert_eq!(tokens[2].bracket_depth, 1);
    assert_eq!(tokens[3].bracket_depth, 0);
    assert_eq!(tokens[4].bracket_depth, 0);
}

#[test]
fn lex_skips_spaces() {
    let tokens = lex(" 2 +  3 ").unwrap();
    assert_eq!(tokens.len(), 3);
    assert!(matches!(&tokens[1].token_type, LexerTokenType::Add));
}

#[test]
fn lex_reclassifies_lone_x() {
    let tokens = lex("2*x+y").unwrap();
    assert_eq!(tokens.len(), 5);
    assert!(matches!(&tokens[2].token_type, LexerTokenType::X));
    assert!(matches!(&tokens[4].token_type, LexerTokenType::Var(c) if *c == 'y'));
}

#[test]
fn lex_dotted_literal_gains_leading_zero() {
    let tokens = lex(".5").unwrap();
    assert_eq!(tokens.len(), 1);
    assert!(matches!(&tokens[0].token_type, LexerTokenType::Num(cs) if cs == &vec!['0', '.', '5']));
}

#[test]
fn lex_rejects_unbalanced_open() {
    assert!(lex("(2+3").is_err());
}

#[test]
fn lex_rejects_unbalanced_close() {
    assert!(lex("2+3)").is_err());
}

#[test]
fn lex_rejects_close_before_open() {
    assert!(lex(")2+3(").is_err());
}

#[test]
fn lex_rejects_double_dot_literal() {
    assert!(lex("1.2.3").is_err());
}

#[test]
fn lex_rejects_int_with_wrong_group_count() {
    assert!(lex("int(1,2)").is_err());
    assert!(lex("int(1,2,3,4)").is_err());
}

#[test]
fn lex_function_token_holds_groups() {
    let tokens = lex("log(8,2)").unwrap();
    assert_eq!(tokens.len(), 1);
    match &tokens[0].token_type {
        LexerTokenType::Func(groups, name) => {
            assert_eq!(name, &vec!['l', 'o', 'g']);
            assert_eq!(groups.len(), 2);
            assert_eq!(groups[0].len(), 1);
            assert_eq!(groups[1].len(), 1);
        },
        other => panic!("expected a function token, got {:?}", other),
    }
}

#[test]
fn lex_splits_leading_variables_before_function() {
    // an identifier run hiding a registered name: the leading characters
    // become variables, the suffix names the function
    let tokens = lex("absin(1)").unwrap();
    assert_eq!(tokens.len(), 3);
    assert!(matches!(&tokens[0].token_type, LexerTokenType::Var(c) if *c == 'a'));
    assert!(matches!(&tokens[1].token_type, LexerTokenType::Var(c) if *c == 'b'));
    assert!(matches!(&tokens[2].token_type, LexerTokenType::Func(_, name) if name == &vec!['s', 'i', 'n']));
}

#[test]
fn lex_registry_order_beats_position() {
    // "log" stands later in "sinlog" than "sin" does, but the registry is
    // tried in order {ln, log, sin, ...}, so "log" wins
    let tokens = lex("sinlog(1)").unwrap();
    assert_eq!(tokens.len(), 4);
    assert!(matches!(&tokens[0].token_type, LexerTokenType::Var(c) if *c == 's'));
    assert!(matches!(&tokens[1].token_type, LexerTokenType::Var(c) if *c == 'i'));
    assert!(matches!(&tokens[2].token_type, LexerTokenType::Var(c) if *c == 'n'));
    assert!(matches!(&tokens[3].token_type, LexerTokenType::Func(_, name) if name == &vec!['l', 'o', 'g']));
}

#[test]
fn parse_rejects_adjacent_leaves() {
    let tokens = lex("2 3").unwrap();
    let graphs = GraphStore::new();
    assert!(ParseTree::new(&tokens, &graphs).is_err());
}

#[test]
fn parse_rejects_dangling_operator() {
    let tokens = lex("2+").unwrap();
    let graphs = GraphStore::new();
    assert!(ParseTree::new(&tokens, &graphs).is_err());
}

#[test]
fn parse_rejects_unknown_curve_reference() {
    let tokens = lex("int(g(x),0,1)").unwrap();
    let graphs = GraphStore::new();
    assert!(ParseTree::new(&tokens, &graphs).is_err());
}

#[test]
fn evaluate_emits_postfix_program() {
    let tokens = lex("2+3*4").unwrap();
    let graphs = GraphStore::new();
    let vars = VarStore::new();
    let tree = ParseTree::new(&tokens, &graphs).unwrap();
    let prog = tree.evaluate(false, &vars).unwrap();
    assert_eq!(prog.len(), 5);
    assert!(matches!(&prog[0], Instr::PushNum(cs) if cs == &vec!['2']));
    assert!(matches!(&prog[1], Instr::PushNum(cs) if cs == &vec!['3']));
    assert!(matches!(&prog[2], Instr::PushNum(cs) if cs == &vec!['4']));
    assert!(matches!(&prog[3], Instr::Mul));
    assert!(matches!(&prog[4], Instr::Add));
}

#[test]
fn evaluate_rejects_unbound_variable() {
    let tokens = lex("a+1").unwrap();
    let graphs = GraphStore::new();
    let vars = VarStore::new();
    let tree = ParseTree::new(&tokens, &graphs).unwrap();
    assert!(tree.evaluate(false, &vars).is_err());
}

#[test]
fn evaluate_rejects_free_variable_without_binding() {
    let tokens = lex("x+1").unwrap();
    let graphs = GraphStore::new();
    let vars = VarStore::new();
    let tree = ParseTree::new(&tokens, &graphs).unwrap();
    assert!(tree.evaluate(false, &vars).is_err());
    assert!(tree.evaluate(true, &vars).is_ok());
}

#[test]
fn parse_rejects_function_beside_a_value() {
    // no operator connects the literal and the call
    let tokens = lex("2sin(3)").unwrap();
    let graphs = GraphStore::new();
    assert!(ParseTree::new(&tokens, &graphs).is_err());
}

#[test]
fn parse_accepts_plain_expression() {
    let tokens = lex("1-2-3").unwrap();
    let graphs = GraphStore::new();
    assert!(ParseTree::new(&tokens, &graphs).is_ok());
}
