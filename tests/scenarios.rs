use std::cell::Cell;

use ry_script::ast::{value_reducer, ASTNode, Reducers, RuntimeValue};
use ry_script::error::{
    GrammarError, LexerError, ParseError, RuntimeError, ScriptError, SyntaxError,
};
use ry_script::grammar::{split_spaces_of, GrammarSet, TerminalSymbolDef};
use ry_script::lexer::Lexer;
use ry_script::lrparser::{LRParser, TransitionAction};
use ry_script::runner::{GrammarRule, ReducerArg, ScriptRunner};
use ry_script::token::{LexerTokenMap, ParserToken, SpecialTokenMap, Token, Tokens};

#[derive(Debug, Clone, Copy, Hash, PartialEq, Eq)]
enum Kind {
    Identifier,
    Integer,
    Float,
    Str,
    Plus,
    Star,
    LeftParen,
    RightParen,
    Assign,
    Semicolon,
    Arrow,
    Minus,
    Yes,
    Eof,
}

impl ParserToken for Kind {}

#[derive(Debug, PartialEq)]
struct Num(i64);

impl RuntimeValue<Kind> for Num {
    fn from_token(token: Token<Kind>) -> Self {
        Num(token.value.parse().unwrap())
    }
}

#[derive(Debug, PartialEq)]
struct Fault;

impl RuntimeError for Fault {}

type Node = ASTNode<Kind, Num>;
type Args = ReducerArg<Kind, Num>;

fn kinds() -> LexerTokenMap<Kind> {
    LexerTokenMap {
        eof: Kind::Eof,
        identifier: Kind::Identifier,
        integer: Kind::Integer,
        float: Kind::Float,
        string: Kind::Str,
    }
}

fn number(node: Node) -> i64 {
    match node {
        ASTNode::Value(Num(n)) => n,
        _ => panic!("expected a value"),
    }
}

fn binary(args: &mut Args, env: &mut u32, lang: &Arith) -> Result<(i64, i64), Fault> {
    let lhs = number(args.eval_skip(env, lang, 1)?);
    let rhs = number(args.eval(env, lang)?);
    Ok((lhs, rhs))
}

/// An arithmetic language that counts its evaluated actions in the environment,
/// and records each reduced rule.
struct Arith {
    reduced: Cell<Vec<usize>>,
    rules: Vec<&'static str>,
}

impl Reducers<Kind, Num, Fault, u32> for Arith {
    fn reduce(&self, rule_number: usize, mut args: Args) -> Node {
        let mut seen = self.reduced.take();
        seen.push(rule_number);
        self.reduced.set(seen);
        match self.rules[rule_number - 1] {
            "S -> E EOF" => panic!("the start rule was reduced"),
            "E -> E + E" | "E -> E + T" => ASTNode::ActionExpression("add", args),
            "T -> T * F" => ASTNode::ActionExpression("mul", args),
            "E -> int * int" => ASTNode::ActionExpression("pending", args),
            "E -> ( int )" => ASTNode::ActionExpression("fail", args),
            "F -> ( E )" => {
                args.skip();
                args.val_skip(1)
            }
            _ => value_reducer(args),
        }
    }

    fn act(&self, env: &mut u32, name: &'static str, mut args: Args) -> Result<Node, Fault> {
        *env += 1;
        match name {
            "pending" => return Ok(ASTNode::ActionExpression("pending", args)),
            "fail" => return Err(Fault),
            _ => {}
        }
        let (lhs, rhs) = binary(&mut args, env, self)?;
        match name {
            "add" => Ok(ASTNode::Value(Num(lhs + rhs))),
            "mul" => Ok(ASTNode::Value(Num(lhs * rhs))),
            _ => Err(Fault),
        }
    }
}

fn runner(rules: Vec<&'static str>) -> ScriptRunner<Kind, Arith> {
    let operator = [
        TerminalSymbolDef("+", Kind::Plus),
        TerminalSymbolDef("*", Kind::Star),
        TerminalSymbolDef("(", Kind::LeftParen),
        TerminalSymbolDef(")", Kind::RightParen),
    ];
    let grammars = rules.iter().map(|r| GrammarRule(r)).collect();
    let lang = Arith {
        reduced: Cell::new(Vec::new()),
        rules,
    };
    match ScriptRunner::new(grammars, kinds(), &operator, &[], lang) {
        Ok(r) => r,
        Err(e) => panic!("grammar does not compile: {:?}", e),
    }
}

fn sum_grammar() -> Vec<&'static str> {
    vec!["S -> E EOF", "E -> E + E", "E -> int"]
}

fn product_grammar() -> Vec<&'static str> {
    vec![
        "S -> E EOF",
        "E -> E + T",
        "E -> T",
        "T -> T * F",
        "T -> F",
        "F -> ( E )",
        "F -> int",
    ]
}

#[test]
fn sum_of_three_parses_and_evaluates() {
    let mut r = runner(sum_grammar());
    let mut env = 0u32;
    let v: Result<Num, ScriptError<Fault>> = r.run(&mut env, "1+2+3");
    assert_eq!(v.unwrap(), Num(6));
    assert_eq!(env, 2);
}

#[test]
fn parentheses_are_skipped_around_the_inner_value() {
    let mut r = runner(product_grammar());
    let mut env = 0u32;
    let v: Result<Num, ScriptError<Fault>> = r.run(&mut env, "(1+2)*3");
    assert_eq!(v.unwrap(), Num(9));
    let v: Result<Num, ScriptError<Fault>> = r.run(&mut env, "1+2*3");
    assert_eq!(v.unwrap(), Num(7));
}

#[test]
fn start_rule_is_never_reduced() {
    let corpus = ["1", "1+2", "(1)", "((4))*5+6", "2*3*4", "1 + 2 # note"];
    for input in corpus {
        let mut r = runner(product_grammar());
        let mut env = 0u32;
        let v: Result<Num, ScriptError<Fault>> = r.run(&mut env, input);
        assert!(v.is_ok(), "{} was not accepted", input);
    }
}

#[test]
fn unexpected_symbol_names_symbol_and_state() {
    let mut r = runner(sum_grammar());
    let mut env = 0u32;
    let v: Result<Num, ScriptError<Fault>> = r.run(&mut env, "1 2");
    match v {
        Err(ScriptError::Parse(ParseError::UnexpectedSymbol(name, state))) => {
            assert_eq!(name, "int");
            assert!(state > 0);
        }
        other => panic!("unexpected result {:?}", other.is_ok()),
    }
}

#[test]
fn input_that_ends_early_is_a_syntax_error() {
    let mut r = runner(sum_grammar());
    let mut env = 0u32;
    let v: Result<Num, ScriptError<Fault>> = r.run(&mut env, "1+");
    assert!(matches!(v, Err(ScriptError::Parse(_)) | Err(ScriptError::Syntax(_))));
}

#[test]
fn lexer_errors_reach_the_runner() {
    let mut r = runner(sum_grammar());
    let mut env = 0u32;
    let v: Result<Num, ScriptError<Fault>> = r.run(&mut env, "1 @ 2");
    assert!(matches!(
        v,
        Err(ScriptError::Lexer(LexerError::UnexpectedToken('@')))
    ));
}

fn statement_lexer() -> Lexer<Kind> {
    let signs = SpecialTokenMap::new(
        &[
            TerminalSymbolDef("=", Kind::Assign),
            TerminalSymbolDef(";", Kind::Semicolon),
            TerminalSymbolDef("-", Kind::Minus),
            TerminalSymbolDef("->", Kind::Arrow),
        ],
        &[TerminalSymbolDef("yes", Kind::Yes)],
    );
    Lexer::new(kinds(), signs)
}

fn lexed(input: &str) -> Result<Vec<(Kind, String)>, LexerError> {
    let mut lexer = statement_lexer();
    lexer
        .parse(input)
        .map(|ts| ts.0.into_iter().map(|t| (t.kind, t.value)).collect())
}

#[test]
fn lexes_statements_into_tokens() {
    let tokens = lexed("foo = 1; bar = \"hi\";").unwrap();
    let expected = vec![
        (Kind::Identifier, "foo".to_string()),
        (Kind::Assign, "=".to_string()),
        (Kind::Integer, "1".to_string()),
        (Kind::Semicolon, ";".to_string()),
        (Kind::Identifier, "bar".to_string()),
        (Kind::Assign, "=".to_string()),
        (Kind::Str, "hi".to_string()),
        (Kind::Semicolon, ";".to_string()),
        (Kind::Eof, "".to_string()),
    ];
    assert_eq!(tokens, expected);
}

#[test]
fn unterminated_string_is_a_lexical_error() {
    assert_eq!(lexed("\"abc"), Err(LexerError::Error("Unexpected EOF")));
}

#[test]
fn empty_input_is_a_lexical_error() {
    assert_eq!(lexed(""), Err(LexerError::Error("Empty input string")));
}

#[test]
fn unknown_character_is_reported() {
    assert_eq!(lexed("a $"), Err(LexerError::UnexpectedToken('$')));
}

#[test]
fn lexes_numbers_keywords_comments_and_long_signs() {
    let tokens = lexed("x_1 -> 2.50 yes - # rest\n7").unwrap();
    let expected = vec![
        (Kind::Identifier, "x_1".to_string()),
        (Kind::Arrow, "->".to_string()),
        (Kind::Float, "2.50".to_string()),
        (Kind::Yes, "yes".to_string()),
        (Kind::Minus, "-".to_string()),
        (Kind::Integer, "7".to_string()),
        (Kind::Eof, "".to_string()),
    ];
    assert_eq!(tokens, expected);
}

#[test]
fn identifiers_may_start_with_underscore_and_hold_letters() {
    let tokens = lexed("_a\u{e9}b").unwrap();
    let expected = vec![
        (Kind::Identifier, "_a".to_string()),
        (Kind::Identifier, "\u{e9}b".to_string()),
        (Kind::Eof, "".to_string()),
    ];
    assert_eq!(tokens, expected);
}

#[test]
fn special_token_map_lookups() {
    let signs = SpecialTokenMap::new(
        &[
            TerminalSymbolDef("=", Kind::Assign),
            TerminalSymbolDef("=", Kind::Arrow),
            TerminalSymbolDef("+", Kind::Plus),
        ],
        &[TerminalSymbolDef("yes", Kind::Yes)],
    );
    assert_eq!(signs.get_sign_type("="), Some(Kind::Arrow));
    assert_eq!(signs.get_sign_type("+"), Some(Kind::Plus));
    assert_eq!(signs.get_sign_type("=="), None);
    assert!(signs.is_valid_sign("+"));
    assert!(!signs.is_valid_sign("-"));
    assert!(signs.is_valid_sign_character('='));
    assert!(!signs.is_valid_sign_character('y'));
    assert_eq!(signs.get_keyword_type("yes"), Some(Kind::Yes));
    assert!(signs.is_keyword("yes"));
    assert!(!signs.is_keyword("no"));
}

fn terminals() -> Vec<TerminalSymbolDef<Kind>> {
    vec![
        TerminalSymbolDef("int", Kind::Integer),
        TerminalSymbolDef("+", Kind::Plus),
        TerminalSymbolDef("EOF", Kind::Eof),
    ]
}

fn compile(rules: &[&'static str]) -> Result<GrammarSet<Kind>, GrammarError> {
    let grammars: Vec<GrammarRule> = rules.iter().map(|r| GrammarRule(r)).collect();
    GrammarSet::new(&grammars, &terminals(), Kind::Eof)
}

#[test]
fn grammar_rules_compile_in_order() {
    let gs = compile(&["S -> E EOF", "E -> E + E", "E -> int", "E ->"]).unwrap();
    assert_eq!(gs.grammars.len(), 4);
    assert_eq!(gs.non_terminal_symbols, vec!["S", "E"]);
    assert_eq!(gs.grammars[1].rule_number, 2);
    assert_eq!(gs.grammars[1].rvals.len(), 3);
    assert_eq!(gs.grammars[3].rvals.len(), 0);
    assert_eq!(gs.find_grammars(gs.grammars[1].lval), vec![1, 2, 3]);
}

#[test]
fn forward_references_to_non_terminals_are_legal() {
    assert!(compile(&["S -> A EOF", "A -> B", "B -> int"]).is_ok());
}

#[test]
fn grammar_errors_name_the_fault() {
    assert_eq!(compile(&["S -> X EOF"]).err(), Some(GrammarError::InvalidGrammarText("S -> X EOF")));
    assert_eq!(compile(&["S E EOF"]).err(), Some(GrammarError::InvalidGrammarText("S E EOF")));
    assert_eq!(compile(&["int -> EOF"]).err(), Some(GrammarError::InvalidSymbol("int")));
    assert_eq!(compile(&["S -> int  EOF"]).err(), Some(GrammarError::InvalidGrammarText("S -> int  EOF")));
}

#[test]
fn rule_text_splits_at_single_spaces() {
    assert_eq!(split_spaces_of("A -> b  c"), vec!["A", "->", "b", "", "c"]);
    assert_eq!(split_spaces_of(""), vec![""]);
}

#[test]
fn empty_grammar_has_no_table() {
    let gs = compile(&[]).unwrap();
    assert!(matches!(
        LRParser::lr0(gs),
        Err(GrammarError::Error("Grammar set does not have a starter grammar"))
    ));
}

#[test]
fn table_is_built_the_same_way_twice() {
    let rules = ["S -> E EOF", "E -> E + E", "E -> int"];
    let first = LRParser::lr0(compile(&rules).unwrap()).ok().unwrap();
    let second = LRParser::lr0(compile(&rules).unwrap()).ok().unwrap();
    assert_eq!(format!("{:?}", first.table), format!("{:?}", second.table));
    assert!(first.table.len() >= 5);
}

#[test]
fn table_actions_of_the_sum_grammar() {
    let p = LRParser::lr0(compile(&["S -> E EOF", "E -> E + E", "E -> int"]).unwrap())
        .ok()
        .unwrap();
    let int = ry_script::grammar::Symbol::Terminal(Kind::Integer);
    let eof = ry_script::grammar::Symbol::Terminal(Kind::Eof);
    let e = ry_script::grammar::Symbol::NonTerminal(1);
    let shift = p.get_action(0, &int).unwrap();
    assert!(matches!(shift, TransitionAction::Shift(_)));
    let goto = p.get_action(0, &e).unwrap();
    let after_e = match goto {
        TransitionAction::Goto(s) => s,
        _ => panic!(),
    };
    assert_eq!(p.get_action(after_e, &eof).unwrap(), TransitionAction::Accept);
    let after_int = match shift {
        TransitionAction::Shift(s) => s,
        _ => panic!(),
    };
    assert_eq!(p.get_action(after_int, &eof).unwrap(), TransitionAction::Reduce(3));
    assert_eq!(p.get_action(999, &eof), Err(ParseError::StateDoesNotExist(999)));
    assert_eq!(
        p.get_action(0, &eof),
        Err(ParseError::UnexpectedSymbol("EOF".to_string(), 0))
    );
}

#[test]
fn evaluating_a_value_returns_it_unchanged() {
    let lang = Arith {
        reduced: Cell::new(Vec::new()),
        rules: vec![],
    };
    let mut env = 5u32;
    let node: Node = ASTNode::Value(Num(42));
    match node.evaluate(&mut env, &lang) {
        Ok(ASTNode::Value(n)) => assert_eq!(n, Num(42)),
        _ => panic!(),
    }
    assert_eq!(env, 5);
    let token: Node = ASTNode::Token(Token {
        kind: Kind::Integer,
        value: "17".to_string(),
    });
    assert_eq!(number(token.evaluate(&mut env, &lang).ok().unwrap()), 17);
}

#[test]
fn compiled_rules_render_back_to_their_text() {
    let rules = ["S -> E EOF", "E -> E + E", "E -> int", "E ->"];
    let gs = compile(&rules).unwrap();
    for (i, text) in rules.iter().enumerate() {
        assert_eq!(gs.render_rule(i), text.to_string());
    }
}

fn total_conflicts(rules: &[&'static str]) -> usize {
    let p = LRParser::lr0(compile(rules).unwrap()).ok().unwrap();
    (0..p.table.len()).map(|s| p.conflicts_in(s)).sum()
}

#[test]
fn overwritten_reduce_cells_are_counted() {
    assert_eq!(total_conflicts(&["S -> E EOF", "E -> int"]), 0);
    assert!(total_conflicts(&["S -> E EOF", "E -> E + E", "E -> int"]) >= 1);
}

#[test]
fn a_result_that_is_not_a_value_is_reported() {
    let mut r = runner(vec!["S -> E EOF", "E -> int * int"]);
    let mut env = 0u32;
    let v: Result<Num, ScriptError<Fault>> = r.run(&mut env, "2*3");
    assert!(matches!(v, Err(ScriptError::Parse(ParseError::IncorrectParseResult))));
}

#[test]
fn reducer_errors_are_runtime_errors() {
    let mut r = runner(vec!["S -> E EOF", "E -> ( int )"]);
    let mut env = 0u32;
    let v: Result<Num, ScriptError<Fault>> = r.run(&mut env, "(4)");
    assert!(matches!(v, Err(ScriptError::Runtime(Fault))));
}

#[test]
fn tokens_without_an_end_are_a_syntax_error() {
    let r = runner(sum_grammar());
    let int = |v: &str| Token {
        kind: Kind::Integer,
        value: v.to_string(),
    };
    let none: Result<Node, ScriptError<Fault>> = r.lr_parse::<Num, Fault, u32>(Tokens(vec![]));
    assert!(matches!(none, Err(ScriptError::Syntax(SyntaxError::SyntaxError))));
    let one: Result<Node, ScriptError<Fault>> =
        r.lr_parse::<Num, Fault, u32>(Tokens(vec![int("1")]));
    assert!(matches!(one, Err(ScriptError::Syntax(SyntaxError::SyntaxError))));
}
