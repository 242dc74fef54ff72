use std::collections::HashMap;

use ry_script::ast::{value_reducer, ASTNode, Reducers, RuntimeValue};
use ry_script::error::{RuntimeError, ScriptError};
use ry_script::grammar::TerminalSymbolDef;
use ry_script::runner::{GrammarRule, ReducerArg, ScriptRunner};
use ry_script::token::{LexerTokenMap, ParserToken, Token};

#[derive(Debug, Clone, Copy, Hash, PartialEq, Eq)]
enum TokenType {
    Identifier,
    Assignment,
    Integer,
    Float,
    String,
    True,
    False,
    Plus,
    Minus,
    Multiply,
    LeftParenthese,
    RightParenthese,
    EOF,
}

impl ParserToken for TokenType {}

type RuntimeResult<T> = std::result::Result<T, ScriptRuntimeError>;

#[derive(Debug)]
enum ScriptRuntimeError {
    CannotCast(&'static str, String),
    NotImplemented(&'static str, String),
}

impl RuntimeError for ScriptRuntimeError {}

struct RuntimeEnvironment {
    variables: HashMap<String, Value>,
}

impl RuntimeEnvironment {
    fn new() -> Self {
        Self {
            variables: HashMap::new(),
        }
    }
}

#[derive(Debug, PartialEq, Clone)]
enum Value {
    Identifier(String),
    String(String),
    Integer(i64),
    Float(f64),
    Bool(bool),
}

impl RuntimeValue<TokenType> for Value {
    fn from_token(token: Token<TokenType>) -> Self {
        match token.kind {
            TokenType::String => Value::String(token.value),
            TokenType::Integer => Value::Integer(token.value.parse().unwrap()),
            TokenType::Float => Value::Float(token.value.parse().unwrap()),
            TokenType::True => Value::Bool(true),
            TokenType::False => Value::Bool(false),
            TokenType::Identifier => Value::Identifier(token.value),
            _ => panic!(
                "Unexpected token {:?} cannot be converted to a value",
                token.kind
            ),
        }
    }
}

impl Value {
    fn value<'a>(&'a self, env: &'a RuntimeEnvironment) -> &'a Value {
        match self {
            Value::Identifier(name) => match env.variables.get(name) {
                Some(value) => value,
                None => self,
            },
            _ => self,
        }
    }

    fn float(&self) -> RuntimeResult<f64> {
        match self {
            Value::Integer(val) => Ok(*val as f64),
            Value::Float(val) => Ok(*val),
            _ => Err(ScriptRuntimeError::CannotCast("float", format!("{:?}", self))),
        }
    }
}

impl RuntimeEnvironment {
    fn assign(&mut self, lhs: Value, rhs: Value) -> RuntimeResult<Value> {
        let rhs = rhs.value(self).clone();
        match lhs {
            Value::Identifier(key) => {
                self.variables.insert(key.clone(), rhs);
                Ok(Value::Identifier(key))
            }
            _ => Err(ScriptRuntimeError::NotImplemented(
                "Assignment",
                format!("{:?}", lhs),
            )),
        }
    }

    fn mul(&self, lhs: &Value, rhs: &Value) -> RuntimeResult<Value> {
        let lhs = lhs.value(self);
        let rhs = rhs.value(self);
        match lhs {
            Value::Integer(lhs) => match rhs {
                Value::Integer(rhs) => Ok(Value::Integer(lhs * rhs)),
                Value::Float(rhs) => Ok(Value::Float((*lhs as f64) * rhs)),
                _ => Err(ScriptRuntimeError::NotImplemented(
                    "Multiplication",
                    format!("{:?}", rhs),
                )),
            },
            Value::Float(lhs) => Ok(Value::Float(lhs * rhs.float()?)),
            _ => Err(ScriptRuntimeError::NotImplemented(
                "Multiplication",
                format!("{:?}", lhs),
            )),
        }
    }

    fn add(&self, lhs: &Value, rhs: &Value) -> RuntimeResult<Value> {
        let lhs = lhs.value(self);
        let rhs = rhs.value(self);
        match lhs {
            Value::Integer(lhs) => match rhs {
                Value::Integer(rhs) => Ok(Value::Integer(lhs + rhs)),
                Value::Float(rhs) => Ok(Value::Float((*lhs as f64) + rhs)),
                _ => Err(ScriptRuntimeError::NotImplemented(
                    "Addition",
                    format!("{:?}", rhs),
                )),
            },
            Value::Float(lhs) => Ok(Value::Float(lhs + rhs.float()?)),
            _ => Err(ScriptRuntimeError::NotImplemented(
                "Addition",
                format!("{:?}", lhs),
            )),
        }
    }

    fn negative(&self, val: &Value) -> RuntimeResult<Value> {
        let val = val.value(self);
        match val {
            Value::Integer(val) => Ok(Value::Integer(-val)),
            Value::Float(val) => Ok(Value::Float(-val)),
            Value::Bool(val) => Ok(Value::Bool(!val)),
            _ => Err(ScriptRuntimeError::NotImplemented(
                "Negative",
                format!("{:?}", val),
            )),
        }
    }
}

type Node = ASTNode<TokenType, Value>;
type Args = ReducerArg<TokenType, Value>;

struct SimpleScript;

fn values(first: Node, second: Node) -> (Value, Value) {
    match (first, second) {
        (ASTNode::Value(lhs), ASTNode::Value(rhs)) => (lhs, rhs),
        _ => panic!("Parse Error: Reducer expected value but non-value were given"),
    }
}

impl Reducers<TokenType, Value, ScriptRuntimeError, RuntimeEnvironment> for SimpleScript {
    fn reduce(&self, rule_number: usize, mut args: Args) -> Node {
        match rule_number {
            1 => panic!("Reach a reducer that should never be reached"),
            3 => ASTNode::ActionExpression("id = val", args),
            5 => ASTNode::ActionExpression("a + b", args),
            7 => ASTNode::ActionExpression("a * b", args),
            11 => args.nth_val(1),
            12 => ASTNode::ActionExpression("-a", args),
            18 => args.nth_val(1),
            _ => value_reducer(args),
        }
    }

    fn act(
        &self,
        env: &mut RuntimeEnvironment,
        name: &'static str,
        mut args: Args,
    ) -> Result<Node, ScriptRuntimeError> {
        match name {
            "id = val" => {
                let lhs = args.eval_skip(env, self, 1)?;
                let rhs = args.eval(env, self)?;
                let (lhs, rhs) = values(lhs, rhs);
                Ok(ASTNode::Value(env.assign(lhs, rhs)?))
            }
            "a + b" => {
                let lhs = args.eval_skip(env, self, 1)?;
                let rhs = args.eval(env, self)?;
                let (lhs, rhs) = values(lhs, rhs);
                Ok(ASTNode::Value(env.add(&lhs, &rhs)?))
            }
            "a * b" => {
                let lhs = args.eval_skip(env, self, 1)?;
                let rhs = args.eval(env, self)?;
                let (lhs, rhs) = values(lhs, rhs);
                Ok(ASTNode::Value(env.mul(&lhs, &rhs)?))
            }
            "-a" => match args.nth_eval(env, self, 1)? {
                ASTNode::Value(val) => Ok(ASTNode::Value(env.negative(&val)?)),
                _ => panic!("Parse Error: Reducer expected value but non-value were given"),
            },
            _ => panic!("unknown action {}", name),
        }
    }
}

fn init_simple_script_parser() -> ScriptRunner<TokenType, SimpleScript> {
    let token_map = LexerTokenMap {
        eof: TokenType::EOF,
        identifier: TokenType::Identifier,
        integer: TokenType::Integer,
        float: TokenType::Float,
        string: TokenType::String,
    };
    let operator = [
        TerminalSymbolDef("=", TokenType::Assignment),
        TerminalSymbolDef("+", TokenType::Plus),
        TerminalSymbolDef("-", TokenType::Minus),
        TerminalSymbolDef("*", TokenType::Multiply),
        TerminalSymbolDef("(", TokenType::LeftParenthese),
        TerminalSymbolDef(")", TokenType::RightParenthese),
    ];
    let keyword = [
        TerminalSymbolDef("true", TokenType::True),
        TerminalSymbolDef("false", TokenType::False),
    ];
    let grammars = vec![
        GrammarRule("B -> S EOF"),
        GrammarRule("S -> A1"),
        GrammarRule("S -> id = A1"),
        GrammarRule("A1 -> A2"),
        GrammarRule("A1 -> A1 + A2"),
        GrammarRule("A2 -> A3"),
        GrammarRule("A2 -> A2 * A3"),
        GrammarRule("A3 -> Val"),
        GrammarRule("Val -> str"),
        GrammarRule("Val -> num"),
        GrammarRule("Val -> + num"),
        GrammarRule("Val -> - num"),
        GrammarRule("num -> id"),
        GrammarRule("num -> int"),
        GrammarRule("num -> float"),
        GrammarRule("num -> true"),
        GrammarRule("num -> false"),
        GrammarRule("Val -> ( A1 )"),
    ];
    match ScriptRunner::new(grammars, token_map, &operator, &keyword, SimpleScript) {
        Ok(runner) => runner,
        Err(e) => panic!("grammar does not compile: {:?}", e),
    }
}

#[test]
fn test_addition() -> Result<(), ScriptError<ScriptRuntimeError>> {
    let mut runner = init_simple_script_parser();
    let mut env = RuntimeEnvironment::new();
    assert_eq!(runner.run(&mut env, "1+1")?, Value::Integer(2));
    assert_eq!(runner.run(&mut env, "1+2.5")?, Value::Float(3.5));
    assert_eq!(runner.run(&mut env, "1.5+40")?, Value::Float(41.5));
    assert_eq!(runner.run(&mut env, "1.5+5.4")?, Value::Float(6.9));
    Ok(())
}

#[test]
fn test_multiplication_and_addition() -> Result<(), ScriptError<ScriptRuntimeError>> {
    let mut runner = init_simple_script_parser();
    let mut env = RuntimeEnvironment::new();
    assert_eq!(runner.run(&mut env, "1+2*3")?, Value::Integer(7));
    assert_eq!(runner.run(&mut env, "2*3+4")?, Value::Integer(10));
    Ok(())
}

#[test]
fn test_parenthesis_priority() -> Result<(), ScriptError<ScriptRuntimeError>> {
    let mut runner = init_simple_script_parser();
    let mut env = RuntimeEnvironment::new();
    assert_eq!(runner.run(&mut env, "(1+2)*3")?, Value::Integer(9));
    assert_eq!(runner.run(&mut env, "2*(3+4)")?, Value::Integer(14));
    Ok(())
}

#[test]
fn test_assignment() -> Result<(), ScriptError<ScriptRuntimeError>> {
    let mut runner = init_simple_script_parser();
    let mut env = RuntimeEnvironment::new();
    assert_eq!(
        runner.run(&mut env, "foo = 10")?,
        Value::Identifier("foo".to_string())
    );
    let id = Value::Identifier("foo".to_string());
    assert_eq!(id.value(&env), &Value::Integer(10));
    match runner.run(&mut env, "foo = foo * foo")? {
        Value::Identifier(name) => {
            let value = Value::Identifier(name);
            assert_eq!(value.value(&env), &Value::Integer(100));
        }
        _ => panic!(),
    };
    assert_eq!(runner.run(&mut env, "-foo + -20")?, Value::Integer(-120));
    Ok(())
}
