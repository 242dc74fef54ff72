use vstd::prelude::*;

use crate::runner::ReducerArg;
use crate::token::Token;

verus! {

/// A runtime value that a raw token can be turned into.
pub trait RuntimeValue<T>: Sized {
    /// The value that `token` stands for. An implementation states it; where it
    /// does not, the value is left unknown to proofs about generic values.
    closed spec fn from_token_spec(token: Token<T>) -> Self {
        arbitrary()
    }

    fn from_token(token: Token<T>) -> (r: Self)
        ensures
            r == Self::from_token_spec(token),
    ;
}

/// The reduction callbacks of a language.
pub trait Reducers<T, R, E, ENV> {
    /// The node that a reduction of rule `rule_number` over `args` gives. Here
    /// and in `acted`, an implementation states the result; where it does not,
    /// the result is left unknown to proofs about generic reducers.
    closed spec fn reduced(&self, rule_number: usize, args: Seq<ASTNode<T, R>>) -> ASTNode<T, R> {
        arbitrary()
    }

    /// The result of the deferred computation `name` over `args` in `env`, and
    /// the environment that it leaves.
    closed spec fn acted(&self, env: ENV, name: &'static str, args: Seq<ASTNode<T, R>>) -> (
        Result<ASTNode<T, R>, E>,
        ENV,
    ) {
        arbitrary()
    }

    /// The node that stands for a reduction of rule `rule_number` (numbered
    /// from 1) over the nodes of its right-hand side. The start rule, number 1,
    /// is never reduced.
    fn reduce(&self, rule_number: usize, args: ReducerArg<T, R>) -> (r: ASTNode<T, R>)
        requires
            rule_number >= 2,
        ensures
            r == self.reduced(rule_number, args.nodes()),
    ;

    /// Runs the deferred computation `name` over the nodes that its reducer kept.
    fn act(&self, env: &mut ENV, name: &'static str, args: ReducerArg<T, R>) -> (r: Result<
        ASTNode<T, R>,
        E,
    >)
        ensures
            (r, *final(env)) == self.acted(*old(env), name, args.nodes()),
    ;
}

/// What evaluating `node` in `env` gives, and the environment it leaves: a value
/// stays as it is, a token becomes the value it stands for, and a deferred
/// computation is run by the reducers.
pub open spec fn evaluated<T, R: RuntimeValue<T>, E, ENV, L: Reducers<T, R, E, ENV>>(
    node: ASTNode<T, R>,
    env: ENV,
    reducers: L,
) -> (Result<ASTNode<T, R>, E>, ENV) {
    match node {
        ASTNode::Value(v) => (Ok(ASTNode::Value(v)), env),
        ASTNode::Token(t) => (Ok(ASTNode::Value(R::from_token_spec(t))), env),
        ASTNode::ActionExpression(name, args) => reducers.acted(env, name, args.nodes()),
    }
}

/// A node of the syntax tree: a raw token, a deferred computation over the
/// nodes that it holds, or an evaluated value.
pub enum ASTNode<T, R> {
    Token(Token<T>),
    ActionExpression(&'static str, ReducerArg<T, R>),
    Value(R),
}

impl<T, R: RuntimeValue<T>> ASTNode<T, R> {
    /// Forces a node to a value: a token through `RuntimeValue::from_token`, a
    /// deferred computation through the reducers' `act`; a value stays as it is.
    pub fn evaluate<E, ENV, L: Reducers<T, R, E, ENV>>(self, env: &mut ENV, reducers: &L) -> (r:
        Result<ASTNode<T, R>, E>)
        ensures
            (r, *final(env)) == evaluated(self, *old(env), *reducers),
            self is Value ==> r == Ok::<ASTNode<T, R>, E>(self) && *final(env) == *old(env),
    {
        match self {
            ASTNode::ActionExpression(name, args) => reducers.act(env, name, args),
            ASTNode::Token(token) => Ok(ASTNode::Value(R::from_token(token))),
            ASTNode::Value(value) => Ok(ASTNode::Value(value)),
        }
    }
}

/// The reducer that passes its first node on unchanged.
pub fn value_reducer<T, R>(args: ReducerArg<T, R>) -> (r: ASTNode<T, R>)
    requires
        args.nodes().len() > 0,
    ensures
        r == args.nodes()[0],
{
    let mut args = args;
    args.val()
}

} // verus!
