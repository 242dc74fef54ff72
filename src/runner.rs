use vstd::prelude::*;

use crate::ast::{evaluated, ASTNode, Reducers, RuntimeValue};
use crate::error::{GrammarError, ParseError, ScriptError, SyntaxError};
use crate::grammar::{
    symbol_text, compiled, distinct_names, first_pieces, rule_error, rule_ok, terms_view, GrammarSet, Symbol,
    TerminalSymbolDef,
};
use crate::lexer::{lex, Lexer};
use crate::lrparser::{built, LRParser, TransitionAction};
use crate::token::{
    kind_eq_ok, tokens_view, LexerTokenMap, ParserToken, SpecialTokenMap, Token, Tokens,
};

verus! {

/// The text of one grammar rule, `lval -> name name ...`.
#[derive(Clone, Copy)]
pub struct GrammarRule(pub &'static str);

/// The nodes of one reduction, taken in the order of the rule's right-hand side.
pub struct ReducerArg<T, R> {
    args: Vec<ASTNode<T, R>>,
}

/// The nodes left after dropping the first `n`, or none if there are fewer.
pub open spec fn after<A>(s: Seq<A>, n: int) -> Seq<A> {
    if n < s.len() {
        s.subrange(n, s.len() as int)
    } else {
        Seq::empty()
    }
}

impl<T, R> ReducerArg<T, R> {
    /// The nodes not yet taken, in order.
    pub closed spec fn nodes(&self) -> Seq<ASTNode<T, R>> {
        self.args@
    }

    pub(crate) fn new(args: Vec<ASTNode<T, R>>) -> (r: Self)
        ensures
            r.nodes() == args@,
    {
        ReducerArg { args }
    }

    /// Takes the next node as it is.
    pub fn val(&mut self) -> (r: ASTNode<T, R>)
        requires
            old(self).nodes().len() > 0,
        ensures
            r == old(self).nodes()[0],
            final(self).nodes() == old(self).nodes().drop_first(),
    {
        self.args.remove(0)
    }

    /// Drops the next node, if there is one.
    pub fn skip(&mut self)
        ensures
            final(self).nodes() == after(old(self).nodes(), 1),
    {
        if self.args.len() > 0 {
            self.args.remove(0);
        }
        assert(final(self).nodes() =~= after(old(self).nodes(), 1));
    }

    /// Drops the next `n` nodes, or all if there are fewer.
    pub fn skip_n(&mut self, n: usize)
        ensures
            final(self).nodes() == after(old(self).nodes(), n as int),
    {
        let mut i: usize = 0;
        assert(self.args@ =~= after(old(self).nodes(), 0));
        while i < n
            invariant
                i <= n,
                self.nodes() == after(old(self).nodes(), i as int),
            decreases n - i,
        {
            self.skip();
            assert(self.nodes() =~= after(old(self).nodes(), i + 1));
            i = i + 1;
        }
    }

    /// Drops `n` nodes, then takes the next one as it is.
    fn nth_node(&mut self, n: usize) -> (r: ASTNode<T, R>)
        requires
            n < old(self).nodes().len(),
        ensures
            r == old(self).nodes()[n as int],
            final(self).nodes() == after(old(self).nodes(), n + 1),
    {
        self.skip_n(n);
        let r = self.val();
        assert(self.nodes() =~= after(old(self).nodes(), n + 1));
        r
    }

    /// Drops `n` nodes, then takes the next one as it is.
    pub fn nth_val(&mut self, n: usize) -> (r: ASTNode<T, R>)
        requires
            n < old(self).nodes().len(),
        ensures
            r == old(self).nodes()[n as int],
            final(self).nodes() == after(old(self).nodes(), n + 1),
    {
        self.nth_node(n)
    }

    /// Takes the next node as it is, then drops `n` nodes.
    pub fn val_skip(&mut self, n: usize) -> (r: ASTNode<T, R>)
        requires
            old(self).nodes().len() > 0,
        ensures
            r == old(self).nodes()[0],
            final(self).nodes() == after(old(self).nodes(), n + 1),
    {
        let node = self.val();
        self.skip_n(n);
        assert(self.nodes() =~= after(old(self).nodes(), n + 1));
        node
    }
}

impl<T, R: RuntimeValue<T>> ReducerArg<T, R> {
    /// Takes the next node and evaluates it.
    pub fn eval<E, ENV, L: Reducers<T, R, E, ENV>>(&mut self, env: &mut ENV, reducers: &L) -> (r:
        Result<ASTNode<T, R>, E>)
        requires
            old(self).nodes().len() > 0,
        ensures
            final(self).nodes() == old(self).nodes().drop_first(),
            (r, *final(env)) == evaluated(old(self).nodes()[0], *old(env), *reducers),
    {
        self.val().evaluate(env, reducers)
    }

    /// Drops `n` nodes, then takes the next one and evaluates it.
    pub fn nth_eval<E, ENV, L: Reducers<T, R, E, ENV>>(
        &mut self,
        env: &mut ENV,
        reducers: &L,
        n: usize,
    ) -> (r: Result<ASTNode<T, R>, E>)
        requires
            n < old(self).nodes().len(),
        ensures
            final(self).nodes() == after(old(self).nodes(), n + 1),
            (r, *final(env)) == evaluated(old(self).nodes()[n as int], *old(env), *reducers),
    {
        self.nth_node(n).evaluate(env, reducers)
    }

    /// Takes the next node and evaluates it, then drops `n` nodes.
    pub fn eval_skip<E, ENV, L: Reducers<T, R, E, ENV>>(
        &mut self,
        env: &mut ENV,
        reducers: &L,
        n: usize,
    ) -> (r: Result<ASTNode<T, R>, E>)
        requires
            old(self).nodes().len() > 0,
        ensures
            final(self).nodes() == after(old(self).nodes(), n + 1),
            (r, *final(env)) == evaluated(old(self).nodes()[0], *old(env), *reducers),
    {
        let node = self.eval(env, reducers);
        self.skip_n(n);
        assert(self.nodes() =~= after(old(self).nodes(), n + 1));
        node
    }
}

/// How the driver ends: with the root of the syntax tree, or with an error.
pub enum ParseRun<T, R> {
    Accepted(ASTNode<T, R>),
    /// The tokens ended before the input was accepted.
    Syntax,
    /// The table has no row for the state.
    NoState(usize),
    /// The state's row has no action for the symbol.
    NoAction(Symbol<T>, usize),
    /// A reduce action names no rule.
    NoRule(usize),
    /// The stacks do not fit the action; the message says how.
    Stuck(&'static str),
}

/// How the driver ends from the state stack `states` and the node stack `nodes`,
/// with `toks[pos]` the current token, within `fuel` steps. A shift pushes the
/// token's node; a reduce hands the rule's nodes, in the order of its right-hand
/// side, to the reducers and pushes the node they give.
pub open spec fn drive<T: ParserToken, R, E, ENV, L: Reducers<T, R, E, ENV>>(
    p: LRParser<T>,
    reducers: L,
    states: Seq<usize>,
    nodes: Seq<ASTNode<T, R>>,
    toks: Seq<Token<T>>,
    pos: int,
    fuel: nat,
) -> ParseRun<T, R>
    decreases fuel,
{
    if fuel == 0 {
        ParseRun::Stuck("parse did not finish")
    } else if states.len() == 0 {
        ParseRun::Stuck("the state stack is empty")
    } else {
        let state = states.last();
        let sym = Symbol::Terminal(toks[pos].kind);
        if state >= p.n_states() {
            ParseRun::NoState(state)
        } else {
            match p.action(state as int, sym) {
                None => ParseRun::NoAction(sym, state),
                Some(TransitionAction::Shift(t)) => {
                    if pos + 1 >= toks.len() {
                        ParseRun::Syntax
                    } else {
                        drive(
                            p,
                            reducers,
                            states.push(t),
                            nodes.push(ASTNode::Token(toks[pos])),
                            toks,
                            pos + 1,
                            (fuel - 1) as nat,
                        )
                    }
                },
                Some(TransitionAction::Reduce(r)) => {
                    if r == 0 || r > p.grammar_set.grammars@.len() {
                        ParseRun::NoRule(r)
                    } else {
                        let g = p.grammar_set.grammars@[r - 1];
                        let n = g.rvals@.len();
                        if n > nodes.len() {
                            ParseRun::Stuck("stack does not have enough items")
                        } else if r == 1 {
                            ParseRun::Stuck("the start rule cannot be reduced")
                        } else {
                            let keep = nodes.len() - n;
                            let node = reducers.reduced(r, nodes.subrange(keep, nodes.len() as int));
                            let rest = states.subrange(0, states.len() - n);
                            match p.action(rest.last() as int, g.lval) {
                                Some(TransitionAction::Goto(t)) => drive(
                                    p,
                                    reducers,
                                    rest.push(t),
                                    nodes.subrange(0, keep).push(node),
                                    toks,
                                    pos,
                                    (fuel - 1) as nat,
                                ),
                                _ => ParseRun::Stuck("goto action does not exist"),
                            }
                        }
                    }
                },
                Some(TransitionAction::Accept) => {
                    if nodes.len() == 1 {
                        ParseRun::Accepted(nodes[0])
                    } else {
                        ParseRun::Stuck("accepted but ast stack does not hold one item")
                    }
                },
                Some(TransitionAction::Goto(_)) => ParseRun::Stuck("Unexpected goto action"),
            }
        }
    }
}

/// How the driver ends on these tokens, from state 0 with no nodes.
pub open spec fn parse_run<T: ParserToken, R, E, ENV, L: Reducers<T, R, E, ENV>>(
    p: LRParser<T>,
    reducers: L,
    toks: Seq<Token<T>>,
) -> ParseRun<T, R> {
    if toks.len() == 0 {
        ParseRun::Syntax
    } else {
        drive(p, reducers, seq![0usize], Seq::empty(), toks, 0, usize::MAX as nat)
    }
}

/// Whether `r` is the driver's result for the run `out`: the root, or the error
/// that stopped it.
pub open spec fn run_result<T: ParserToken, R, E>(
    p: LRParser<T>,
    out: ParseRun<T, R>,
    r: Result<ASTNode<T, R>, ScriptError<E>>,
) -> bool {
    match out {
        ParseRun::Accepted(node) => r == Ok::<ASTNode<T, R>, ScriptError<E>>(node),
        ParseRun::Syntax => r == Err::<ASTNode<T, R>, ScriptError<E>>(
            ScriptError::Syntax(SyntaxError::SyntaxError),
        ),
        ParseRun::NoState(s) => r == Err::<ASTNode<T, R>, ScriptError<E>>(
            ScriptError::Parse(ParseError::StateDoesNotExist(s)),
        ),
        ParseRun::NoAction(sym, s) => r matches Err(
            ScriptError::Parse(ParseError::UnexpectedSymbol(name, t)),
        ) && t == s && name@ == symbol_text(p.grammar_set.terms(), p.grammar_set.nts(), sym),
        ParseRun::NoRule(k) => r == Err::<ASTNode<T, R>, ScriptError<E>>(
            ScriptError::Parse(ParseError::GrammarDoesNotExist(k)),
        ),
        ParseRun::Stuck(m) => r == Err::<ASTNode<T, R>, ScriptError<E>>(
            ScriptError::Parse(ParseError::Error(m)),
        ),
    }
}

/// What `run` gives for a parse that ended as `out`: the value of the evaluated
/// root, or the error; and the environment that evaluation leaves.
pub open spec fn run_value<T: ParserToken, R: RuntimeValue<T>, E, ENV, L: Reducers<T, R, E, ENV>>(
    p: LRParser<T>,
    reducers: L,
    out: ParseRun<T, R>,
    env: ENV,
    r: Result<R, ScriptError<E>>,
    final_env: ENV,
) -> bool {
    match out {
        ParseRun::Accepted(root) => {
            let (ev, env2) = evaluated(root, env, reducers);
            &&& final_env == env2
            &&& r == match ev {
                Ok(ASTNode::Value(v)) => Ok::<R, ScriptError<E>>(v),
                Ok(_) => Err(ScriptError::Parse(ParseError::IncorrectParseResult)),
                Err(e) => Err(ScriptError::Runtime(e)),
            }
        },
        _ => {
            &&& final_env == env
            &&& exists|e: ScriptError<E>|
                r == Err::<R, ScriptError<E>>(e) && run_result(
                    p,
                    out,
                    Err::<ASTNode<T, R>, ScriptError<E>>(e),
                )
        },
    }
}

/// The terminals of the lexeme classes: `id`, `str`, `int`, `float` and `EOF`.
pub open spec fn lexeme_terminals<T>(m: LexerTokenMap<T>) -> Seq<TerminalSymbolDef<T>> {
    seq![
        TerminalSymbolDef("id", m.identifier),
        TerminalSymbolDef("str", m.string),
        TerminalSymbolDef("int", m.integer),
        TerminalSymbolDef("float", m.float),
        TerminalSymbolDef("EOF", m.eof),
    ]
}

/// The terminals of a runner's grammar: the lexeme classes, then the
/// operators, then the keywords.
pub open spec fn runner_terminals<T>(
    m: LexerTokenMap<T>,
    operator: Seq<TerminalSymbolDef<T>>,
    keyword: Seq<TerminalSymbolDef<T>>,
) -> Seq<TerminalSymbolDef<T>> {
    lexeme_terminals(m) + operator + keyword
}

/// A lexer, the action table of a grammar, and the grammar's reducers.
pub struct ScriptRunner<T, L> {
    lexer: Lexer<T>,
    lr_parser: LRParser<T>,
    reducers: L,
}

impl<T: ParserToken, L> ScriptRunner<T, L> {
    /// The runner's scanner.
    pub closed spec fn lexer(&self) -> Lexer<T> {
        self.lexer
    }

    /// The runner's grammar and action table.
    pub closed spec fn parser(&self) -> LRParser<T> {
        self.lr_parser
    }

    /// The runner's reducers.
    pub closed spec fn reducers(&self) -> L {
        self.reducers
    }

    /// The runner's scanner is well formed.
    pub closed spec fn wf(&self) -> bool {
        self.lexer.wf()
    }

    /// Builds a runner. The terminals are `id`, `str`, `int`, `float` and `EOF`
    /// for the lexeme classes, then the operators, then the keywords.
    pub fn new(
        grammars: Vec<GrammarRule>,
        token_map: LexerTokenMap<T>,
        operator: &[TerminalSymbolDef<T>],
        keyword: &[TerminalSymbolDef<T>],
        reducers: L,
    ) -> (r: Result<ScriptRunner<T, L>, GrammarError>)
        requires
            kind_eq_ok::<T>(),
        ensures
            ({
                let terminals = runner_terminals(token_map, operator@, keyword@);
                let terms = terms_view(terminals);
                let nts = distinct_names(first_pieces(grammars@));
                let all_ok = forall|i: int|
                    0 <= i < grammars@.len() ==> rule_ok(terms, nts, #[trigger] grammars@[i].0@);
                &&& r is Ok <==> (grammars@.len() > 0 && all_ok)
                &&& r matches Ok(s) ==> {
                    &&& s.wf()
                    &&& compiled(grammars@, terminals, token_map.eof, s.parser().grammar_set)
                    &&& built(s.parser().grammar_set, s.parser())
                    &&& s.lexer().kinds() == token_map
                    &&& s.lexer().signs().operators() == terms_view(operator@)
                    &&& s.lexer().signs().keywords() == terms_view(keyword@)
                }
                &&& r matches Err(e) ==> if all_ok {
                    e == GrammarError::Error("Grammar set does not have a starter grammar")
                } else {
                    exists|i: int|
                        0 <= i < grammars@.len() && !rule_ok(terms, nts, #[trigger] grammars@[i].0@)
                            && rule_error(terms, nts, grammars@[i].0, e) && forall|j: int|
                            0 <= j < i ==> rule_ok(terms, nts, #[trigger] grammars@[j].0@)
                }
            }),
    {
        let mut terminal_symbols: Vec<TerminalSymbolDef<T>> = Vec::new();
        terminal_symbols.push(TerminalSymbolDef("id", token_map.identifier));
        terminal_symbols.push(TerminalSymbolDef("str", token_map.string));
        terminal_symbols.push(TerminalSymbolDef("int", token_map.integer));
        terminal_symbols.push(TerminalSymbolDef("float", token_map.float));
        terminal_symbols.push(TerminalSymbolDef("EOF", token_map.eof));
        let ghost base = terminal_symbols@;
        assert(base =~= lexeme_terminals(token_map));
        let mut i: usize = 0;
        while i < operator.len()
            invariant
                i <= operator@.len(),
                terminal_symbols@ == base + operator@.subrange(0, i as int),
            decreases operator.len() - i,
        {
            terminal_symbols.push(operator[i]);
            assert(terminal_symbols@ =~= base + operator@.subrange(0, i + 1));
            i = i + 1;
        }
        assert(operator@.subrange(0, operator@.len() as int) =~= operator@);
        let ghost with_ops = terminal_symbols@;
        let mut i: usize = 0;
        while i < keyword.len()
            invariant
                i <= keyword@.len(),
                terminal_symbols@ == with_ops + keyword@.subrange(0, i as int),
            decreases keyword.len() - i,
        {
            terminal_symbols.push(keyword[i]);
            assert(terminal_symbols@ =~= with_ops + keyword@.subrange(0, i + 1));
            i = i + 1;
        }
        assert(keyword@.subrange(0, keyword@.len() as int) =~= keyword@);
        assert(terminal_symbols@ == runner_terminals(token_map, operator@, keyword@));
        let grammar_set = match GrammarSet::new(&grammars, &terminal_symbols, token_map.eof) {
            Ok(g) => g,
            Err(e) => {
                return Err(e);
            },
        };
        let ghost gs = grammar_set;
        let lr_parser = match LRParser::lr0(grammar_set) {
            Ok(p) => p,
            Err(e) => {
                return Err(e);
            },
        };
        let special_token_map = SpecialTokenMap::new(operator, keyword);
        let runner = ScriptRunner { lexer: Lexer::new(token_map, special_token_map), lr_parser, reducers };
        assert(runner.parser().grammar_set == gs);
        Ok(runner)
    }

    /// Lexes, parses and evaluates `input`.
    pub fn run<R: RuntimeValue<T>, E, ENV>(&mut self, env: &mut ENV, input: &str) -> (r: Result<
        R,
        ScriptError<E>,
    >) where L: Reducers<T, R, E, ENV>
        requires
            kind_eq_ok::<T>(),
            old(self).wf(),
        ensures
            final(self).wf(),
            final(self).lexer().signs() == old(self).lexer().signs(),
            final(self).lexer().kinds() == old(self).lexer().kinds(),
            final(self).parser() == old(self).parser(),
            final(self).reducers() == old(self).reducers(),
            match lex(old(self).lexer().signs(), old(self).lexer().kinds(), input@) {
                Err(e) => r == Err::<R, ScriptError<E>>(ScriptError::Lexer(e)) && *final(env)
                    == *old(env),
                Ok(lexed) => exists|toks: Seq<Token<T>>|
                    #[trigger] tokens_view(toks) == lexed && run_value(
                        old(self).parser(),
                        old(self).reducers(),
                        parse_run(old(self).parser(), old(self).reducers(), toks),
                        *old(env),
                        r,
                        *final(env),
                    ),
            },
    {
        let tokens = match self.lexer.parse(input) {
            Ok(t) => t,
            Err(e) => {
                return Err(ScriptError::Lexer(e));
            },
        };
        let ghost toks = tokens.0@;
        let ghost out = parse_run(self.lr_parser, self.reducers, toks);
        let node = match self.lr_parse(tokens) {
            Ok(n) => n,
            Err(e) => {
                return Err(e);
            },
        };
        let r = match node.evaluate(env, &self.reducers) {
            Ok(ASTNode::Value(value)) => Ok(value),
            Ok(_) => Err(ScriptError::Parse(ParseError::IncorrectParseResult)),
            Err(e) => Err(ScriptError::Runtime(e)),
        };
        r
    }

    /// Drives the action table over the tokens, building the syntax tree
    /// through the reducers.
    pub fn lr_parse<R, E, ENV>(&self, tokens: Tokens<T>) -> (r: Result<ASTNode<T, R>, ScriptError<E>>) where
        L: Reducers<T, R, E, ENV>,
        requires
            kind_eq_ok::<T>(),
        ensures
            run_result(self.parser(), parse_run(self.parser(), self.reducers(), tokens.0@), r),
    {
        let ghost toks = tokens.0@;
        let ghost goal = parse_run(self.lr_parser, self.reducers, toks);
        let mut remaining = tokens.0;
        let n = remaining.len();
        let mut rest: Vec<Token<T>> = Vec::new();
        while remaining.len() > 0
            invariant
                n == toks.len(),
                rest@.len() + remaining@.len() == n,
                remaining@ == toks.subrange(0, remaining@.len() as int),
                forall|j: int| 0 <= j < rest@.len() ==> #[trigger] rest@[j] == toks[n - 1 - j],
            decreases remaining.len(),
        {
            match remaining.pop() {
                Some(t) => {
                    rest.push(t);
                },
                None => {},
            }
            assert(remaining@ =~= toks.subrange(0, remaining@.len() as int));
        }
        let mut token = match rest.pop() {
            Some(t) => t,
            None => {
                return Err(ScriptError::Syntax(SyntaxError::SyntaxError));
            },
        };
        let mut pos: usize = 0;
        let mut parse_stack: Vec<usize> = Vec::new();
        parse_stack.push(0);
        let mut ast_stack: Vec<ASTNode<T, R>> = Vec::new();
        let mut fuel: usize = usize::MAX;
        assert(parse_stack@ =~= seq![0usize]);
        assert(ast_stack@ =~= Seq::<ASTNode<T, R>>::empty());
        while fuel > 0
            invariant
                kind_eq_ok::<T>(),
                toks == tokens.0@,
                goal == parse_run(self.lr_parser, self.reducers, toks),
                n == toks.len(),
                pos < n,
                rest@.len() == n - pos - 1,
                forall|j: int| 0 <= j < rest@.len() ==> #[trigger] rest@[j] == toks[n - 1 - j],
                token == toks[pos as int],
                parse_stack@.len() >= 1,
                ast_stack@.len() + 1 == parse_stack@.len(),
                goal == drive(
                    self.lr_parser,
                    self.reducers,
                    parse_stack@,
                    ast_stack@,
                    toks,
                    pos as int,
                    fuel as nat,
                ),
            decreases fuel,
        {
            let state = parse_stack[parse_stack.len() - 1];
            let ghost sym = Symbol::Terminal(toks[pos as int].kind);
            assert(parse_stack@.last() == state);
            let action = match self.lr_parser.get_action(state, &Symbol::Terminal(token.kind)) {
                Ok(a) => a,
                Err(e) => {
                    return Err(ScriptError::Parse(e));
                },
            };
            assert(self.lr_parser.action(state as int, sym) == Some(action));
            match action {
                TransitionAction::Shift(next) => {
                    parse_stack.push(next);
                    ast_stack.push(ASTNode::Token(token));
                    token = match rest.pop() {
                        Some(t) => t,
                        None => {
                            return Err(ScriptError::Syntax(SyntaxError::SyntaxError));
                        },
                    };
                    pos = pos + 1;
                },
                TransitionAction::Reduce(rule_number) => {
                    let grammars = &self.lr_parser.grammar_set.grammars;
                    if rule_number == 0 || rule_number > grammars.len() {
                        return Err(ScriptError::Parse(ParseError::GrammarDoesNotExist(rule_number)));
                    }
                    let grammar = &grammars[rule_number - 1];
                    let len = grammar.rvals.len();
                    if len > ast_stack.len() {
                        return Err(ScriptError::Parse(ParseError::Error("stack does not have enough items")));
                    }
                    if rule_number == 1 {
                        return Err(ScriptError::Parse(ParseError::Error("the start rule cannot be reduced")));
                    }
                    let keep = ast_stack.len() - len;
                    let args = ast_stack.split_off(keep);
                    parse_stack.truncate(parse_stack.len() - len);
                    let node = self.reducers.reduce(rule_number, ReducerArg::new(args));
                    ast_stack.push(node);
                    let top = parse_stack[parse_stack.len() - 1];
                    match self.lr_parser.get_action(top, &grammar.lval) {
                        Ok(TransitionAction::Goto(next)) => {
                            parse_stack.push(next);
                        },
                        _ => {
                            return Err(ScriptError::Parse(ParseError::Error("goto action does not exist")));
                        },
                    }
                },
                TransitionAction::Accept => {
                    if ast_stack.len() == 1 {
                        match ast_stack.pop() {
                            Some(node) => {
                                return Ok(node);
                            },
                            None => {},
                        }
                    }
                    return Err(ScriptError::Parse(ParseError::Error("accepted but ast stack does not hold one item")));
                },
                TransitionAction::Goto(_) => {
                    return Err(ScriptError::Parse(ParseError::Error("Unexpected goto action")));
                },
            }
            fuel = fuel - 1;
        }
        Err(ScriptError::Parse(ParseError::Error("parse did not finish")))
    }
}

} // verus!
