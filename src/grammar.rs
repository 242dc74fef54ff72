use vstd::prelude::*;
use vstd::string::*;

use crate::error::GrammarError;
use crate::runner::GrammarRule;
use crate::text::{chars_equal, chars_of};
use crate::token::{kind_eq_ok, lookup, same_kind, ParserToken};

verus! {

/// A grammar symbol. A non-terminal is named by its index in the grammar's list of
/// non-terminal names; a terminal by its token kind.
#[derive(Clone, Copy, Debug)]
pub enum Symbol<T> {
    NonTerminal(usize),
    Terminal(T),
}

/// Compares two symbols.
pub fn same_symbol<T: ParserToken>(a: &Symbol<T>, b: &Symbol<T>) -> (r: bool)
    requires
        kind_eq_ok::<T>(),
    ensures
        r == (*a == *b),
{
    match (a, b) {
        (Symbol::NonTerminal(x), Symbol::NonTerminal(y)) => *x == *y,
        (Symbol::Terminal(x), Symbol::Terminal(y)) => same_kind(x, y),
        _ => false,
    }
}

/// One production `lval -> rvals`, numbered from 1 in the order given.
pub struct Grammar<T> {
    pub rule_number: usize,
    pub lval: Symbol<T>,
    pub rvals: Vec<Symbol<T>>,
}

/// The text of a terminal symbol in grammar rules, and its token kind.
#[derive(Clone, Copy)]
pub struct TerminalSymbolDef<T>(pub &'static str, pub T);

/// The pieces of `s` between single spaces, as `str::split(" ")` gives them.
pub open spec fn split_spaces(s: Seq<char>) -> Seq<Seq<char>>
    decreases s.len(),
{
    if s.len() == 0 {
        seq![Seq::empty()]
    } else {
        let p = split_spaces(s.drop_last());
        if s.last() == ' ' {
            p.push(Seq::empty())
        } else {
            p.update(p.len() - 1, p.last().push(s.last()))
        }
    }
}

/// Splitting gives at least one piece.
pub proof fn lemma_split_nonempty(s: Seq<char>)
    ensures
        split_spaces(s).len() >= 1,
    decreases s.len(),
{
    if s.len() > 0 {
        lemma_split_nonempty(s.drop_last());
    }
}

/// Splits `text` at each single space.
pub fn split_spaces_of(text: &'static str) -> (r: Vec<&'static str>)
    ensures
        r@.map_values(|p: &'static str| p@) == split_spaces(text@),
{
    let cs = chars_of(text);
    let n = cs.len();
    let mut done: Vec<&'static str> = Vec::new();
    let mut start: usize = 0;
    let mut i: usize = 0;
    assert(text@.subrange(0, 0) =~= Seq::<char>::empty());
    assert(done@.map_values(|p: &'static str| p@).push(text@.subrange(0, 0)) =~= seq![
        Seq::<char>::empty(),
    ]);
    while i < n
        invariant
            n == text@.len(),
            cs@ == text@,
            start <= i <= n,
            done@.map_values(|p: &'static str| p@).push(text@.subrange(start as int, i as int))
                == split_spaces(text@.subrange(0, i as int)),
        decreases n - i,
    {
        let ghost prefix = text@.subrange(0, i + 1);
        assert(prefix.drop_last() =~= text@.subrange(0, i as int));
        assert(prefix.last() == cs@[i as int]);
        let ghost old_map = done@.map_values(|p: &'static str| p@);
        if cs[i] == ' ' {
            let piece = text.substring_char(start, i);
            done.push(piece);
            assert(done@.map_values(|p: &'static str| p@) =~= old_map.push(piece@));
            assert(text@.subrange(i + 1, i + 1) =~= Seq::<char>::empty());
            assert(done@.map_values(|p: &'static str| p@).push(text@.subrange(i + 1, i + 1))
                =~= split_spaces(prefix));
            start = i + 1;
        } else {
            assert(text@.subrange(start as int, i + 1) =~= text@.subrange(
                start as int,
                i as int,
            ).push(cs@[i as int]));
            assert(done@.map_values(|p: &'static str| p@).push(text@.subrange(start as int, i + 1))
                =~= split_spaces(prefix));
        }
        i = i + 1;
    }
    let piece = text.substring_char(start, n);
    done.push(piece);
    assert(text@.subrange(0, n as int) =~= text@);
    assert(done@.map_values(|p: &'static str| p@) =~= split_spaces(text@));
    done
}

/// Compares the texts of two strings.
pub fn same_text(a: &str, b: &str) -> (r: bool)
    ensures
        r == (a@ == b@),
{
    let x = chars_of(a);
    let y = chars_of(b);
    chars_equal(&x, &y)
}

/// The position of the first `name` in `names`, if any.
pub open spec fn index_of(names: Seq<Seq<char>>, name: Seq<char>) -> Option<nat>
    decreases names.len(),
{
    if names.len() == 0 {
        None
    } else if names.last() == name && index_of(names.drop_last(), name) is None {
        Some((names.len() - 1) as nat)
    } else {
        index_of(names.drop_last(), name)
    }
}

/// The distinct names of `firsts`, in the order of their first occurrence.
pub open spec fn distinct_names(firsts: Seq<Seq<char>>) -> Seq<Seq<char>>
    decreases firsts.len(),
{
    if firsts.len() == 0 {
        Seq::empty()
    } else {
        let p = distinct_names(firsts.drop_last());
        if p.contains(firsts.last()) {
            p
        } else {
            p.push(firsts.last())
        }
    }
}

/// The symbol that `name` stands for: a terminal first, else a non-terminal.
pub open spec fn resolve<T>(
    terms: Seq<(Seq<char>, T)>,
    nts: Seq<Seq<char>>,
    name: Seq<char>,
) -> Option<Symbol<T>> {
    match lookup(terms, name) {
        Some(k) => Some(Symbol::Terminal(k)),
        None => match index_of(nts, name) {
            Some(i) => Some(Symbol::NonTerminal(i as usize)),
            None => None,
        },
    }
}

/// Whether every name of `names` stands for a symbol.
pub open spec fn all_resolve<T>(
    terms: Seq<(Seq<char>, T)>,
    nts: Seq<Seq<char>>,
    names: Seq<Seq<char>>,
) -> bool {
    forall|j: int| 0 <= j < names.len() ==> (#[trigger] resolve(terms, nts, names[j])) is Some
}

/// The symbols that `names` stand for.
pub open spec fn resolve_all<T>(
    terms: Seq<(Seq<char>, T)>,
    nts: Seq<Seq<char>>,
    names: Seq<Seq<char>>,
) -> Seq<Symbol<T>> {
    names.map_values(|nm: Seq<char>| resolve(terms, nts, nm)->0)
}

/// Whether the left-hand name of a rule stands for a non-terminal.
pub open spec fn lval_ok<T>(terms: Seq<(Seq<char>, T)>, nts: Seq<Seq<char>>, text: Seq<char>) -> bool {
    resolve(terms, nts, split_spaces(text)[0]) matches Some(Symbol::NonTerminal(_))
}

/// Whether a rule's text has the shape `lval -> names` with every name known.
pub open spec fn shape_ok<T>(terms: Seq<(Seq<char>, T)>, nts: Seq<Seq<char>>, text: Seq<char>) -> bool {
    let pieces = split_spaces(text);
    &&& pieces.len() >= 2
    &&& pieces[1] == seq!['-', '>']
    &&& all_resolve(terms, nts, pieces.subrange(2, pieces.len() as int))
}

/// Whether a rule's text compiles.
pub open spec fn rule_ok<T>(terms: Seq<(Seq<char>, T)>, nts: Seq<Seq<char>>, text: Seq<char>) -> bool {
    lval_ok(terms, nts, text) && shape_ok(terms, nts, text)
}

/// What a compiled rule holds: its left-hand symbol and right-hand symbols.
pub open spec fn rule_symbols<T>(
    terms: Seq<(Seq<char>, T)>,
    nts: Seq<Seq<char>>,
    text: Seq<char>,
) -> (Symbol<T>, Seq<Symbol<T>>) {
    let pieces = split_spaces(text);
    (
        resolve(terms, nts, pieces[0])->0,
        resolve_all(terms, nts, pieces.subrange(2, pieces.len() as int)),
    )
}

/// The error that a rule's text gives when it does not compile.
pub open spec fn rule_error<T>(
    terms: Seq<(Seq<char>, T)>,
    nts: Seq<Seq<char>>,
    text: &'static str,
    e: GrammarError,
) -> bool {
    if !lval_ok(terms, nts, text@) {
        e matches GrammarError::InvalidSymbol(s) && s@ == split_spaces(text@)[0]
    } else {
        e == GrammarError::InvalidGrammarText(text)
    }
}

/// The texts and kinds of terminal definitions.
pub open spec fn terms_view<T>(defs: Seq<TerminalSymbolDef<T>>) -> Seq<(Seq<char>, T)> {
    defs.map_values(|d: TerminalSymbolDef<T>| (d.0@, d.1))
}

/// The first piece of each rule text.
pub open spec fn first_pieces(rules: Seq<GrammarRule>) -> Seq<Seq<char>> {
    rules.map_values(|g: GrammarRule| split_spaces(g.0@)[0])
}

/// `gs` is what the rule texts `grammars` compile to with the terminal
/// definitions `terminals`: every rule compiles, and rule `i` is numbered `i + 1`
/// and holds the symbols that its names stand for.
pub open spec fn compiled<T>(
    grammars: Seq<GrammarRule>,
    terminals: Seq<TerminalSymbolDef<T>>,
    eof: T,
    gs: GrammarSet<T>,
) -> bool {
    let terms = terms_view(terminals);
    let nts = distinct_names(first_pieces(grammars));
    &&& forall|i: int| 0 <= i < grammars.len() ==> rule_ok(terms, nts, #[trigger] grammars[i].0@)
    &&& terms_view(gs.terminal_symbols@) == terms
    &&& gs.non_terminal_symbols@.map_values(|s: &'static str| s@) == nts
    &&& gs.eof == eof
    &&& gs.grammars@.len() == grammars.len()
    &&& forall|i: int|
        0 <= i < grammars.len() ==> #[trigger] gs.grammars@[i].rule_number == i + 1 && (
        gs.grammars@[i].lval,
        gs.grammars@[i].rvals@,
    ) == rule_symbols(terms, nts, grammars[i].0@)
}

/// The rules of a grammar, its terminal definitions, its non-terminal names and
/// the token kind that ends the input.
pub struct GrammarSet<T> {
    pub grammars: Vec<Grammar<T>>,
    pub eof: T,
    pub terminal_symbols: Vec<TerminalSymbolDef<T>>,
    pub non_terminal_symbols: Vec<&'static str>,
}

impl<T: ParserToken> GrammarSet<T> {
    pub open spec fn terms(&self) -> Seq<(Seq<char>, T)> {
        terms_view(self.terminal_symbols@)
    }

    pub open spec fn nts(&self) -> Seq<Seq<char>> {
        self.non_terminal_symbols@.map_values(|s: &'static str| s@)
    }

    /// The left-hand symbol of rule `i` (from 0) and its right-hand symbols.
    pub open spec fn rule(&self, i: int) -> (Symbol<T>, Seq<Symbol<T>>) {
        (self.grammars@[i].lval, self.grammars@[i].rvals@)
    }

    /// Compiles rule texts. The names of non-terminals are the first pieces of
    /// all rules, collected before any rule is resolved.
    pub fn new(
        grammars: &Vec<GrammarRule>,
        terminals: &Vec<TerminalSymbolDef<T>>,
        eof: T,
    ) -> (r: Result<GrammarSet<T>, GrammarError>)
        ensures
            ({
                let terms = terms_view(terminals@);
                let nts = distinct_names(first_pieces(grammars@));
                match r {
                    Ok(gs) => compiled(grammars@, terminals@, eof, gs),
                    Err(e) => exists|i: int|
                        0 <= i < grammars@.len() && !rule_ok(terms, nts, #[trigger] grammars@[i].0@)
                            && rule_error(terms, nts, grammars@[i].0, e) && forall|j: int|
                            0 <= j < i ==> rule_ok(terms, nts, #[trigger] grammars@[j].0@),
                }
            }),
    {
        let mut terminal_symbols: Vec<TerminalSymbolDef<T>> = Vec::new();
        let mut i: usize = 0;
        while i < terminals.len()
            invariant
                i <= terminals@.len(),
                terminal_symbols@ == terminals@.subrange(0, i as int),
            decreases terminals.len() - i,
        {
            terminal_symbols.push(terminals[i]);
            assert(terminal_symbols@ =~= terminals@.subrange(0, i + 1));
            i = i + 1;
        }
        assert(terminal_symbols@ =~= terminals@);
        let mut non_terminal_symbols: Vec<&'static str> = Vec::new();
        let mut i: usize = 0;
        while i < grammars.len()
            invariant
                i <= grammars@.len(),
                non_terminal_symbols@.map_values(|s: &'static str| s@) == distinct_names(
                    first_pieces(grammars@.subrange(0, i as int)),
                ),
            decreases grammars.len() - i,
        {
            let pieces = split_spaces_of(grammars[i].0);
            proof {
                lemma_split_nonempty(grammars@[i as int].0@);
                assert(pieces@.map_values(|p: &'static str| p@)[0] == pieces@[0]@);
            }
            let lval = pieces[0];
            let mut known = false;
            let mut j: usize = 0;
            while j < non_terminal_symbols.len() && !known
                invariant
                    j <= non_terminal_symbols@.len(),
                    known ==> j < non_terminal_symbols@.len() && non_terminal_symbols@[j as int]@
                        == lval@,
                    forall|k: int| 0 <= k < j ==> non_terminal_symbols@[k]@ != lval@,
                decreases non_terminal_symbols.len() - j + (if known { 0int } else { 1int }),
            {
                if same_text(non_terminal_symbols[j], lval) {
                    known = true;
                } else {
                    j = j + 1;
                }
            }
            let ghost prev = non_terminal_symbols@.map_values(|s: &'static str| s@);
            proof {
                let f = first_pieces(grammars@.subrange(0, i + 1));
                assert(f.drop_last() =~= first_pieces(grammars@.subrange(0, i as int)));
                assert(f.last() == lval@);
                if known {
                    assert(prev[j as int] == lval@);
                } else {
                    assert forall|k: int| 0 <= k < prev.len() implies prev[k] != lval@ by {}
                }
            }
            if !known {
                non_terminal_symbols.push(lval);
            }
            assert(non_terminal_symbols@.map_values(|s: &'static str| s@) =~= distinct_names(
                first_pieces(grammars@.subrange(0, i + 1)),
            ));
            i = i + 1;
        }
        assert(grammars@.subrange(0, grammars@.len() as int) =~= grammars@);
        let mut grammar = GrammarSet {
            grammars: Vec::new(),
            terminal_symbols,
            non_terminal_symbols,
            eof,
        };
        let mut i: usize = 0;
        while i < grammars.len()
            invariant
                i <= grammars@.len(),
                grammar.terms() == terms_view(terminals@),
                grammar.nts() == distinct_names(first_pieces(grammars@)),
                grammar.eof == eof,
                grammar.grammars@.len() == i,
                forall|k: int|
                    0 <= k < i ==> rule_ok(grammar.terms(), grammar.nts(), #[trigger] grammars@[k].0@),
                forall|k: int|
                    0 <= k < i ==> #[trigger] grammar.grammars@[k].rule_number == k + 1
                        && grammar.rule(k) == rule_symbols(
                        grammar.terms(),
                        grammar.nts(),
                        grammars@[k].0@,
                    ),
            decreases grammars.len() - i,
        {
            match grammar.parse_grammar(grammars[i].0) {
                Ok(()) => {},
                Err(e) => {
                    return Err(e);
                },
            }
            i = i + 1;
        }
        Ok(grammar)
    }

    /// The symbol that `name` stands for.
    fn get_symbol(&self, name: &str) -> (r: Option<Symbol<T>>)
        ensures
            r == resolve(self.terms(), self.nts(), name@),
    {
        let mut i: usize = self.terminal_symbols.len();
        assert(self.terminal_symbols@.subrange(0, i as int) =~= self.terminal_symbols@);
        while i > 0
            invariant
                i <= self.terminal_symbols@.len(),
                lookup(self.terms(), name@) == lookup(
                    terms_view(self.terminal_symbols@.subrange(0, i as int)),
                    name@,
                ),
            decreases i,
        {
            assert(terms_view(self.terminal_symbols@.subrange(0, i as int)).drop_last() =~= terms_view(
                self.terminal_symbols@.subrange(0, i - 1),
            ));
            assert(terms_view(self.terminal_symbols@.subrange(0, i as int)).last() == (
                self.terminal_symbols@[i - 1].0@,
                self.terminal_symbols@[i - 1].1,
            ));
            if same_text(self.terminal_symbols[i - 1].0, name) {
                return Some(Symbol::Terminal(self.terminal_symbols[i - 1].1));
            }
            i = i - 1;
        }
        assert(terms_view(self.terminal_symbols@.subrange(0, 0)) =~= Seq::empty());
        assert(lookup(self.terms(), name@) is None);
        let mut j: usize = 0;
        while j < self.non_terminal_symbols.len()
            invariant
                lookup(self.terms(), name@) is None,
                j <= self.non_terminal_symbols@.len(),
                forall|k: int| 0 <= k < j ==> self.nts()[k] != name@,
            decreases self.non_terminal_symbols.len() - j,
        {
            if same_text(self.non_terminal_symbols[j], name) {
                proof {
                    lemma_index_of_first(self.nts(), name@, j as int);
                }
                return Some(Symbol::NonTerminal(j));
            }
            j = j + 1;
        }
        proof {
            lemma_index_of_none(self.nts(), name@);
        }
        None
    }

    /// Compiles one rule text and appends it.
    fn parse_grammar(&mut self, text: &'static str) -> (r: Result<(), GrammarError>)
        requires
            old(self).grammars@.len() < usize::MAX,
        ensures
            final(self).terminal_symbols == old(self).terminal_symbols,
            final(self).non_terminal_symbols == old(self).non_terminal_symbols,
            final(self).eof == old(self).eof,
            r is Ok <==> rule_ok(old(self).terms(), old(self).nts(), text@),
            r matches Err(e) ==> rule_error(old(self).terms(), old(self).nts(), text, e),
            r is Ok ==> final(self).grammars@ == old(self).grammars@.push(
                Grammar {
                    rule_number: (old(self).grammars@.len() + 1) as usize,
                    lval: rule_symbols(old(self).terms(), old(self).nts(), text@).0,
                    rvals: final(self).grammars@.last().rvals,
                },
            ) && final(self).grammars@.last().rvals@ == rule_symbols(
                old(self).terms(),
                old(self).nts(),
                text@,
            ).1,
            r is Err ==> final(self).grammars == old(self).grammars,
    {
        let pieces = split_spaces_of(text);
        let ghost names = pieces@.map_values(|p: &'static str| p@);
        proof {
            lemma_split_nonempty(text@);
            assert(names[0] == pieces@[0]@);
        }
        let lval = match self.get_symbol(pieces[0]) {
            Some(Symbol::NonTerminal(n)) => Symbol::NonTerminal(n),
            _ => {
                assert(!lval_ok(self.terms(), self.nts(), text@));
                return Err(GrammarError::InvalidSymbol(pieces[0]));
            },
        };
        assert(lval_ok(self.terms(), self.nts(), text@));
        if pieces.len() < 2 {
            return Err(GrammarError::InvalidGrammarText(text));
        }
        assert(names[1] == pieces@[1]@);
        if !same_text(pieces[1], "->") {
            proof {
                reveal_strlit("->");
                assert("->"@ =~= seq!['-', '>']);
            }
            return Err(GrammarError::InvalidGrammarText(text));
        }
        proof {
            reveal_strlit("->");
            assert("->"@ =~= seq!['-', '>']);
        }
        let ghost rest = names.subrange(2, names.len() as int);
        let mut rvals: Vec<Symbol<T>> = Vec::new();
        let mut k: usize = 2;
        while k < pieces.len()
            invariant
                2 <= k <= pieces@.len(),
                names == pieces@.map_values(|p: &'static str| p@),
                names == split_spaces(text@),
                names[1] == seq!['-', '>'],
                lval_ok(self.terms(), self.nts(), text@),
                rest == names.subrange(2, names.len() as int),
                forall|j: int| 0 <= j < k - 2 ==> (#[trigger] resolve(self.terms(), self.nts(), rest[j])) is Some,
                rvals@ == resolve_all(self.terms(), self.nts(), rest.subrange(0, k - 2)),
            decreases pieces.len() - k,
        {
            assert(rest[k - 2] == pieces@[k as int]@);
            match self.get_symbol(pieces[k]) {
                Some(s) => {
                    rvals.push(s);
                },
                None => {
                    assert(!all_resolve(self.terms(), self.nts(), rest));
                    assert(lval_ok(self.terms(), self.nts(), text@));
                    return Err(GrammarError::InvalidGrammarText(text));
                },
            }
            assert(rvals@ =~= resolve_all(self.terms(), self.nts(), rest.subrange(0, k - 1)));
            k = k + 1;
        }
        assert(rest.subrange(0, rest.len() as int) =~= rest);
        assert(all_resolve(self.terms(), self.nts(), rest));
        assert(rule_ok(self.terms(), self.nts(), text@));
        let rule_number = self.grammars.len() + 1;
        self.grammars.push(Grammar { rule_number, lval, rvals });
        Ok(())
    }

    /// The name of `sym` in the grammar's text.
    pub fn symbol_text_of(&self, sym: Symbol<T>) -> (r: String)
        requires
            kind_eq_ok::<T>(),
        ensures
            r@ == symbol_text(self.terms(), self.nts(), sym),
    {
        match sym {
            Symbol::NonTerminal(i) => {
                if i < self.non_terminal_symbols.len() {
                    assert(self.nts()[i as int] == self.non_terminal_symbols@[i as int]@);
                    String::from_str(self.non_terminal_symbols[i])
                } else {
                    String::new()
                }
            },
            Symbol::Terminal(k) => {
                let mut d: usize = self.terminal_symbols.len();
                assert(self.terminal_symbols@.subrange(0, d as int) =~= self.terminal_symbols@);
                while d > 0
                    invariant
                        kind_eq_ok::<T>(),
                        sym == Symbol::Terminal(k),
                        d <= self.terminal_symbols@.len(),
                        text_of_kind(self.terms(), k) == text_of_kind(
                            terms_view(self.terminal_symbols@.subrange(0, d as int)),
                            k,
                        ),
                    decreases d,
                {
                    let ghost part = terms_view(self.terminal_symbols@.subrange(0, d as int));
                    assert(part.drop_last() =~= terms_view(self.terminal_symbols@.subrange(0, d - 1)));
                    assert(part.last() == (
                        self.terminal_symbols@[d - 1].0@,
                        self.terminal_symbols@[d - 1].1,
                    ));
                    if same_kind(&self.terminal_symbols[d - 1].1, &k) {
                        return String::from_str(self.terminal_symbols[d - 1].0);
                    }
                    d = d - 1;
                }
                assert(terms_view(self.terminal_symbols@.subrange(0, 0)) =~= Seq::empty());
                String::new()
            },
        }
    }

    /// Rule `i` (from 0) written back as text, `lval -> rval rval ...`.
    pub fn render_rule(&self, i: usize) -> (r: String)
        requires
            kind_eq_ok::<T>(),
            i < self.grammars@.len(),
        ensures
            r@ == render(self.terms(), self.nts(), self.rule(i as int)),
    {
        let ghost terms = self.terms();
        let ghost nts = self.nts();
        let rule = &self.grammars[i];
        let ghost texts = seq![symbol_text(terms, nts, rule.lval), seq!['-', '>']]
            + rule.rvals@.map_values(|s: Symbol<T>| symbol_text(terms, nts, s));
        let mut r = self.symbol_text_of(rule.lval);
        r.append(" ->");
        proof {
            reveal_strlit(" ->");
            assert(texts.subrange(0, 2).drop_last() =~= texts.subrange(0, 1));
            assert(join_spaces(texts.subrange(0, 1)) == texts[0]);
            assert(texts[1] == seq!['-', '>']);
            assert(join_spaces(texts.subrange(0, 2)) == texts[0] + seq![' '] + seq!['-', '>']);
            assert(r@ =~= join_spaces(texts.subrange(0, 2)));
        }
        let mut j: usize = 0;
        while j < rule.rvals.len()
            invariant
                kind_eq_ok::<T>(),
                terms == self.terms(),
                nts == self.nts(),
                texts == seq![symbol_text(terms, nts, rule.lval), seq!['-', '>']]
                    + rule.rvals@.map_values(|s: Symbol<T>| symbol_text(terms, nts, s)),
                j <= rule.rvals@.len(),
                r@ == join_spaces(texts.subrange(0, j + 2)),
            decreases rule.rvals.len() - j,
        {
            let name = self.symbol_text_of(rule.rvals[j]);
            r.append(" ");
            r.append(name.as_str());
            proof {
                reveal_strlit(" ");
                assert(texts.subrange(0, j + 3).drop_last() =~= texts.subrange(0, j + 2));
                assert(texts[j + 2] == name@);
                assert(r@ =~= join_spaces(texts.subrange(0, j + 3)));
            }
            j = j + 1;
        }
        assert(texts.subrange(0, texts.len() as int) =~= texts);
        r
    }

    /// The indices of the rules whose left-hand symbol is `lval`, in order.
    pub fn find_grammars(&self, lval: Symbol<T>) -> (r: Vec<usize>)
        requires
            kind_eq_ok::<T>(),
        ensures
            r@ == rules_for(self.grammars@, lval),
    {
        let mut r: Vec<usize> = Vec::new();
        let mut i: usize = 0;
        while i < self.grammars.len()
            invariant
                kind_eq_ok::<T>(),
                i <= self.grammars@.len(),
                r@ == rules_for(self.grammars@.subrange(0, i as int), lval),
            decreases self.grammars.len() - i,
        {
            assert(self.grammars@.subrange(0, i + 1).drop_last() =~= self.grammars@.subrange(
                0,
                i as int,
            ));
            if same_symbol(&self.grammars[i].lval, &lval) {
                r.push(i);
            }
            i = i + 1;
        }
        assert(self.grammars@.subrange(0, i as int) =~= self.grammars@);
        r
    }
}

/// The indices of the rules whose left-hand symbol is `lval`, in order.
pub open spec fn rules_for<T>(rules: Seq<Grammar<T>>, lval: Symbol<T>) -> Seq<usize>
    decreases rules.len(),
{
    if rules.len() == 0 {
        Seq::empty()
    } else {
        let p = rules_for(rules.drop_last(), lval);
        if rules.last().lval == lval {
            p.push((rules.len() - 1) as usize)
        } else {
            p
        }
    }
}

/// Pieces joined with single spaces.
pub open spec fn join_spaces(p: Seq<Seq<char>>) -> Seq<char>
    decreases p.len(),
{
    if p.len() == 0 {
        Seq::empty()
    } else if p.len() == 1 {
        p[0]
    } else {
        join_spaces(p.drop_last()) + seq![' '] + p.last()
    }
}

/// The text of the last terminal definition of kind `k`.
pub open spec fn text_of_kind<T>(terms: Seq<(Seq<char>, T)>, k: T) -> Seq<char>
    decreases terms.len(),
{
    if terms.len() == 0 {
        Seq::empty()
    } else if terms.last().1 == k {
        terms.last().0
    } else {
        text_of_kind(terms.drop_last(), k)
    }
}

/// The name that `sym` has in the grammar's text.
pub open spec fn symbol_text<T>(
    terms: Seq<(Seq<char>, T)>,
    nts: Seq<Seq<char>>,
    sym: Symbol<T>,
) -> Seq<char> {
    match sym {
        Symbol::NonTerminal(i) => if i < nts.len() {
            nts[i as int]
        } else {
            Seq::empty()
        },
        Symbol::Terminal(k) => text_of_kind(terms, k),
    }
}

/// A rule written back as text: `lval -> rval rval ...`.
pub open spec fn render<T>(
    terms: Seq<(Seq<char>, T)>,
    nts: Seq<Seq<char>>,
    rule: (Symbol<T>, Seq<Symbol<T>>),
) -> Seq<char> {
    join_spaces(
        seq![symbol_text(terms, nts, rule.0), seq!['-', '>']] + rule.1.map_values(
            |s: Symbol<T>| symbol_text(terms, nts, s),
        ),
    )
}

/// No two terminal definitions share a token kind.
pub open spec fn kinds_distinct<T>(terminals: Seq<TerminalSymbolDef<T>>) -> bool {
    forall|i: int, j: int|
        0 <= i < terminals.len() && 0 <= j < terminals.len() && #[trigger] terminals[i].1
            == #[trigger] terminals[j].1 ==> i == j
}

/// Compiling rule texts and writing each compiled rule back as
/// `lval -> rval rval ...` gives the texts again, where no two terminal
/// definitions share a token kind.
pub proof fn lemma_grammar_round_trip<T>(
    grammars: Seq<GrammarRule>,
    terminals: Seq<TerminalSymbolDef<T>>,
    eof: T,
    gs: GrammarSet<T>,
)
    requires
        compiled(grammars, terminals, eof, gs),
        kinds_distinct(terminals),
        gs.non_terminal_symbols@.len() <= usize::MAX,
    ensures
        forall|i: int|
            0 <= i < grammars.len() ==> render(
                terms_view(gs.terminal_symbols@),
                gs.non_terminal_symbols@.map_values(|s: &'static str| s@),
                (gs.grammars@[i].lval, gs.grammars@[i].rvals@),
            ) == #[trigger] grammars[i].0@,
{
    let terms = terms_view(terminals);
    let nts = distinct_names(first_pieces(grammars));
    assert forall|i: int| 0 <= i < grammars.len() implies render(
        terms,
        nts,
        (gs.grammars@[i].lval, gs.grammars@[i].rvals@),
    ) == #[trigger] grammars[i].0@ by {
        let text = grammars[i].0@;
        let pieces = split_spaces(text);
        assert(rule_ok(terms, nts, text));
        assert(gs.grammars@[i].rule_number == i + 1);
        let rule = (gs.grammars@[i].lval, gs.grammars@[i].rvals@);
        assert(rule == rule_symbols(terms, nts, text));
        let shown = seq![symbol_text(terms, nts, rule.0), seq!['-', '>']] + rule.1.map_values(
            |s: Symbol<T>| symbol_text(terms, nts, s),
        );
        lemma_resolve_text(terminals, nts, pieces[0]);
        assert forall|j: int| 2 <= j < pieces.len() implies shown[j] == pieces[j] by {
            let rest = pieces.subrange(2, pieces.len() as int);
            assert(rest[j - 2] == pieces[j]);
            assert(resolve(terms, nts, rest[j - 2]) is Some);
            lemma_resolve_text(terminals, nts, pieces[j]);
        }
        assert(shown =~= pieces);
        lemma_join_split(text);
    }
}

/// A name that stands for a symbol is that symbol's name.
proof fn lemma_resolve_text<T>(terminals: Seq<TerminalSymbolDef<T>>, nts: Seq<Seq<char>>, name: Seq<char>)
    requires
        kinds_distinct(terminals),
        nts.len() <= usize::MAX,
        resolve(terms_view(terminals), nts, name) is Some,
    ensures
        symbol_text(terms_view(terminals), nts, resolve(terms_view(terminals), nts, name)->0) == name,
{
    let terms = terms_view(terminals);
    match lookup(terms, name) {
        Some(k) => {
            lemma_text_of_kind(terminals, name, k);
        },
        None => {
            lemma_index_of_some(nts, name);
        },
    }
}

proof fn lemma_text_of_kind<T>(terminals: Seq<TerminalSymbolDef<T>>, name: Seq<char>, k: T)
    requires
        kinds_distinct(terminals),
        lookup(terms_view(terminals), name) == Some(k),
    ensures
        text_of_kind(terms_view(terminals), k) == name,
    decreases terminals.len(),
{
    let terms = terms_view(terminals);
    let last = terminals.len() - 1;
    assert(terms.last() == (terminals[last].0@, terminals[last].1));
    assert(terms.drop_last() =~= terms_view(terminals.drop_last()));
    if terms.last().0 == name {
    } else {
        let j = lemma_lookup_index(terminals.drop_last(), name, k);
        if terminals[last].1 == k {
            assert(terminals[j].1 == terminals[last].1);
        }
        assert(kinds_distinct(terminals.drop_last())) by {
            assert forall|a: int, b: int|
                0 <= a < terminals.drop_last().len() && 0 <= b < terminals.drop_last().len()
                    && #[trigger] terminals.drop_last()[a].1 == #[trigger] terminals.drop_last()[b].1
                implies a == b by {
                assert(terminals[a].1 == terminals[b].1);
            }
        }
        lemma_text_of_kind(terminals.drop_last(), name, k);
    }
}

proof fn lemma_lookup_index<T>(terminals: Seq<TerminalSymbolDef<T>>, name: Seq<char>, k: T) -> (j: int)
    requires
        lookup(terms_view(terminals), name) == Some(k),
    ensures
        0 <= j < terminals.len(),
        terminals[j].1 == k,
    decreases terminals.len(),
{
    let terms = terms_view(terminals);
    let last = terminals.len() - 1;
    assert(terms.last() == (terminals[last].0@, terminals[last].1));
    assert(terms.drop_last() =~= terms_view(terminals.drop_last()));
    if terms.last().0 == name {
        last
    } else {
        let j = lemma_lookup_index(terminals.drop_last(), name, k);
        assert(terminals.drop_last()[j] == terminals[j]);
        j
    }
}

proof fn lemma_index_of_some(names: Seq<Seq<char>>, name: Seq<char>)
    requires
        index_of(names, name) is Some,
    ensures
        index_of(names, name)->0 < names.len(),
        names[index_of(names, name)->0 as int] == name,
    decreases names.len(),
{
    if names.last() == name && index_of(names.drop_last(), name) is None {
    } else {
        lemma_index_of_some(names.drop_last(), name);
    }
}

/// Joining the pieces of a text gives the text again.
proof fn lemma_join_split(s: Seq<char>)
    ensures
        join_spaces(split_spaces(s)) == s,
    decreases s.len(),
{
    if s.len() > 0 {
        let t = s.drop_last();
        let c = s.last();
        let p = split_spaces(t);
        lemma_join_split(t);
        lemma_split_nonempty(t);
        if c == ' ' {
            assert(p.push(Seq::<char>::empty()).drop_last() =~= p);
            assert(join_spaces(split_spaces(s)) =~= s);
        } else {
            let q = p.update(p.len() - 1, p.last().push(c));
            if p.len() == 1 {
                assert(join_spaces(q) =~= s);
            } else {
                assert(q.drop_last() =~= p.drop_last());
                assert(q.last() == p.last().push(c));
                assert(join_spaces(p) == join_spaces(p.drop_last()) + seq![' '] + p.last());
                assert(join_spaces(q) == join_spaces(p.drop_last()) + seq![' '] + q.last());
                assert(s =~= t.push(c));
                assert(join_spaces(q) =~= s);
            }
        }
    }
}

proof fn lemma_index_of_first(names: Seq<Seq<char>>, name: Seq<char>, j: int)
    requires
        0 <= j < names.len(),
        names[j] == name,
        forall|k: int| 0 <= k < j ==> names[k] != name,
    ensures
        index_of(names, name) == Some(j as nat),
    decreases names.len(),
{
    if j < names.len() - 1 {
        lemma_index_of_first(names.drop_last(), name, j);
    } else {
        lemma_index_of_none(names.drop_last(), name);
    }
}

proof fn lemma_index_of_none(names: Seq<Seq<char>>, name: Seq<char>)
    requires
        forall|k: int| 0 <= k < names.len() ==> names[k] != name,
    ensures
        index_of(names, name) is None,
    decreases names.len(),
{
    if names.len() > 0 {
        lemma_index_of_none(names.drop_last(), name);
    }
}

} // verus!
