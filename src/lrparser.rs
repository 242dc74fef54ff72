use vstd::prelude::*;

use crate::error::{GrammarError, ParseError};
use crate::grammar::{
    compiled, distinct_names, first_pieces, rules_for, same_symbol, symbol_text, terms_view,
    GrammarSet, Symbol, TerminalSymbolDef,
};
use crate::runner::GrammarRule;
use crate::token::{kind_eq_ok, same_kind, ParserToken};

verus! {

/// The action in one cell of the table.
#[derive(Clone, Copy, PartialEq, Eq, Debug, Structural)]
pub enum TransitionAction {
    Shift(usize),
    Reduce(usize),
    Goto(usize),
    Accept,
}

/// A position in a rule: the rule's index (from 0) and how many of its
/// right-hand symbols have been matched.
#[derive(Clone, Copy, PartialEq, Eq, Structural)]
pub struct Kernel {
    pub rule: usize,
    pub dot: usize,
}

/// The value of the last entry for `key`, if there is one.
pub open spec fn row_get<T>(row: Seq<(Symbol<T>, TransitionAction)>, key: Symbol<T>) -> Option<
    TransitionAction,
>
    decreases row.len(),
{
    if row.len() == 0 {
        None
    } else if row.last().0 == key {
        Some(row.last().1)
    } else {
        row_get(row.drop_last(), key)
    }
}

/// Whether a cell's action fits a table of `n` states for a grammar of `n_rules`
/// rules whose input ends with `eof`.
pub open spec fn entry_ok<T>(
    e: (Symbol<T>, TransitionAction),
    n: nat,
    n_rules: nat,
    eof: T,
) -> bool {
    match e.1 {
        TransitionAction::Shift(t) => t < n && e.0 is Terminal,
        TransitionAction::Goto(t) => t < n && e.0 is NonTerminal,
        TransitionAction::Reduce(r) => 1 <= r <= n_rules && e.0 is Terminal,
        TransitionAction::Accept => e.0 == Symbol::Terminal(eof),
    }
}

/// A grammar and its action table, one row per state.
pub struct LRParser<T> {
    pub grammar_set: GrammarSet<T>,
    pub table: Vec<Vec<(Symbol<T>, TransitionAction)>>,
}

pub open spec fn kernel_ok<T>(gs: &GrammarSet<T>, k: Kernel) -> bool {
    k.rule < gs.grammars@.len() && k.dot <= gs.grammars@[k.rule as int].rvals@.len()
}

pub open spec fn kernels_ok<T>(gs: &GrammarSet<T>, ks: Seq<Kernel>) -> bool {
    forall|i: int| 0 <= i < ks.len() ==> kernel_ok(gs, #[trigger] ks[i])
}

pub open spec fn rows_ok<T>(rows: Seq<Vec<(Symbol<T>, TransitionAction)>>, n: nat, n_rules: nat, eof: T) -> bool {
    forall|s: int, j: int|
        0 <= s < rows.len() && 0 <= j < rows[s]@.len() ==> entry_ok(
            #[trigger] rows[s]@[j],
            n,
            n_rules,
            eof,
        )
}

pub open spec fn row_ok<T>(row: Seq<(Symbol<T>, TransitionAction)>, n: nat, n_rules: nat, eof: T) -> bool {
    forall|j: int| 0 <= j < row.len() ==> entry_ok(#[trigger] row[j], n, n_rules, eof)
}

fn contains_kernel(ks: &Vec<Kernel>, k: Kernel) -> (r: bool)
    ensures
        r == ks@.contains(k),
{
    let mut i: usize = 0;
    while i < ks.len()
        invariant
            i <= ks@.len(),
            forall|j: int| 0 <= j < i ==> ks@[j] != k,
        decreases ks.len() - i,
    {
        if ks[i] == k {
            return true;
        }
        i = i + 1;
    }
    false
}

/// Whether every kernel of `a` is in `b`.
fn subset_of(a: &Vec<Kernel>, b: &Vec<Kernel>) -> (r: bool)
    ensures
        r == (forall|i: int| 0 <= i < a@.len() ==> b@.contains(#[trigger] a@[i])),
{
    let mut i: usize = 0;
    while i < a.len()
        invariant
            i <= a@.len(),
            forall|j: int| 0 <= j < i ==> b@.contains(#[trigger] a@[j]),
        decreases a.len() - i,
    {
        if !contains_kernel(b, a[i]) {
            return false;
        }
        i = i + 1;
    }
    true
}

/// Whether two kernel lists hold the same kernels.
fn same_kernels(a: &Vec<Kernel>, b: &Vec<Kernel>) -> (r: bool)
    ensures
        r == ((forall|i: int| 0 <= i < a@.len() ==> b@.contains(#[trigger] a@[i])) && (forall|
            i: int,
        |
            0 <= i < b@.len() ==> a@.contains(#[trigger] b@[i]))),
{
    subset_of(a, b) && subset_of(b, a)
}

/// What the table of a grammar depends on: each rule's left-hand symbol and
/// right-hand symbols, the kinds of the terminal definitions, and the kind that
/// ends the input.
pub type GrammarShape<T> = (Seq<(Symbol<T>, Seq<Symbol<T>>)>, Seq<T>, T);

/// The shape of a grammar set.
pub open spec fn shape<T>(gs: GrammarSet<T>) -> GrammarShape<T> {
    (
        gs.grammars@.map_values(|g: crate::grammar::Grammar<T>| (g.lval, g.rvals@)),
        gs.terminal_symbols@.map_values(|d: TerminalSymbolDef<T>| d.1),
        gs.eof,
    )
}

/// The indices of the rules whose left-hand symbol is `lval`, in order.
pub open spec fn lhs_rules<T>(rules: Seq<(Symbol<T>, Seq<Symbol<T>>)>, lval: Symbol<T>) -> Seq<usize>
    decreases rules.len(),
{
    if rules.len() == 0 {
        Seq::empty()
    } else {
        let p = lhs_rules(rules.drop_last(), lval);
        if rules.last().0 == lval {
            p.push((rules.len() - 1) as usize)
        } else {
            p
        }
    }
}

proof fn lemma_lhs_rules<T>(rules: Seq<crate::grammar::Grammar<T>>, lval: Symbol<T>)
    ensures
        rules_for(rules, lval) == lhs_rules(
            rules.map_values(|g: crate::grammar::Grammar<T>| (g.lval, g.rvals@)),
            lval,
        ),
    decreases rules.len(),
{
    if rules.len() > 0 {
        lemma_lhs_rules(rules.drop_last(), lval);
        assert(rules.map_values(|g: crate::grammar::Grammar<T>| (g.lval, g.rvals@)).drop_last()
            =~= rules.drop_last().map_values(|g: crate::grammar::Grammar<T>| (g.lval, g.rvals@)));
    }
}

/// The symbol that kernel `k` expects next, if any.
pub open spec fn next_sym<T>(sh: GrammarShape<T>, k: Kernel) -> Option<Symbol<T>> {
    if k.rule < sh.0.len() && k.dot < sh.0[k.rule as int].1.len() {
        Some(sh.0[k.rule as int].1[k.dot as int])
    } else {
        None
    }
}

/// `items` with each start kernel of `rules` appended unless it is there already.
pub open spec fn add_missing(items: Seq<Kernel>, rules: Seq<usize>) -> Seq<Kernel>
    decreases rules.len(),
{
    if rules.len() == 0 {
        items
    } else {
        let p = add_missing(items, rules.drop_last());
        let k = Kernel { rule: rules.last(), dot: 0 };
        if p.contains(k) {
            p
        } else {
            p.push(k)
        }
    }
}

/// The closure of `items`, expanding the kernels from position `i` on.
pub open spec fn closure_from<T>(sh: GrammarShape<T>, items: Seq<Kernel>, i: int) -> Seq<Kernel>
    decreases usize::MAX - i,
{
    if i < 0 || i >= items.len() || i >= usize::MAX {
        items
    } else {
        let grown = match next_sym(sh, items[i]) {
            Some(Symbol::NonTerminal(x)) => add_missing(
                items,
                lhs_rules(sh.0, Symbol::NonTerminal(x)),
            ),
            _ => items,
        };
        closure_from(sh, grown, i + 1)
    }
}

/// The cells that one item fills: accept before the end-of-input terminal, or a
/// reduce on every terminal when the item is complete.
pub open spec fn entries<T>(sh: GrammarShape<T>, k: Kernel) -> Seq<(Symbol<T>, TransitionAction)> {
    match next_sym(sh, k) {
        Some(s) => if s == Symbol::Terminal(sh.2) {
            seq![(s, TransitionAction::Accept)]
        } else {
            Seq::empty()
        },
        None => sh.1.map_values(
            |t: T| (Symbol::Terminal(t), TransitionAction::Reduce((k.rule + 1) as usize)),
        ),
    }
}

/// The accept and reduce cells of a state with these items, in order.
pub open spec fn row_spec<T>(sh: GrammarShape<T>, items: Seq<Kernel>) -> Seq<(Symbol<T>, TransitionAction)>
    decreases items.len(),
{
    if items.len() == 0 {
        Seq::empty()
    } else {
        row_spec(sh, items.drop_last()) + entries(sh, items.last())
    }
}

/// The symbols other than end-of-input that the items expect, in order of first use.
pub open spec fn next_syms<T>(sh: GrammarShape<T>, items: Seq<Kernel>) -> Seq<Symbol<T>>
    decreases items.len(),
{
    if items.len() == 0 {
        Seq::empty()
    } else {
        let p = next_syms(sh, items.drop_last());
        match next_sym(sh, items.last()) {
            Some(s) => if s != Symbol::Terminal(sh.2) && !p.contains(s) {
                p.push(s)
            } else {
                p
            },
            None => p,
        }
    }
}

/// The items that expect `sym`, each moved past it.
pub open spec fn advance_spec<T>(sh: GrammarShape<T>, items: Seq<Kernel>, sym: Symbol<T>) -> Seq<Kernel>
    decreases items.len(),
{
    if items.len() == 0 {
        Seq::empty()
    } else {
        let p = advance_spec(sh, items.drop_last(), sym);
        let k = items.last();
        if next_sym(sh, k) == Some(sym) {
            p.push(Kernel { rule: k.rule, dot: (k.dot + 1) as usize })
        } else {
            p
        }
    }
}

/// Whether two kernel lists hold the same kernels.
pub open spec fn same_set(a: Seq<Kernel>, b: Seq<Kernel>) -> bool {
    (forall|i: int| 0 <= i < a.len() ==> b.contains(#[trigger] a[i])) && (forall|i: int|
        0 <= i < b.len() ==> a.contains(#[trigger] b[i]))
}

/// The first state from `t` on whose seed kernels are those of `next`, or the
/// number of states if there is none.
pub open spec fn find_from(seeds: Seq<Seq<Kernel>>, next: Seq<Kernel>, t: int) -> int
    decreases seeds.len() - t,
{
    if t < 0 || t >= seeds.len() {
        seeds.len() as int
    } else if same_set(next, seeds[t]) {
        t
    } else {
        find_from(seeds, next, t + 1)
    }
}

/// The states and the row after adding a successor state for each of `syms`.
pub open spec fn successors<T>(
    sh: GrammarShape<T>,
    seeds: Seq<Seq<Kernel>>,
    row: Seq<(Symbol<T>, TransitionAction)>,
    items: Seq<Kernel>,
    syms: Seq<Symbol<T>>,
) -> (Seq<Seq<Kernel>>, Seq<(Symbol<T>, TransitionAction)>)
    decreases syms.len(),
{
    if syms.len() == 0 {
        (seeds, row)
    } else {
        let (s1, r1) = successors(sh, seeds, row, items, syms.drop_last());
        let sym = syms.last();
        let next = advance_spec(sh, items, sym);
        let t = find_from(s1, next, 0);
        let s2 = if t < s1.len() {
            s1
        } else {
            s1.push(next)
        };
        let action = match sym {
            Symbol::Terminal(_) => TransitionAction::Shift(t as usize),
            Symbol::NonTerminal(_) => TransitionAction::Goto(t as usize),
        };
        (s2, r1.push((sym, action)))
    }
}

/// The rows of the states from `idx` on, after the rows in `table`.
pub open spec fn build_from<T>(
    sh: GrammarShape<T>,
    seeds: Seq<Seq<Kernel>>,
    table: Seq<Seq<(Symbol<T>, TransitionAction)>>,
    idx: int,
) -> Seq<Seq<(Symbol<T>, TransitionAction)>>
    decreases usize::MAX - idx,
{
    if idx < 0 || idx >= seeds.len() || idx >= usize::MAX {
        table
    } else {
        let items = closure_from(sh, seeds[idx], 0);
        let (s2, row) = successors(sh, seeds, row_spec(sh, items), items, next_syms(sh, items));
        build_from(sh, s2, table.push(row), idx + 1)
    }
}

/// The rows of the action table of a grammar, one per state, state 0 being the
/// closure of the start rule's first item.
pub open spec fn lr0_table<T>(gs: GrammarSet<T>) -> Seq<Seq<(Symbol<T>, TransitionAction)>> {
    build_from(shape(gs), seq![seq![Kernel { rule: 0, dot: 0 }]], Seq::empty(), 0)
}

pub open spec fn seeds_view(seeds: Seq<Vec<Kernel>>) -> Seq<Seq<Kernel>> {
    seeds.map_values(|v: Vec<Kernel>| v@)
}

pub open spec fn rows_view<T>(rows: Seq<Vec<(Symbol<T>, TransitionAction)>>) -> Seq<
    Seq<(Symbol<T>, TransitionAction)>,
> {
    rows.map_values(|v: Vec<(Symbol<T>, TransitionAction)>| v@)
}

/// A cell that no state number appears in: accept on end-of-input, or a reduce
/// by a rule number on a terminal.
pub open spec fn static_entry_ok<T>(e: (Symbol<T>, TransitionAction), n_rules: nat, eof: T) -> bool {
    match e.1 {
        TransitionAction::Accept => e.0 == Symbol::Terminal(eof),
        TransitionAction::Reduce(r) => 1 <= r <= n_rules && e.0 is Terminal,
        _ => false,
    }
}

/// The closure of one state's seed kernels.
fn closure_of<T: ParserToken>(gs: &GrammarSet<T>, seed: &Vec<Kernel>) -> (items: Vec<Kernel>)
    requires
        kind_eq_ok::<T>(),
        kernels_ok(gs, seed@),
    ensures
        items@ == closure_from(shape(*gs), seed@, 0),
        kernels_ok(gs, items@),
{
    let mut items: Vec<Kernel> = Vec::new();
    let mut s: usize = 0;
    while s < seed.len()
        invariant
            kernels_ok(gs, seed@),
            s <= seed@.len(),
            items@ == seed@.subrange(0, s as int),
        decreases seed@.len() - s,
    {
        items.push(seed[s]);
        assert(items@ =~= seed@.subrange(0, s + 1));
        s = s + 1;
    }
    assert(items@ =~= seed@);
    let ghost n_rules = gs.grammars@.len();
    let mut i: usize = 0;
    while i < items.len()
        invariant
            kind_eq_ok::<T>(),
            n_rules == gs.grammars@.len(),
            kernels_ok(gs, items@),
            closure_from(shape(*gs), items@, i as int) == closure_from(shape(*gs), seed@, 0),
        decreases usize::MAX - i,
    {
        let k = items[i];
        assert(kernel_ok(gs, items@[i as int]));
        let ghost before = items@;
        let rvals = &gs.grammars[k.rule].rvals;
        if k.dot < rvals.len() {
            let sym = rvals[k.dot];
            match sym {
                Symbol::NonTerminal(_) => {
                    let rules = gs.find_grammars(sym);
                    proof {
                        lemma_rules_for_bound(gs.grammars@, sym);
                        lemma_lhs_rules(gs.grammars@, sym);
                    }
                    let mut j: usize = 0;
                    assert(rules@.subrange(0, 0) =~= Seq::<usize>::empty());
                    while j < rules.len()
                        invariant
                            n_rules == gs.grammars@.len(),
                            j <= rules@.len(),
                            kernels_ok(gs, items@),
                            forall|q: int| 0 <= q < rules@.len() ==> #[trigger] rules@[q] < n_rules,
                            items@ == add_missing(before, rules@.subrange(0, j as int)),
                        decreases rules.len() - j,
                    {
                        let nk = Kernel { rule: rules[j], dot: 0 };
                        assert(rules@.subrange(0, j + 1).drop_last() =~= rules@.subrange(0, j as int));
                        if !contains_kernel(&items, nk) {
                            items.push(nk);
                        }
                        j = j + 1;
                    }
                    assert(rules@.subrange(0, rules@.len() as int) =~= rules@);
                },
                Symbol::Terminal(_) => {},
            }
        }
        i = i + 1;
    }
    items
}

/// The accept and reduce cells of a state with these items.
fn row_of<T: ParserToken>(gs: &GrammarSet<T>, items: &Vec<Kernel>) -> (row: Vec<
    (Symbol<T>, TransitionAction),
>)
    requires
        kind_eq_ok::<T>(),
        kernels_ok(gs, items@),
    ensures
        row@ == row_spec(shape(*gs), items@),
        forall|j: int|
            0 <= j < row@.len() ==> static_entry_ok(#[trigger] row@[j], gs.grammars@.len() as nat, gs.eof),
{
    let n_grammars = gs.grammars.len();
    let eof = gs.eof;
    let mut row: Vec<(Symbol<T>, TransitionAction)> = Vec::new();
    let mut i: usize = 0;
    while i < items.len()
        invariant
            kind_eq_ok::<T>(),
            n_grammars == gs.grammars@.len(),
            eof == gs.eof,
            i <= items@.len(),
            kernels_ok(gs, items@),
            row@ == row_spec(shape(*gs), items@.subrange(0, i as int)),
            forall|j: int|
                0 <= j < row@.len() ==> static_entry_ok(#[trigger] row@[j], n_grammars as nat, eof),
        decreases items.len() - i,
    {
        let k = items[i];
        assert(kernel_ok(gs, items@[i as int]));
        assert(items@.subrange(0, i + 1).drop_last() =~= items@.subrange(0, i as int));
        let ghost before = row@;
        let rvals = &gs.grammars[k.rule].rvals;
        if k.dot < rvals.len() {
            let sym = rvals[k.dot];
            let is_eof = match sym {
                Symbol::Terminal(t) => same_kind(&t, &eof),
                Symbol::NonTerminal(_) => false,
            };
            if is_eof {
                row.push((sym, TransitionAction::Accept));
            }
            assert(row@ =~= before + entries(shape(*gs), k));
        } else {
            let defs = &gs.terminal_symbols;
            let mut d: usize = 0;
            while d < defs.len()
                invariant
                    n_grammars == gs.grammars@.len(),
                    k.rule < n_grammars,
                    defs == &gs.terminal_symbols,
                    d <= defs@.len(),
                    row@ == before + defs@.subrange(0, d as int).map_values(
                        |e: TerminalSymbolDef<T>|
                            (Symbol::Terminal(e.1), TransitionAction::Reduce((k.rule + 1) as usize)),
                    ),
                    forall|j: int|
                        0 <= j < row@.len() ==> static_entry_ok(#[trigger] row@[j], n_grammars as nat, eof),
                decreases defs.len() - d,
            {
                row.push((Symbol::Terminal(defs[d].1), TransitionAction::Reduce(k.rule + 1)));
                assert(row@ =~= before + defs@.subrange(0, d + 1).map_values(
                    |e: TerminalSymbolDef<T>|
                        (Symbol::Terminal(e.1), TransitionAction::Reduce((k.rule + 1) as usize)),
                ));
                d = d + 1;
            }
            assert(defs@.subrange(0, defs@.len() as int) =~= defs@);
        }
        i = i + 1;
    }
    assert(items@.subrange(0, items@.len() as int) =~= items@);
    row
}

/// The symbols other than end-of-input that the items expect, in order of first use.
fn next_symbols<T: ParserToken>(gs: &GrammarSet<T>, items: &Vec<Kernel>) -> (syms: Vec<Symbol<T>>)
    requires
        kind_eq_ok::<T>(),
        kernels_ok(gs, items@),
    ensures
        syms@ == next_syms(shape(*gs), items@),
{
    let eof = gs.eof;
    let mut syms: Vec<Symbol<T>> = Vec::new();
    let mut i: usize = 0;
    while i < items.len()
        invariant
            kind_eq_ok::<T>(),
            eof == gs.eof,
            i <= items@.len(),
            kernels_ok(gs, items@),
            syms@ == next_syms(shape(*gs), items@.subrange(0, i as int)),
        decreases items.len() - i,
    {
        let k = items[i];
        assert(kernel_ok(gs, items@[i as int]));
        assert(items@.subrange(0, i + 1).drop_last() =~= items@.subrange(0, i as int));
        let rvals = &gs.grammars[k.rule].rvals;
        if k.dot < rvals.len() {
            let sym = rvals[k.dot];
            let is_eof = match sym {
                Symbol::Terminal(t) => same_kind(&t, &eof),
                Symbol::NonTerminal(_) => false,
            };
            if !is_eof {
                let mut seen = false;
                let mut g: usize = 0;
                while g < syms.len()
                    invariant
                        kind_eq_ok::<T>(),
                        g <= syms@.len(),
                        seen <==> exists|q: int| 0 <= q < g && syms@[q] == sym,
                    decreases syms.len() - g,
                {
                    if same_symbol(&syms[g], &sym) {
                        seen = true;
                    }
                    g = g + 1;
                }
                if !seen {
                    syms.push(sym);
                }
            }
        }
        i = i + 1;
    }
    assert(items@.subrange(0, items@.len() as int) =~= items@);
    syms
}

/// The items that expect `sym`, each moved past it.
fn advance<T: ParserToken>(gs: &GrammarSet<T>, items: &Vec<Kernel>, sym: Symbol<T>) -> (next: Vec<
    Kernel,
>)
    requires
        kind_eq_ok::<T>(),
        kernels_ok(gs, items@),
    ensures
        next@ == advance_spec(shape(*gs), items@, sym),
        kernels_ok(gs, next@),
{
    let mut next: Vec<Kernel> = Vec::new();
    let mut i: usize = 0;
    while i < items.len()
        invariant
            kind_eq_ok::<T>(),
            i <= items@.len(),
            kernels_ok(gs, items@),
            kernels_ok(gs, next@),
            next@ == advance_spec(shape(*gs), items@.subrange(0, i as int), sym),
        decreases items.len() - i,
    {
        let k = items[i];
        assert(kernel_ok(gs, items@[i as int]));
        assert(items@.subrange(0, i + 1).drop_last() =~= items@.subrange(0, i as int));
        let rvals = &gs.grammars[k.rule].rvals;
        if k.dot < rvals.len() && same_symbol(&rvals[k.dot], &sym) {
            next.push(Kernel { rule: k.rule, dot: k.dot + 1 });
        }
        i = i + 1;
    }
    assert(items@.subrange(0, items@.len() as int) =~= items@);
    next
}

/// The first state whose seed kernels are those of `next`, or the number of
/// states if there is none.
fn find_seed(seeds: &Vec<Vec<Kernel>>, next: &Vec<Kernel>) -> (t: usize)
    ensures
        t as int == find_from(seeds_view(seeds@), next@, 0),
        t <= seeds@.len(),
{
    let mut t: usize = 0;
    while t < seeds.len()
        invariant
            t <= seeds@.len(),
            find_from(seeds_view(seeds@), next@, t as int) == find_from(seeds_view(seeds@), next@, 0),
        decreases seeds.len() - t,
    {
        assert(seeds_view(seeds@)[t as int] == seeds@[t as int]@);
        if same_kernels(next, &seeds[t]) {
            return t;
        }
        t = t + 1;
    }
    t
}

/// Whether entry `j` of a row is hidden by a later entry for the same symbol
/// with another action: a conflict that the table resolved by overwriting.
pub open spec fn overridden<T>(row: Seq<(Symbol<T>, TransitionAction)>, j: int) -> bool {
    exists|m: int| j < m < row.len() && #[trigger] row[m].0 == row[j].0 && row[m].1 != row[j].1
}

/// How many of the first `upto` entries of a row are overridden.
pub open spec fn count_overridden<T>(row: Seq<(Symbol<T>, TransitionAction)>, upto: int) -> nat
    decreases upto,
{
    if upto <= 0 {
        0
    } else {
        count_overridden(row, upto - 1) + if overridden(row, upto - 1) {
            1nat
        } else {
            0nat
        }
    }
}

/// `p` is the parser that `LRParser::lr0` builds from `gs`.
pub open spec fn built<T: ParserToken>(gs: GrammarSet<T>, p: LRParser<T>) -> bool {
    &&& p.grammar_set == gs
    &&& p.wf()
    &&& p.rows() == lr0_table(gs)
}

impl<T: ParserToken> LRParser<T> {
    /// The rows of the table, one per state.
    pub open spec fn rows(&self) -> Seq<Seq<(Symbol<T>, TransitionAction)>> {
        rows_view(self.table@)
    }

    /// The number of states.
    pub open spec fn n_states(&self) -> nat {
        self.table@.len()
    }

    /// The action for `sym` in `state`, if the table has one.
    pub open spec fn action(&self, state: int, sym: Symbol<T>) -> Option<TransitionAction> {
        if 0 <= state < self.table@.len() {
            row_get(self.table@[state]@, sym)
        } else {
            None
        }
    }

    /// Every cell of the table fits it: shift and goto targets are states,
    /// shifts are keyed by terminals and gotos by non-terminals, reduce numbers
    /// are rule numbers, and accept stands only on the end-of-input terminal.
    pub open spec fn wf(&self) -> bool {
        &&& self.table@.len() >= 1
        &&& rows_ok(
            self.table@,
            self.table@.len(),
            self.grammar_set.grammars@.len(),
            self.grammar_set.eof,
        )
    }

    /// Builds the table of the canonical LR(0) states of a grammar whose first
    /// rule is the start rule. Completed items reduce on every terminal; a later
    /// entry in a cell hides an earlier one.
    pub fn lr0(grammar_set: GrammarSet<T>) -> (r: Result<LRParser<T>, GrammarError>)
        requires
            kind_eq_ok::<T>(),
        ensures
            grammar_set.grammars@.len() == 0 <==> r is Err,
            r matches Err(e) ==> e == GrammarError::Error("Grammar set does not have a starter grammar"),
            r matches Ok(p) ==> built(grammar_set, p) && forall|s: int, sym: Symbol<T>|
                (#[trigger] p.action(s, sym)) is Some ==> entry_ok(
                    (sym, p.action(s, sym)->0),
                    p.n_states(),
                    grammar_set.grammars@.len() as nat,
                    grammar_set.eof,
                ),
    {
        if grammar_set.grammars.len() == 0 {
            return Err(GrammarError::Error("Grammar set does not have a starter grammar"));
        }
        let gs = &grammar_set;
        let n_grammars = gs.grammars.len();
        let ghost n_rules = gs.grammars@.len() as nat;
        let eof = gs.eof;
        let mut seeds: Vec<Vec<Kernel>> = Vec::new();
        let mut first: Vec<Kernel> = Vec::new();
        first.push(Kernel { rule: 0, dot: 0 });
        assert(first@ =~= seq![Kernel { rule: 0, dot: 0 }]);
        seeds.push(first);
        let mut table: Vec<Vec<(Symbol<T>, TransitionAction)>> = Vec::new();
        let mut idx: usize = 0;
        let ghost goal = lr0_table(*gs);
        proof {
            assert(seeds_view(seeds@) =~= seq![seq![Kernel { rule: 0, dot: 0 }]]);
            assert(rows_view(table@) =~= Seq::<Seq<(Symbol<T>, TransitionAction)>>::empty());
        }
        while idx < seeds.len()
            invariant
                kind_eq_ok::<T>(),
                n_rules == gs.grammars@.len(),
                n_rules == n_grammars,
                n_rules >= 1,
                eof == gs.eof,
                idx <= seeds@.len(),
                seeds@.len() >= 1,
                table@.len() == idx,
                forall|s: int| 0 <= s < seeds@.len() ==> kernels_ok(gs, #[trigger] seeds@[s]@),
                rows_ok(table@, seeds@.len() as nat, n_rules, eof),
                goal == lr0_table(*gs),
                goal == build_from(shape(*gs), seeds_view(seeds@), rows_view(table@), idx as int),
            decreases usize::MAX - idx,
        {
            assert(seeds_view(seeds@)[idx as int] == seeds@[idx as int]@);
            let items = closure_of(gs, &seeds[idx]);
            let mut row = row_of(gs, &items);
            let syms = next_symbols(gs, &items);
            let ghost seeds_at = seeds_view(seeds@);
            let ghost row_at = row@;
            let ghost table_at = rows_view(table@);
            assert(successors(shape(*gs), seeds_at, row_at, items@, syms@.subrange(0, 0)) == (
                seeds_at,
                row_at,
            ));
            // one successor state for each expected symbol
            let mut g: usize = 0;
            while g < syms.len()
                invariant
                    kind_eq_ok::<T>(),
                    n_rules == gs.grammars@.len(),
                    n_rules == n_grammars,
                    eof == gs.eof,
                    idx < seeds@.len(),
                    table@.len() == idx,
                    kernels_ok(gs, items@),
                    syms@ == next_syms(shape(*gs), items@),
                    forall|s: int| 0 <= s < seeds@.len() ==> kernels_ok(gs, #[trigger] seeds@[s]@),
                    rows_ok(table@, seeds@.len() as nat, n_rules, eof),
                    row_ok(row@, seeds@.len() as nat, n_rules, eof),
                    g <= syms@.len(),
                    rows_view(table@) == table_at,
                    successors(shape(*gs), seeds_at, row_at, items@, syms@.subrange(0, g as int)) == (
                        seeds_view(seeds@),
                        row@,
                    ),
                decreases syms.len() - g,
            {
                let sym = syms[g];
                let next = advance(gs, &items, sym);
                let found = find_seed(&seeds, &next);
                let target = if found < seeds.len() {
                    found
                } else {
                    let ghost before_seeds = seeds_view(seeds@);
                    seeds.push(next);
                    assert(seeds_view(seeds@) =~= before_seeds.push(next@));
                    found
                };
                let action = match sym {
                    Symbol::Terminal(_) => TransitionAction::Shift(target),
                    Symbol::NonTerminal(_) => TransitionAction::Goto(target),
                };
                row.push((sym, action));
                assert(syms@.subrange(0, g + 1).drop_last() =~= syms@.subrange(0, g as int));
                g = g + 1;
            }
            assert(syms@.subrange(0, syms@.len() as int) =~= syms@);
            let ghost before = rows_view(table@);
            table.push(row);
            assert(rows_view(table@) =~= before.push(row@));
            idx = idx + 1;
        }
        let p = LRParser { grammar_set, table };
        proof {
            assert forall|s: int, sym: Symbol<T>| (#[trigger] p.action(s, sym)) is Some implies entry_ok(
                (sym, p.action(s, sym)->0),
                p.n_states(),
                n_rules,
                eof,
            ) by {
                lemma_row_get_ok(p.table@[s]@, sym, p.n_states(), n_rules, eof);
            }
        }
        Ok(p)
    }

    /// Building the action table twice from the same grammar gives the same
    /// table: the same shift and goto targets and the same reduce numbers in
    /// every cell.
    pub proof fn lemma_table_determinism(gs: GrammarSet<T>, first: LRParser<T>, second: LRParser<T>)
        requires
            built(gs, first),
            built(gs, second),
        ensures
            first.rows() == second.rows(),
            first.n_states() == second.n_states(),
            forall|s: int, sym: Symbol<T>| #[trigger] first.action(s, sym) == second.action(s, sym),
    {
        assert(first.rows().len() == first.table@.len());
        assert(second.rows().len() == second.table@.len());
        assert forall|s: int, sym: Symbol<T>| #[trigger] first.action(s, sym) == second.action(s, sym) by {
            if 0 <= s < first.table@.len() {
                assert(first.rows()[s] == first.table@[s]@);
                assert(second.rows()[s] == second.table@[s]@);
            }
        }
    }

    /// The number of conflicts in a state: entries that a later entry for the
    /// same symbol, with another action, overwrote while the table was built.
    pub fn conflicts_in(&self, state: usize) -> (r: usize)
        requires
            kind_eq_ok::<T>(),
        ensures
            state < self.n_states() ==> r == count_overridden(
                self.rows()[state as int],
                self.rows()[state as int].len() as int,
            ),
            state >= self.n_states() ==> r == 0,
    {
        if state >= self.table.len() {
            return 0;
        }
        let row = &self.table[state];
        assert(self.rows()[state as int] == row@);
        let mut count: usize = 0;
        let mut j: usize = 0;
        while j < row.len()
            invariant
                kind_eq_ok::<T>(),
                j <= row@.len(),
                count == count_overridden(row@, j as int),
                count <= j,
            decreases row.len() - j,
        {
            let mut hidden = false;
            let mut m: usize = j + 1;
            while m < row.len()
                invariant
                    kind_eq_ok::<T>(),
                    j < row@.len(),
                    j + 1 <= m <= row@.len(),
                    hidden <==> exists|q: int|
                        j < q < m && #[trigger] row@[q].0 == row@[j as int].0 && row@[q].1 != row@[
                            j as int
                        ].1,
                decreases row.len() - m,
            {
                if same_symbol(&row[m].0, &row[j].0) && row[m].1 != row[j].1 {
                    hidden = true;
                }
                m = m + 1;
            }
            if hidden {
                count = count + 1;
            }
            j = j + 1;
        }
        count
    }

    /// Compiling the same rule texts with the same terminal definitions twice,
    /// and building a table from each result, gives two tables with the same
    /// rows: the same shift and goto targets and the same reduce numbers in every
    /// cell.
    pub proof fn lemma_compiled_tables_agree(
        grammars: Seq<GrammarRule>,
        terminals: Seq<TerminalSymbolDef<T>>,
        eof: T,
        gs1: GrammarSet<T>,
        gs2: GrammarSet<T>,
        first: LRParser<T>,
        second: LRParser<T>,
    )
        requires
            compiled(grammars, terminals, eof, gs1),
            compiled(grammars, terminals, eof, gs2),
            built(gs1, first),
            built(gs2, second),
        ensures
            first.rows() == second.rows(),
            forall|s: int, sym: Symbol<T>| #[trigger] first.action(s, sym) == second.action(s, sym),
    {
        let terms = terms_view(terminals);
        let nts = distinct_names(first_pieces(grammars));
        assert(shape(gs1).0 =~= shape(gs2).0) by {
            assert forall|i: int| 0 <= i < grammars.len() implies #[trigger] shape(gs1).0[i] == shape(
                gs2,
            ).0[i] by {
                assert(gs1.grammars@[i].rule_number == i + 1);
                assert(gs2.grammars@[i].rule_number == i + 1);
            }
        }
        assert(shape(gs1).1 =~= shape(gs2).1) by {
            assert forall|i: int| 0 <= i < gs1.terminal_symbols@.len() implies #[trigger] shape(
                gs1,
            ).1[i] == shape(gs2).1[i] by {
                assert(terms_view(gs1.terminal_symbols@)[i] == terms_view(gs2.terminal_symbols@)[i]);
            }
        }
        assert(shape(gs1) == shape(gs2));
        assert(first.rows().len() == first.table@.len());
        assert(second.rows().len() == second.table@.len());
        assert forall|s: int, sym: Symbol<T>| #[trigger] first.action(s, sym) == second.action(s, sym) by {
            if 0 <= s < first.table@.len() {
                assert(first.rows()[s] == first.table@[s]@);
                assert(second.rows()[s] == second.table@[s]@);
            }
        }
    }

    /// The action for `symbol` in `state`.
    pub fn get_action(&self, state: usize, symbol: &Symbol<T>) -> (r: Result<
        TransitionAction,
        ParseError,
    >)
        requires
            kind_eq_ok::<T>(),
        ensures
            state >= self.n_states() ==> r == Err::<TransitionAction, ParseError>(
                ParseError::StateDoesNotExist(state),
            ),
            state < self.n_states() ==> match self.action(state as int, *symbol) {
                Some(a) => r == Ok::<TransitionAction, ParseError>(a),
                None => r matches Err(ParseError::UnexpectedSymbol(name, s)) && s == state
                    && name@ == symbol_text(
                    self.grammar_set.terms(),
                    self.grammar_set.nts(),
                    *symbol,
                ),
            },
    {
        if state >= self.table.len() {
            return Err(ParseError::StateDoesNotExist(state));
        }
        let row = &self.table[state];
        let mut i: usize = row.len();
        assert(row@.subrange(0, i as int) =~= row@);
        while i > 0
            invariant
                kind_eq_ok::<T>(),
                state < self.table@.len(),
                row@ == self.table@[state as int]@,
                i <= row@.len(),
                row_get(row@, *symbol) == row_get(row@.subrange(0, i as int), *symbol),
            decreases i,
        {
            assert(row@.subrange(0, i as int).drop_last() =~= row@.subrange(0, i - 1));
            if same_symbol(&row[i - 1].0, symbol) {
                return Ok(row[i - 1].1);
            }
            i = i - 1;
        }
        Err(ParseError::UnexpectedSymbol(self.grammar_set.symbol_text_of(*symbol), state))
    }
}

proof fn lemma_rules_for_bound<T>(rules: Seq<crate::grammar::Grammar<T>>, lval: Symbol<T>)
    ensures
        forall|q: int|
            0 <= q < rules_for(rules, lval).len() ==> #[trigger] rules_for(rules, lval)[q] < rules.len(),
    decreases rules.len(),
{
    if rules.len() > 0 {
        lemma_rules_for_bound(rules.drop_last(), lval);
        let p = rules_for(rules.drop_last(), lval);
        assert forall|q: int| 0 <= q < p.len() implies #[trigger] p[q] < rules.len() by {}
    }
}

proof fn lemma_row_get_ok<T>(
    row: Seq<(Symbol<T>, TransitionAction)>,
    key: Symbol<T>,
    n: nat,
    n_rules: nat,
    eof: T,
)
    requires
        row_ok(row, n, n_rules, eof),
        row_get(row, key) is Some,
    ensures
        entry_ok((key, row_get(row, key)->0), n, n_rules, eof),
    decreases row.len(),
{
    if row.last().0 == key {
        assert(entry_ok(row[row.len() - 1], n, n_rules, eof));
    } else {
        assert forall|j: int| 0 <= j < row.drop_last().len() implies entry_ok(
            #[trigger] row.drop_last()[j],
            n,
            n_rules,
            eof,
        ) by {
            assert(row.drop_last()[j] == row[j]);
        }
        lemma_row_get_ok(row.drop_last(), key, n, n_rules, eof);
    }
}

} // verus!
