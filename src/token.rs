use vstd::prelude::*;
use vstd::laws_eq::obeys_concrete_eq;

use crate::grammar::TerminalSymbolDef;
use crate::text::{chars_equal, chars_of, contains_char};

verus! {

/// A token kind: a small copyable value with structural equality.
pub trait ParserToken: Copy + Eq + core::hash::Hash + core::fmt::Debug {

}

/// Token kinds are compared with `==` in executable code; this says that such a
/// comparison agrees with mathematical equality.
pub open spec fn kind_eq_ok<T: ParserToken>() -> bool {
    obeys_concrete_eq::<T>()
}

/// Compares two token kinds.
pub fn same_kind<T: ParserToken>(a: &T, b: &T) -> (r: bool)
    requires
        kind_eq_ok::<T>(),
    ensures
        r == (*a == *b),
{
    proof {
        reveal(obeys_concrete_eq);
    }
    *a == *b
}

/// The token kinds that the scanner gives to each class of lexeme.
#[derive(Clone, Copy)]
pub struct LexerTokenMap<T> {
    pub eof: T,
    pub identifier: T,
    pub integer: T,
    pub float: T,
    pub string: T,
}

/// A lexeme and its kind.
pub struct Token<T> {
    pub kind: T,
    pub value: String,
}

/// The tokens of one input, in order.
pub struct Tokens<T>(pub Vec<Token<T>>);

/// The kind and the text of each token.
pub open spec fn tokens_view<T>(ts: Seq<Token<T>>) -> Seq<(T, Seq<char>)> {
    ts.map_values(|t: Token<T>| (t.kind, t.value@))
}

/// A table of definitions in which a later entry for a text hides an earlier one.
pub open spec fn lookup<T>(defs: Seq<(Seq<char>, T)>, key: Seq<char>) -> Option<T>
    decreases defs.len(),
{
    if defs.len() == 0 {
        None
    } else if defs.last().0 == key {
        Some(defs.last().1)
    } else {
        lookup(defs.drop_last(), key)
    }
}

/// The texts and kinds of a list of definitions.
pub open spec fn defs_view<T>(defs: Seq<(Vec<char>, T)>) -> Seq<(Seq<char>, T)> {
    defs.map_values(|d: (Vec<char>, T)| (d.0@, d.1))
}

fn find_def<T: Copy>(defs: &Vec<(Vec<char>, T)>, key: &Vec<char>) -> (r: Option<T>)
    ensures
        r == lookup(defs_view(defs@), key@),
{
    let mut i: usize = defs.len();
    assert(defs@.subrange(0, i as int) =~= defs@);
    while i > 0
        invariant
            i <= defs@.len(),
            lookup(defs_view(defs@), key@) == lookup(defs_view(defs@.subrange(0, i as int)), key@),
        decreases i,
    {
        proof {
            assert(defs_view(defs@.subrange(0, i as int)).drop_last() =~= defs_view(
                defs@.subrange(0, i - 1),
            ));
        }
        if chars_equal(&defs[i - 1].0, key) {
            return Some(defs[i - 1].1);
        }
        i = i - 1;
    }
    None
}

/// The operators and keywords that the scanner recognises.
pub struct SpecialTokenMap<T> {
    operators: Vec<(Vec<char>, T)>,
    keywords: Vec<(Vec<char>, T)>,
    sign_chars: Vec<char>,
}

/// Whether some operator text holds `c`.
pub open spec fn in_some_text<T>(defs: Seq<(Seq<char>, T)>, c: char) -> bool {
    exists|i: int| 0 <= i < defs.len() && #[trigger] defs[i].0.contains(c)
}

impl<T: ParserToken> SpecialTokenMap<T> {
    /// The operator definitions, in order.
    pub closed spec fn operators(&self) -> Seq<(Seq<char>, T)> {
        defs_view(self.operators@)
    }

    /// The keyword definitions, in order.
    pub closed spec fn keywords(&self) -> Seq<(Seq<char>, T)> {
        defs_view(self.keywords@)
    }

    /// The set of operator characters holds exactly the characters of the operators.
    pub closed spec fn wf(&self) -> bool {
        forall|c: char| #[trigger] self.sign_chars@.contains(c) <==> in_some_text(self.operators(), c)
    }

    /// The kind of the operator written `s`, if there is one.
    pub open spec fn sign_type(&self, s: Seq<char>) -> Option<T> {
        lookup(self.operators(), s)
    }

    /// The kind of the keyword written `s`, if there is one.
    pub open spec fn keyword_type(&self, s: Seq<char>) -> Option<T> {
        lookup(self.keywords(), s)
    }

    /// Whether `c` occurs in some operator.
    pub open spec fn sign_char(&self, c: char) -> bool {
        in_some_text(self.operators(), c)
    }

    /// A table of these operators and keywords; a later definition of a text
    /// hides an earlier one.
    pub fn new(operator: &[TerminalSymbolDef<T>], keyword: &[TerminalSymbolDef<T>]) -> (r:
        SpecialTokenMap<T>)
        ensures
            r.wf(),
            r.operators() == operator@.map_values(|d: TerminalSymbolDef<T>| (d.0@, d.1)),
            r.keywords() == keyword@.map_values(|d: TerminalSymbolDef<T>| (d.0@, d.1)),
    {
        let mut operators: Vec<(Vec<char>, T)> = Vec::new();
        let mut sign_chars: Vec<char> = Vec::new();
        let mut i: usize = 0;
        while i < operator.len()
            invariant
                i <= operator@.len(),
                defs_view(operators@) == operator@.subrange(0, i as int).map_values(
                    |d: TerminalSymbolDef<T>| (d.0@, d.1),
                ),
                forall|c: char| #[trigger]
                    sign_chars@.contains(c) <==> in_some_text(defs_view(operators@), c),
            decreases operator.len() - i,
        {
            let text = chars_of(operator[i].0);
            let mut j: usize = 0;
            let ghost old_chars = sign_chars@;
            while j < text.len()
                invariant
                    j <= text@.len(),
                    forall|c: char| #[trigger]
                        sign_chars@.contains(c) <==> (old_chars.contains(c) || exists|k: int|
                            0 <= k < j && text@[k] == c),
                decreases text.len() - j,
            {
                let c = text[j];
                let ghost before = sign_chars@;
                if !contains_char(&sign_chars, c) {
                    sign_chars.push(c);
                    assert(sign_chars@[sign_chars@.len() - 1] == c);
                }
                assert(sign_chars@.contains(c));
                proof {
                    assert forall|d: char| #[trigger] sign_chars@.contains(d) <==> (old_chars.contains(d)
                        || exists|k: int| 0 <= k < j + 1 && text@[k] == d) by {
                        if sign_chars@.contains(d) && d != c {
                            let k = choose|k: int| 0 <= k < sign_chars@.len() && sign_chars@[k] == d;
                            assert(before[k] == d);
                        }
                        if before.contains(d) {
                            let k = choose|k: int| 0 <= k < before.len() && before[k] == d;
                            assert(sign_chars@[k] == d);
                        }
                    }
                }
                j = j + 1;
            }
            proof {
                assert forall|c: char| #[trigger] text@.contains(c) <==> exists|k: int|
                    0 <= k < text@.len() && text@[k] == c by {}
            }
            let ghost prev = defs_view(operators@);
            operators.push((text, operator[i].1));
            proof {
                assert(text@.subrange(0, text@.len() as int) =~= text@);
                let nv = defs_view(operators@);
                assert(nv =~= prev.push((text@, operator@[i as int].1)));
                assert(defs_view(operators@) =~= operator@.subrange(0, i + 1).map_values(
                    |d: TerminalSymbolDef<T>| (d.0@, d.1),
                ));
                assert forall|c: char| #[trigger]
                    sign_chars@.contains(c) <==> in_some_text(nv, c) by {
                    if in_some_text(nv, c) {
                        let k = choose|k: int| 0 <= k < nv.len() && #[trigger] nv[k].0.contains(c);
                        if k < prev.len() {
                            assert(prev[k] == nv[k]);
                        }
                    }
                    if in_some_text(prev, c) {
                        let k = choose|k: int| 0 <= k < prev.len() && #[trigger] prev[k].0.contains(c);
                        assert(prev[k] == nv[k]);
                    }
                    if text@.contains(c) {
                        assert(nv[prev.len() as int].0.contains(c));
                    }
                }
            }
            i = i + 1;
        }
        let mut keywords: Vec<(Vec<char>, T)> = Vec::new();
        let mut i: usize = 0;
        while i < keyword.len()
            invariant
                i <= keyword@.len(),
                defs_view(keywords@) == keyword@.subrange(0, i as int).map_values(
                    |d: TerminalSymbolDef<T>| (d.0@, d.1),
                ),
            decreases keyword.len() - i,
        {
            let text = chars_of(keyword[i].0);
            let ghost prev = defs_view(keywords@);
            keywords.push((text, keyword[i].1));
            assert(defs_view(keywords@) =~= prev.push((text@, keyword@[i as int].1)));
            assert(defs_view(keywords@) =~= keyword@.subrange(0, i + 1).map_values(
                |d: TerminalSymbolDef<T>| (d.0@, d.1),
            ));
            i = i + 1;
        }
        assert(operator@.subrange(0, operator@.len() as int) =~= operator@);
        assert(keyword@.subrange(0, keyword@.len() as int) =~= keyword@);
        SpecialTokenMap { operators, keywords, sign_chars }
    }

    /// The kind of the operator written `sign`.
    pub fn get_sign_type(&self, sign: &str) -> (r: Option<T>)
        ensures
            r == self.sign_type(sign@),
    {
        let key = chars_of(sign);
        find_def(&self.operators, &key)
    }

    /// The kind of the keyword written `sign`.
    pub fn get_keyword_type(&self, sign: &str) -> (r: Option<T>)
        ensures
            r == self.keyword_type(sign@),
    {
        let key = chars_of(sign);
        find_def(&self.keywords, &key)
    }

    /// Whether `sign` is a keyword.
    pub fn is_keyword(&self, sign: &str) -> (r: bool)
        ensures
            r == self.keyword_type(sign@).is_some(),
    {
        self.get_keyword_type(sign).is_some()
    }

    /// Whether `sign` is an operator.
    pub fn is_valid_sign(&self, sign: &str) -> (r: bool)
        ensures
            r == self.sign_type(sign@).is_some(),
    {
        self.get_sign_type(sign).is_some()
    }

    /// Whether `ch` occurs in some operator.
    pub fn is_valid_sign_character(&self, ch: char) -> (r: bool)
        requires
            self.wf(),
        ensures
            r == self.sign_char(ch),
    {
        contains_char(&self.sign_chars, ch)
    }

    pub(crate) fn sign_type_of(&self, buf: &Vec<char>) -> (r: Option<T>)
        ensures
            r == self.sign_type(buf@),
    {
        find_def(&self.operators, buf)
    }

    pub(crate) fn sign_type_of_pushed(&self, buf: &Vec<char>, c: char) -> (r: Option<T>)
        ensures
            r == self.sign_type(buf@.push(c)),
    {
        let mut key: Vec<char> = Vec::new();
        let mut i: usize = 0;
        while i < buf.len()
            invariant
                i <= buf@.len(),
                key@ == buf@.subrange(0, i as int),
            decreases buf.len() - i,
        {
            key.push(buf[i]);
            assert(key@ =~= buf@.subrange(0, i + 1));
            i = i + 1;
        }
        key.push(c);
        assert(key@ =~= buf@.push(c));
        find_def(&self.operators, &key)
    }

    pub(crate) fn keyword_type_of(&self, buf: &Vec<char>) -> (r: Option<T>)
        ensures
            r == self.keyword_type(buf@),
    {
        find_def(&self.keywords, buf)
    }
}

} // verus!
