//! The parser: from tokens to terms.
//!
//! The grammar, with `single` for an expression without a connective:
//!
//! ```text
//! program := ( expr "." )*
//! expr    := single ( ( "=" | "," | ">" | "<" | ">=" | "<=" ) single )?
//! single  := id "(" args ( ":-" expr )? | string | integer | variable | "[" items
//! args    := ")" | single ")" | single "," args
//! items   := "]" | expr "]" | expr "," items
//! ```
//!
//! An expression takes a comma that follows its first `single` as a
//! conjunction, in a list too: `[1, 2, 3]` is the list of `1, 2` and `3`.

use crate::lexer::{Symbol, Token};
use crate::term::{Term, Value};
use vstd::prelude::*;

verus! {

/// The parser's result at a position: what was read, and the position after it.
pub type Parsed<T> = Option<(T, nat)>;

/// `r`, if it ends after position `i`.
pub open spec fn advancing<T>(r: Parsed<T>, i: nat) -> Parsed<T> {
    match r {
        Some((_, j)) => if j > i {
            r
        } else {
            None
        },
        None => None,
    }
}

/// The six connectives.
#[derive(Debug, Clone, Copy, PartialEq, Eq, Structural)]
pub enum Connective {
    Equals,
    And,
    GreaterThan,
    LessThan,
    GreaterOrEqual,
    LessOrEqual,
}

/// The connective that `symbol` writes, if it writes one.
pub open spec fn connective(symbol: Symbol) -> Option<Connective> {
    match symbol {
        Symbol::Eq => Some(Connective::Equals),
        Symbol::Comma => Some(Connective::And),
        Symbol::GreaterThan => Some(Connective::GreaterThan),
        Symbol::LessThan => Some(Connective::LessThan),
        Symbol::GreaterThanEqual => Some(Connective::GreaterOrEqual),
        Symbol::LessThanEqual => Some(Connective::LessOrEqual),
        _ => None,
    }
}

/// `left` and `right` joined by `op`.
pub open spec fn join(op: Connective, left: Term, right: Term) -> Term {
    match op {
        Connective::Equals => Term::Equals(Box::new(left), Box::new(right)),
        Connective::And => Term::And(Box::new(left), Box::new(right)),
        Connective::GreaterThan => Term::GreaterThan(Box::new(left), Box::new(right)),
        Connective::LessThan => Term::LessThan(Box::new(left), Box::new(right)),
        Connective::GreaterOrEqual => Term::GreaterOrEqual(Box::new(left), Box::new(right)),
        Connective::LessOrEqual => Term::LessOrEqual(Box::new(left), Box::new(right)),
    }
}

/// The `single` that starts at position `i`.
pub open spec fn single(tokens: Seq<Symbol>, i: nat) -> Parsed<Term>
    decreases tokens.len() - i, 1nat,
{
    if i >= tokens.len() {
        None
    } else {
        match tokens[i as int] {
            Symbol::Id(name) => if i + 1 < tokens.len() && tokens[i as int + 1] is OpenParen {
                call(tokens, name, i + 2)
            } else {
                None
            },
            Symbol::Str(text) => Some((Term::Atom(text), i + 1)),
            Symbol::Int(n) => Some((Term::Integer(n as int), i + 1)),
            Symbol::Variable(name) => Some((Term::Variable(name), i + 1)),
            Symbol::OpenSqBrace => match items(tokens, i + 1) {
                Some((elements, j)) => Some((Term::List(elements), j)),
                None => None,
            },
            _ => None,
        }
    }
}

/// The fact or rule whose functor is `name` and whose arguments start at
/// position `i`, after the opening parenthesis.
pub open spec fn call(tokens: Seq<Symbol>, name: Seq<char>, i: nat) -> Parsed<Term>
    decreases tokens.len() - i, 4nat,
{
    match advancing(args(tokens, i), i) {
        None => None,
        Some((arguments, j)) => if j < tokens.len() && tokens[j as int] is BackArrow {
            match expr(tokens, j + 1) {
                Some((body, k)) => Some((Term::Rule(name, arguments, Box::new(body)), k)),
                None => None,
            }
        } else {
            Some((Term::Compound(name, arguments), j))
        },
    }
}

/// The arguments that start at position `i`, up to the closing parenthesis.
pub open spec fn args(tokens: Seq<Symbol>, i: nat) -> Parsed<Seq<Term>>
    decreases tokens.len() - i, 3nat,
{
    if i >= tokens.len() {
        None
    } else if tokens[i as int] is CloseParen {
        Some((Seq::empty(), i + 1))
    } else {
        match advancing(single(tokens, i), i) {
            None => None,
            Some((first, j)) => if j >= tokens.len() {
                None
            } else if tokens[j as int] is CloseParen {
                Some((seq![first], j + 1))
            } else if tokens[j as int] is Comma {
                match args(tokens, j + 1) {
                    Some((rest, k)) => Some((seq![first] + rest, k)),
                    None => None,
                }
            } else {
                None
            },
        }
    }
}

/// The elements that start at position `i`, up to the closing bracket.
pub open spec fn items(tokens: Seq<Symbol>, i: nat) -> Parsed<Seq<Term>>
    decreases tokens.len() - i, 3nat,
{
    if i >= tokens.len() {
        None
    } else if tokens[i as int] is CloseSqBrace {
        Some((Seq::empty(), i + 1))
    } else {
        match advancing(expr(tokens, i), i) {
            None => None,
            Some((first, j)) => if j >= tokens.len() {
                None
            } else if tokens[j as int] is CloseSqBrace {
                Some((seq![first], j + 1))
            } else if tokens[j as int] is Comma {
                match items(tokens, j + 1) {
                    Some((rest, k)) => Some((seq![first] + rest, k)),
                    None => None,
                }
            } else {
                None
            },
        }
    }
}

/// The expression that starts at position `i`.
pub open spec fn expr(tokens: Seq<Symbol>, i: nat) -> Parsed<Term>
    decreases tokens.len() - i, 2nat,
{
    match advancing(single(tokens, i), i) {
        None => None,
        Some((left, j)) => if j < tokens.len() && connective(tokens[j as int]) is Some {
            match single(tokens, j + 1) {
                Some((right, k)) => Some((join(connective(tokens[j as int])->0, left, right), k)),
                None => None,
            }
        } else {
            Some((left, j))
        },
    }
}

/// The clauses that start at position `i`, each closed by a dot, up to the
/// end of the tokens.
pub open spec fn clauses(tokens: Seq<Symbol>, i: nat) -> Option<Seq<Term>>
    decreases tokens.len() - i,
{
    if i >= tokens.len() {
        Some(Seq::empty())
    } else {
        match advancing(expr(tokens, i), i) {
            None => None,
            Some((first, j)) => if j < tokens.len() && tokens[j as int] is Dot {
                match clauses(tokens, j + 1) {
                    Some(rest) => Some(seq![first] + rest),
                    None => None,
                }
            } else {
                None
            },
        }
    }
}

/// A parser over a sequence of tokens, with the position it has reached.
#[derive(Debug)]
pub struct Parser {
    tokens: Vec<Token>,
    idx: usize,
}

/// What the parser read at a position, as a term.
pub open spec fn term_read(r: Option<(Value, usize)>) -> Parsed<Term> {
    match r {
        Some((value, j)) => Some((value@, j as nat)),
        None => None,
    }
}

/// What the parser read at a position, as terms.
pub open spec fn terms_read(r: Option<(Vec<Value>, usize)>) -> Parsed<Seq<Term>> {
    match r {
        Some((values, j)) => Some((Value::models(values@), j as nat)),
        None => None,
    }
}

/// `rest` with the terms `found` put in front of it.
spec fn extend(found: Seq<Term>, rest: Parsed<Seq<Term>>) -> Parsed<Seq<Term>> {
    match rest {
        Some((more, k)) => Some((found + more, k)),
        None => None,
    }
}

/// `rest` with the terms `found` put in front of it.
spec fn prepend(found: Seq<Term>, rest: Option<Seq<Term>>) -> Option<Seq<Term>> {
    match rest {
        Some(more) => Some(found + more),
        None => None,
    }
}

fn connective_of(token: &Token) -> (r: Option<Connective>)
    ensures
        r == connective(token@),
{
    match token {
        Token::Eq => Some(Connective::Equals),
        Token::Comma => Some(Connective::And),
        Token::GreaterThan => Some(Connective::GreaterThan),
        Token::LessThan => Some(Connective::LessThan),
        Token::GreaterThanEqual => Some(Connective::GreaterOrEqual),
        Token::LessThanEqual => Some(Connective::LessOrEqual),
        _ => None,
    }
}

fn join_values(op: Connective, left: Value, right: Value) -> (r: Value)
    ensures
        r@ == join(op, left@, right@),
{
    match op {
        Connective::Equals => Value::Eq(Box::new(left), Box::new(right)),
        Connective::And => Value::And(Box::new(left), Box::new(right)),
        Connective::GreaterThan => Value::GreaterThan(Box::new(left), Box::new(right)),
        Connective::LessThan => Value::LessThan(Box::new(left), Box::new(right)),
        Connective::GreaterOrEqual => Value::GreaterThanEqual(Box::new(left), Box::new(right)),
        Connective::LessOrEqual => Value::LessThanEqual(Box::new(left), Box::new(right)),
    }
}

impl Parser {
    #[verifier::type_invariant]
    spec fn well_formed(&self) -> bool {
        self.idx <= self.tokens@.len()
    }

    /// The tokens that the parser reads, as symbols.
    pub closed spec fn symbols(&self) -> Seq<Symbol> {
        Token::views(self.tokens@)
    }

    /// The position that the parser has reached.
    pub closed spec fn position(&self) -> nat {
        self.idx as nat
    }

    /// A parser at the start of `tokens`.
    pub fn new(tokens: Vec<Token>) -> (parser: Parser)
        ensures
            parser.symbols() == Token::views(tokens@),
            parser.position() == 0,
    {
        Parser { tokens, idx: 0 }
    }

    fn parse_single_expr(&self, i: usize) -> (r: Option<(Value, usize)>)
        ensures
            term_read(r) == single(self.symbols(), i as nat),
            r matches Some((_, j)) ==> i < j <= self.tokens@.len(),
        decreases self.tokens@.len() - i, 1nat,
    {
        if i >= self.tokens.len() {
            return None;
        }
        match &self.tokens[i] {
            Token::Id(name) => {
                if i + 1 < self.tokens.len() {
                    match &self.tokens[i + 1] {
                        Token::OpenParen => self.parse_fact_or_predicate(name, i + 2),
                        _ => None,
                    }
                } else {
                    None
                }
            },
            Token::Str(text) => Some((Value::Str(text.clone()), i + 1)),
            Token::Int(n) => Some((Value::Int(*n), i + 1)),
            Token::Variable(name) => Some((Value::Variable(name.clone()), i + 1)),
            Token::OpenSqBrace => match self.parse_list(i + 1) {
                Some((elements, j)) => Some((Value::List(elements), j)),
                None => None,
            },
            _ => None,
        }
    }

    fn parse_fact_or_predicate(&self, name: &String, i: usize) -> (r: Option<(Value, usize)>)
        requires
            i <= self.tokens@.len(),
        ensures
            term_read(r) == call(self.symbols(), name@, i as nat),
            r matches Some((_, j)) ==> i < j <= self.tokens@.len(),
        decreases self.tokens@.len() - i, 4nat,
    {
        match self.parse_args(i) {
            None => None,
            Some((arguments, j)) => {
                if j < self.tokens.len() {
                    match &self.tokens[j] {
                        Token::BackArrow => {
                            return match self.parse_expr(j + 1) {
                                Some((body, k)) => Some(
                                    (Value::Predicate(name.clone(), arguments, Box::new(body)), k),
                                ),
                                None => None,
                            };
                        },
                        _ => {},
                    }
                }
                Some((Value::CompoundTerm(name.clone(), arguments), j))
            },
        }
    }

    fn parse_args(&self, start: usize) -> (r: Option<(Vec<Value>, usize)>)
        requires
            start <= self.tokens@.len(),
        ensures
            terms_read(r) == args(self.symbols(), start as nat),
            r matches Some((_, j)) ==> start < j <= self.tokens@.len(),
        decreases self.tokens@.len() - start, 3nat,
    {
        let mut found: Vec<Value> = Vec::new();
        let mut i: usize = start;
        assert(Value::models(found@) =~= Seq::<Term>::empty());
        loop
            invariant
                start <= i <= self.tokens@.len(),
                extend(Value::models(found@), args(self.symbols(), i as nat)) == args(
                    self.symbols(),
                    start as nat,
                ),
            decreases self.tokens@.len() - i,
        {
            let ghost before = Value::models(found@);
            if i >= self.tokens.len() {
                return None;
            }
            if let Token::CloseParen = &self.tokens[i] {
                assert(before + Seq::<Term>::empty() =~= before);
                return Some((found, i + 1));
            }
            let (first, j) = match self.parse_single_expr(i) {
                Some(read) => read,
                None => {
                    return None;
                },
            };
            if j >= self.tokens.len() {
                return None;
            }
            found.push(first);
            assert(Value::models(found@) =~= before.push(first@));
            match &self.tokens[j] {
                Token::CloseParen => {
                    assert(before + seq![first@] =~= before.push(first@));
                    return Some((found, j + 1));
                },
                Token::Comma => {
                    proof {
                        let rest = args(self.symbols(), (j + 1) as nat);
                        if rest is Some {
                            assert(before.push(first@) + rest.unwrap().0 =~= before + (seq![first@]
                                + rest.unwrap().0));
                        }
                    }
                    i = j + 1;
                },
                _ => {
                    return None;
                },
            }
        }
    }

    fn parse_list(&self, start: usize) -> (r: Option<(Vec<Value>, usize)>)
        requires
            start <= self.tokens@.len(),
        ensures
            terms_read(r) == items(self.symbols(), start as nat),
            r matches Some((_, j)) ==> start < j <= self.tokens@.len(),
        decreases self.tokens@.len() - start, 3nat,
    {
        let mut found: Vec<Value> = Vec::new();
        let mut i: usize = start;
        assert(Value::models(found@) =~= Seq::<Term>::empty());
        loop
            invariant
                start <= i <= self.tokens@.len(),
                extend(Value::models(found@), items(self.symbols(), i as nat)) == items(
                    self.symbols(),
                    start as nat,
                ),
            decreases self.tokens@.len() - i,
        {
            let ghost before = Value::models(found@);
            if i >= self.tokens.len() {
                return None;
            }
            if let Token::CloseSqBrace = &self.tokens[i] {
                assert(before + Seq::<Term>::empty() =~= before);
                return Some((found, i + 1));
            }
            let (first, j) = match self.parse_expr(i) {
                Some(read) => read,
                None => {
                    return None;
                },
            };
            if j >= self.tokens.len() {
                return None;
            }
            found.push(first);
            assert(Value::models(found@) =~= before.push(first@));
            match &self.tokens[j] {
                Token::CloseSqBrace => {
                    assert(before + seq![first@] =~= before.push(first@));
                    return Some((found, j + 1));
                },
                Token::Comma => {
                    proof {
                        let rest = items(self.symbols(), (j + 1) as nat);
                        if rest is Some {
                            assert(before.push(first@) + rest.unwrap().0 =~= before + (seq![first@]
                                + rest.unwrap().0));
                        }
                    }
                    i = j + 1;
                },
                _ => {
                    return None;
                },
            }
        }
    }

    fn parse_expr(&self, i: usize) -> (r: Option<(Value, usize)>)
        ensures
            term_read(r) == expr(self.symbols(), i as nat),
            r matches Some((_, j)) ==> i < j <= self.tokens@.len(),
        decreases self.tokens@.len() - i, 2nat,
    {
        match self.parse_single_expr(i) {
            None => None,
            Some((left, j)) => {
                if j < self.tokens.len() {
                    match connective_of(&self.tokens[j]) {
                        Some(op) => {
                            return match self.parse_single_expr(j + 1) {
                                Some((right, k)) => Some((join_values(op, left, right), k)),
                                None => None,
                            };
                        },
                        None => {},
                    }
                }
                Some((left, j))
            },
        }
    }

    /// Reads clauses from the position reached to the end of the tokens. If
    /// what is left is no sequence of clauses, the parser stays where it was.
    pub fn try_parse(&mut self) -> (r: Option<Vec<Value>>)
        ensures
            final(self).symbols() == old(self).symbols(),
            match r {
                Some(ast) => clauses(old(self).symbols(), old(self).position()) == Some(
                    Value::models(ast@),
                ) && final(self).position() == old(self).symbols().len(),
                None => clauses(old(self).symbols(), old(self).position()) is None
                    && final(self).position() == old(self).position(),
            },
    {
        proof {
            use_type_invariant(&*self);
        }
        let mut ast: Vec<Value> = Vec::new();
        let mut i: usize = self.idx;
        assert(Value::models(ast@) =~= Seq::<Term>::empty());
        while i < self.tokens.len()
            invariant
                *self == *old(self),
                self.idx <= i <= self.tokens@.len(),
                prepend(Value::models(ast@), clauses(self.symbols(), i as nat)) == clauses(
                    self.symbols(),
                    self.idx as nat,
                ),
            decreases self.tokens@.len() - i,
        {
            let ghost before = Value::models(ast@);
            let (first, j) = match self.parse_expr(i) {
                Some(read) => read,
                None => {
                    return None;
                },
            };
            if j >= self.tokens.len() {
                return None;
            }
            match &self.tokens[j] {
                Token::Dot => {},
                _ => {
                    return None;
                },
            }
            proof {
                let rest = clauses(self.symbols(), (j + 1) as nat);
                if rest is Some {
                    assert(before.push(first@) + rest->0 =~= before + (seq![first@] + rest->0));
                }
            }
            ast.push(first);
            assert(Value::models(ast@) =~= before.push(first@));
            i = j + 1;
        }
        assert(Value::models(ast@) + Seq::<Term>::empty() =~= Value::models(ast@));
        self.idx = i;
        Some(ast)
    }

    /// Reads clauses from the position reached to the end of the tokens, which
    /// must be a sequence of clauses.
    pub fn parse(&mut self) -> (ast: Vec<Value>)
        requires
            clauses(old(self).symbols(), old(self).position()) is Some,
        ensures
            final(self).symbols() == old(self).symbols(),
            final(self).position() == old(self).symbols().len(),
            clauses(old(self).symbols(), old(self).position()) == Some(Value::models(ast@)),
    {
        match self.try_parse() {
            Some(ast) => ast,
            None => vstd::pervasive::unreached(),
        }
    }
}

} // verus!
