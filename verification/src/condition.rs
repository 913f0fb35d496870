//! Conditions on transitions: their grammar, their syntax trees and what they mean.
//!
//! ```text
//! condition := conjunction [ "||" condition ]
//! conjunction := negation [ "&&" conjunction ]
//! negation := "!" negation | atom
//! atom := "(" condition ")" | operand [ comparison operand ]
//! operand := name | integer | "quoted text" | true | false | null
//! comparison := "==" | "!=" | "<" | "<=" | ">" | ">="
//! ```

use crate::lexer::{chars_of, token_within, tokenize, tokens_of, Token};
use crate::value::{Context, Datum, Scalar};
use vstd::prelude::*;
use vstd::string::*;

verus! {

/// The comparisons between two operands.
#[derive(Clone, Copy, Debug, PartialEq, Eq)]
pub enum Comparison {
    Eq,
    Ne,
    Lt,
    Le,
    Gt,
    Ge,
}

/// What a comparison is made of: a variable of the context, or a literal.
#[derive(Clone, Debug, PartialEq, Eq)]
pub enum Operand {
    Var(String),
    Lit(Scalar),
}

/// The mathematical content of an [`Operand`].
pub enum Term {
    Var(Seq<char>),
    Lit(Datum),
}

impl View for Operand {
    type V = Term;

    open spec fn view(&self) -> Term {
        match self {
            Operand::Var(name) => Term::Var(name@),
            Operand::Lit(value) => Term::Lit(value@),
        }
    }
}

/// A parsed condition.
#[derive(Debug, PartialEq, Eq)]
pub enum Condition {
    Test(Operand),
    Compare(Comparison, Operand, Operand),
    Not(Box<Condition>),
    And(Box<Condition>, Box<Condition>),
    Or(Box<Condition>, Box<Condition>),
}

/// The mathematical content of a [`Condition`].
pub enum Formula {
    Test(Term),
    Compare(Comparison, Term, Term),
    Not(Box<Formula>),
    And(Box<Formula>, Box<Formula>),
    Or(Box<Formula>, Box<Formula>),
}

impl View for Condition {
    type V = Formula;

    open spec fn view(&self) -> Formula
        decreases self,
    {
        match self {
            Condition::Test(a) => Formula::Test(a@),
            Condition::Compare(op, a, b) => Formula::Compare(*op, a@, b@),
            Condition::Not(c) => Formula::Not(Box::new((**c).view())),
            Condition::And(c, d) => Formula::And(Box::new((**c).view()), Box::new((**d).view())),
            Condition::Or(c, d) => Formula::Or(Box::new((**c).view()), Box::new((**d).view())),
        }
    }
}

// ---------------------------------------------------------------------------
// Meaning
// ---------------------------------------------------------------------------

/// The value of a term: a variable that the environment does not bind has none.
pub open spec fn term_value(t: Term, env: Map<Seq<char>, Datum>) -> Option<Datum> {
    match t {
        Term::Var(name) => if env.contains_key(name) {
            Some(env[name])
        } else {
            None
        },
        Term::Lit(d) => Some(d),
    }
}

/// Whether `a op b` holds. Equality is that of contents; the orderings hold
/// between integers only.
pub open spec fn compare(op: Comparison, a: Datum, b: Datum) -> bool {
    match op {
        Comparison::Eq => a == b,
        Comparison::Ne => a != b,
        Comparison::Lt => a is Int && b is Int && a->Int_0 < b->Int_0,
        Comparison::Le => a is Int && b is Int && a->Int_0 <= b->Int_0,
        Comparison::Gt => a is Int && b is Int && a->Int_0 > b->Int_0,
        Comparison::Ge => a is Int && b is Int && a->Int_0 >= b->Int_0,
    }
}

/// Whether a formula holds in an environment. A lone operand holds when its
/// value is `true`; a comparison with an unbound variable does not hold.
pub open spec fn holds(f: Formula, env: Map<Seq<char>, Datum>) -> bool
    decreases f,
{
    match f {
        Formula::Test(t) => term_value(t, env) == Some(Datum::Bool(true)),
        Formula::Compare(op, a, b) => match (term_value(a, env), term_value(b, env)) {
            (Some(x), Some(y)) => compare(op, x, y),
            _ => false,
        },
        Formula::Not(g) => !holds(*g, env),
        Formula::And(g, h) => holds(*g, env) && holds(*h, env),
        Formula::Or(g, h) => holds(*g, env) || holds(*h, env),
    }
}

/// The environment in which a step's transitions are judged: the run's
/// context, with the outcome's fields laid over it.
pub open spec fn scope(fields: Map<Seq<char>, Datum>, context: Map<Seq<char>, Datum>) -> Map<
    Seq<char>,
    Datum,
> {
    context.union_prefer_right(fields)
}

fn operand_value<'a>(o: &'a Operand, fields: &'a Context, context: &'a Context) -> (r: Option<
    &'a Scalar,
>)
    ensures
        match r {
            Some(v) => term_value(o@, scope(fields@, context@)) == Some(v@),
            None => term_value(o@, scope(fields@, context@)) is None,
        },
{
    match o {
        Operand::Var(name) => match fields.get(name.as_str()) {
            Some(v) => Some(v),
            None => context.get(name.as_str()),
        },
        Operand::Lit(value) => Some(value),
    }
}

fn compare_values(op: Comparison, a: &Scalar, b: &Scalar) -> (r: bool)
    ensures
        r == compare(op, a@, b@),
{
    match op {
        Comparison::Eq => a.same(b),
        Comparison::Ne => !a.same(b),
        _ => match (a, b) {
            (Scalar::Int(x), Scalar::Int(y)) => match op {
                Comparison::Lt => *x < *y,
                Comparison::Le => *x <= *y,
                Comparison::Gt => *x > *y,
                _ => *x >= *y,
            },
            _ => false,
        },
    }
}

impl Condition {
    /// Judges the condition against `context` with `fields` laid over it.
    pub fn holds(&self, fields: &Context, context: &Context) -> (r: bool)
        ensures
            r == holds(self@, scope(fields@, context@)),
        decreases self,
    {
        match self {
            Condition::Test(a) => match operand_value(a, fields, context) {
                Some(Scalar::Bool(b)) => *b,
                _ => false,
            },
            Condition::Compare(op, a, b) => {
                match operand_value(a, fields, context) {
                    Some(x) => match operand_value(b, fields, context) {
                        Some(y) => compare_values(*op, x, y),
                        None => false,
                    },
                    None => false,
                }
            },
            Condition::Not(c) => !c.holds(fields, context),
            Condition::And(c, d) => c.holds(fields, context) && d.holds(fields, context),
            Condition::Or(c, d) => c.holds(fields, context) || d.holds(fields, context),
        }
    }
}

// ---------------------------------------------------------------------------
// Grammar
// ---------------------------------------------------------------------------

/// The operand that the token at `pos` is.
pub open spec fn operand_at(s: Seq<char>, toks: Seq<Token>, pos: int) -> Option<Term> {
    if 0 <= pos < toks.len() {
        match toks[pos] {
            Token::Ident { start, end } => Some(Term::Var(s.subrange(start as int, end as int))),
            Token::Int(v) => Some(Term::Lit(Datum::Int(v as int))),
            Token::Text { start, end } => Some(
                Term::Lit(Datum::Text(s.subrange(start as int, end as int))),
            ),
            Token::True => Some(Term::Lit(Datum::Bool(true))),
            Token::False => Some(Term::Lit(Datum::Bool(false))),
            Token::Null => Some(Term::Lit(Datum::Null)),
            _ => None,
        }
    } else {
        None
    }
}

/// The comparison that the token at `pos` is.
pub open spec fn comparison_at(toks: Seq<Token>, pos: int) -> Option<Comparison> {
    if 0 <= pos < toks.len() {
        match toks[pos] {
            Token::Eq => Some(Comparison::Eq),
            Token::Ne => Some(Comparison::Ne),
            Token::Lt => Some(Comparison::Lt),
            Token::Le => Some(Comparison::Le),
            Token::Gt => Some(Comparison::Gt),
            Token::Ge => Some(Comparison::Ge),
            _ => None,
        }
    } else {
        None
    }
}

/// The atom that begins at `pos`, and where it ends.
pub open spec fn atom_at(s: Seq<char>, toks: Seq<Token>, pos: int) -> Option<(Formula, int)>
    decreases toks.len() - pos, 0int,
{
    if pos < 0 || pos >= toks.len() {
        None
    } else if toks[pos] is LParen {
        match condition_at(s, toks, pos + 1) {
            Some((f, p)) => if 0 <= p < toks.len() && toks[p] is RParen {
                Some((f, p + 1))
            } else {
                None
            },
            None => None,
        }
    } else {
        match operand_at(s, toks, pos) {
            None => None,
            Some(a) => match comparison_at(toks, pos + 1) {
                None => Some((Formula::Test(a), pos + 1)),
                Some(op) => match operand_at(s, toks, pos + 2) {
                    None => None,
                    Some(b) => Some((Formula::Compare(op, a, b), pos + 3)),
                },
            },
        }
    }
}

/// The negation that begins at `pos`, and where it ends.
pub open spec fn negation_at(s: Seq<char>, toks: Seq<Token>, pos: int) -> Option<(Formula, int)>
    decreases toks.len() - pos, 1int,
{
    if pos < 0 || pos >= toks.len() {
        None
    } else if toks[pos] is Not {
        match negation_at(s, toks, pos + 1) {
            Some((f, p)) => Some((Formula::Not(Box::new(f)), p)),
            None => None,
        }
    } else {
        atom_at(s, toks, pos)
    }
}

/// The conjunction that begins at `pos`, and where it ends.
pub open spec fn conjunction_at(s: Seq<char>, toks: Seq<Token>, pos: int) -> Option<
    (Formula, int),
>
    decreases toks.len() - pos, 2int,
{
    if pos < 0 || pos >= toks.len() {
        None
    } else {
        match negation_at(s, toks, pos) {
            None => None,
            Some((f, p)) => if pos <= p < toks.len() && toks[p] is And {
                match conjunction_at(s, toks, p + 1) {
                    Some((g, q)) => Some((Formula::And(Box::new(f), Box::new(g)), q)),
                    None => None,
                }
            } else {
                Some((f, p))
            },
        }
    }
}

/// The condition that begins at `pos`, and where it ends.
pub open spec fn condition_at(s: Seq<char>, toks: Seq<Token>, pos: int) -> Option<(Formula, int)>
    decreases toks.len() - pos, 3int,
{
    if pos < 0 || pos >= toks.len() {
        None
    } else {
        match conjunction_at(s, toks, pos) {
            None => None,
            Some((f, p)) => if pos <= p < toks.len() && toks[p] is Or {
                match condition_at(s, toks, p + 1) {
                    Some((g, q)) => Some((Formula::Or(Box::new(f), Box::new(g)), q)),
                    None => None,
                }
            } else {
                Some((f, p))
            },
        }
    }
}

/// The formula that the text `s` writes, if it writes one: its tokens are
/// one condition, with none left over.
pub open spec fn parse(s: Seq<char>) -> Option<Formula> {
    match tokens_of(s) {
        None => None,
        Some(toks) => match condition_at(s, toks, 0) {
            Some((f, p)) => if p == toks.len() {
                Some(f)
            } else {
                None
            },
            None => None,
        },
    }
}

/// Whether every token's positions lie within a source of `len` characters.
pub open spec fn tokens_within(toks: Seq<Token>, len: int) -> bool {
    forall|i: int| 0 <= i < toks.len() ==> token_within(#[trigger] toks[i], len)
}

/// Whether what a parsing function returned is what the grammar says.
pub open spec fn agrees(
    r: Option<(Condition, usize)>,
    expected: Option<(Formula, int)>,
    pos: int,
    len: int,
) -> bool {
    match r {
        Some((c, p)) => expected == Some((c@, p as int)) && pos < p <= len,
        None => expected is None,
    }
}

fn read_operand(text: &str, toks: &Vec<Token>, pos: usize) -> (r: Option<Operand>)
    requires
        tokens_within(toks@, text@.len() as int),
    ensures
        match r {
            Some(o) => operand_at(text@, toks@, pos as int) == Some(o@),
            None => operand_at(text@, toks@, pos as int) is None,
        },
{
    if pos >= toks.len() {
        return None;
    }
    assert(token_within(toks@[pos as int], text@.len() as int));
    match toks[pos] {
        Token::Ident { start, end } => Some(
            Operand::Var(text.substring_char(start, end).to_owned()),
        ),
        Token::Int(v) => Some(Operand::Lit(Scalar::Int(v))),
        Token::Text { start, end } => Some(
            Operand::Lit(Scalar::Text(text.substring_char(start, end).to_owned())),
        ),
        Token::True => Some(Operand::Lit(Scalar::Bool(true))),
        Token::False => Some(Operand::Lit(Scalar::Bool(false))),
        Token::Null => Some(Operand::Lit(Scalar::Null)),
        _ => None,
    }
}

fn read_comparison(toks: &Vec<Token>, pos: usize) -> (r: Option<Comparison>)
    ensures
        r == comparison_at(toks@, pos as int),
{
    if pos >= toks.len() {
        return None;
    }
    match toks[pos] {
        Token::Eq => Some(Comparison::Eq),
        Token::Ne => Some(Comparison::Ne),
        Token::Lt => Some(Comparison::Lt),
        Token::Le => Some(Comparison::Le),
        Token::Gt => Some(Comparison::Gt),
        Token::Ge => Some(Comparison::Ge),
        _ => None,
    }
}

fn read_atom(text: &str, toks: &Vec<Token>, pos: usize) -> (r: Option<(Condition, usize)>)
    requires
        tokens_within(toks@, text@.len() as int),
    ensures
        agrees(r, atom_at(text@, toks@, pos as int), pos as int, toks@.len() as int),
    decreases toks@.len() - pos, 0int,
{
    if pos >= toks.len() {
        return None;
    }
    if let Token::LParen = toks[pos] {
        match read_condition(text, toks, pos + 1) {
            Some((c, p)) => {
                if p < toks.len() {
                    if let Token::RParen = toks[p] {
                        return Some((c, p + 1));
                    }
                }
                None
            },
            None => None,
        }
    } else {
        match read_operand(text, toks, pos) {
            None => None,
            Some(a) => match read_comparison(toks, pos + 1) {
                None => Some((Condition::Test(a), pos + 1)),
                Some(op) => match read_operand(text, toks, pos + 2) {
                    None => None,
                    Some(b) => Some((Condition::Compare(op, a, b), pos + 3)),
                },
            },
        }
    }
}

fn read_negation(text: &str, toks: &Vec<Token>, pos: usize) -> (r: Option<(Condition, usize)>)
    requires
        tokens_within(toks@, text@.len() as int),
    ensures
        agrees(r, negation_at(text@, toks@, pos as int), pos as int, toks@.len() as int),
    decreases toks@.len() - pos, 1int,
{
    if pos >= toks.len() {
        return None;
    }
    if let Token::Not = toks[pos] {
        match read_negation(text, toks, pos + 1) {
            Some((c, p)) => Some((Condition::Not(Box::new(c)), p)),
            None => None,
        }
    } else {
        read_atom(text, toks, pos)
    }
}

fn read_conjunction(text: &str, toks: &Vec<Token>, pos: usize) -> (r: Option<(Condition, usize)>)
    requires
        tokens_within(toks@, text@.len() as int),
    ensures
        agrees(r, conjunction_at(text@, toks@, pos as int), pos as int, toks@.len() as int),
    decreases toks@.len() - pos, 2int,
{
    if pos >= toks.len() {
        return None;
    }
    match read_negation(text, toks, pos) {
        None => None,
        Some((c, p)) => {
            if p < toks.len() {
                if let Token::And = toks[p] {
                    return match read_conjunction(text, toks, p + 1) {
                        Some((d, q)) => Some((Condition::And(Box::new(c), Box::new(d)), q)),
                        None => None,
                    };
                }
            }
            Some((c, p))
        },
    }
}

fn read_condition(text: &str, toks: &Vec<Token>, pos: usize) -> (r: Option<(Condition, usize)>)
    requires
        tokens_within(toks@, text@.len() as int),
    ensures
        agrees(r, condition_at(text@, toks@, pos as int), pos as int, toks@.len() as int),
    decreases toks@.len() - pos, 3int,
{
    if pos >= toks.len() {
        return None;
    }
    match read_conjunction(text, toks, pos) {
        None => None,
        Some((c, p)) => {
            if p < toks.len() {
                if let Token::Or = toks[p] {
                    return match read_condition(text, toks, p + 1) {
                        Some((d, q)) => Some((Condition::Or(Box::new(c), Box::new(d)), q)),
                        None => None,
                    };
                }
            }
            Some((c, p))
        },
    }
}

/// Parses the text of a condition.
pub fn parse_condition(text: &str) -> (r: Option<Condition>)
    ensures
        match r {
            Some(c) => parse(text@) == Some(c@),
            None => parse(text@) is None,
        },
{
    let chars = chars_of(text);
    match tokenize(&chars) {
        None => None,
        Some(toks) => match read_condition(text, &toks, 0) {
            Some((c, p)) => if p == toks.len() {
                Some(c)
            } else {
                None
            },
            None => None,
        },
    }
}

} // verus!
