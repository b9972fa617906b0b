//! The parser for the textual form of BV programs.

use crate::program::{names_of, BinOp, Expr, Id, Program, UnaOp};
use crate::strings::str_eq;
use vstd::prelude::*;
use vstd::string::*;

verus! {

/// Why a text is no program.
#[derive(Clone, Copy, Debug, PartialEq, Eq, Structural)]
pub enum ParseError {
    /// The text does not go on with the token that has to come.
    Expected,
    /// The text does not go on with an identifier.
    ExpectedIdent,
    /// The word after an opening bracket names no form.
    UnrecognisedOp,
}

/// Whether `c` is a blank between tokens.
pub open spec fn is_space(c: char) -> bool {
    c == ' ' || c == '\t' || c == '\n' || c == '\r' || c == '\x0c'
}

/// Whether `c` is a letter or a digit.
pub open spec fn is_alnum(c: char) -> bool {
    ('a' <= c && c <= 'z') || ('A' <= c && c <= 'Z') || ('0' <= c && c <= '9')
}

/// How many blanks `s` begins with.
pub open spec fn space_run(s: Seq<char>) -> nat
    decreases s.len(),
{
    if s.len() > 0 && is_space(s[0]) {
        1 + space_run(s.drop_first())
    } else {
        0
    }
}

/// How many letters and digits `s` begins with.
pub open spec fn ident_run(s: Seq<char>) -> nat
    decreases s.len(),
{
    if s.len() > 0 && is_alnum(s[0]) {
        1 + ident_run(s.drop_first())
    } else {
        0
    }
}

/// `s` without the blanks it begins with.
pub open spec fn trim(s: Seq<char>) -> Seq<char> {
    s.skip(space_run(s) as int)
}

/// Whether `s` begins with `tok`.
pub open spec fn starts_with(s: Seq<char>, tok: Seq<char>) -> bool {
    tok.len() <= s.len() && s.take(tok.len() as int) == tok
}

/// The first place from `from` on at which `name` stands in `names`.
pub open spec fn position_from(names: Seq<Seq<char>>, name: Seq<char>, from: nat) -> Option<nat>
    decreases names.len() - from,
{
    if from >= names.len() {
        None
    } else if names[from as int] == name {
        Some(from)
    } else {
        position_from(names, name, from + 1)
    }
}

/// The state of a parser as plain values: the text that is left, and the
/// names met so far, each at the place that is its identifier.
pub struct Cursor {
    pub src: Seq<char>,
    pub names: Seq<Seq<char>>,
}

impl Cursor {
    /// Without the first character.
    pub open spec fn bump(self) -> Cursor {
        Cursor { src: self.src.drop_first(), ..self }
    }

    /// Without the blanks at the front.
    pub open spec fn skip_ws(self) -> Cursor {
        Cursor { src: trim(self.src), ..self }
    }

    /// Past the token `tok` and the blanks behind it, where the text begins
    /// with `tok`.
    pub open spec fn skip_str(self, tok: Seq<char>) -> (Result<(), ParseError>, Cursor) {
        if starts_with(self.src, tok) {
            (Ok(()), Cursor { src: trim(self.src.skip(tok.len() as int)), ..self })
        } else {
            (Err(ParseError::Expected), self)
        }
    }

    /// The letters and digits at the front, one at least, and the state past
    /// them and the blanks behind them.
    pub open spec fn ident_str(self) -> (Result<Seq<char>, ParseError>, Cursor) {
        let n = ident_run(self.src) as int;
        if n == 0 {
            (Err(ParseError::ExpectedIdent), self)
        } else {
            (Ok(self.src.take(n)), Cursor { src: trim(self.src.skip(n)), ..self })
        }
    }

    /// The identifier of the name at the front: the place at which the name
    /// was met first, which for a new name is the next free one.
    pub open spec fn id(self) -> (Result<Id, ParseError>, Cursor) {
        match self.ident_str() {
            (Ok(name), c) => match position_from(c.names, name, 0) {
                Some(i) => (Ok(i as Id), c),
                None => (Ok(c.names.len() as Id), Cursor { names: c.names.push(name), ..c }),
            },
            (Err(e), c) => (Err(e), c),
        }
    }

    /// The expression at the front and the state past it and the blanks
    /// behind it; or why there is none, and the state at which that showed.
    pub open spec fn expr(self) -> (Result<Expr, ParseError>, Cursor)
        decreases self.src.len(), 0nat,
    {
        if self.src.len() > 0 && self.src[0] == '0' {
            (Ok(Expr::Zero), self.bump().skip_ws())
        } else if self.src.len() > 0 && self.src[0] == '1' {
            (Ok(Expr::One), self.bump().skip_ws())
        } else if self.src.len() > 0 && self.src[0] == '(' {
            match self.bump().skip_ws().ident_str() {
                (Ok(name), c) => if c.src.len() < self.src.len() {
                    match c.form(name) {
                        (Ok(e), c) => match c.skip_str(")"@) {
                            (Ok(_), c) => (Ok(e), c.skip_ws()),
                            (Err(e), c) => (Err(e), c),
                        },
                        (Err(e), c) => (Err(e), c),
                    }
                } else {
                    (Err(ParseError::Expected), c)
                },
                (Err(e), c) => (Err(e), c),
            }
        } else {
            match self.id() {
                (Ok(id), c) => (Ok(Expr::Ident(id)), c.skip_ws()),
                (Err(e), c) => (Err(e), c),
            }
        }
    }

    /// The expression at the front, where the text has not grown above `limit`.
    pub open spec fn sub_expr(self, limit: nat) -> (Result<Expr, ParseError>, Cursor)
        decreases limit, 1nat,
    {
        if self.src.len() <= limit {
            self.expr()
        } else {
            (Err(ParseError::Expected), self)
        }
    }

    /// A unary operator's argument, and the expression of both.
    pub open spec fn op1(self, op: UnaOp) -> (Result<Expr, ParseError>, Cursor)
        decreases self.src.len(), 2nat,
    {
        match self.sub_expr(self.src.len()) {
            (Ok(e), c) => (Ok(Expr::Op1(op, Box::new(e))), c),
            (Err(e), c) => (Err(e), c),
        }
    }

    /// A binary operator's two arguments, and the expression of all three.
    pub open spec fn op2(self, op: BinOp) -> (Result<Expr, ParseError>, Cursor)
        decreases self.src.len(), 2nat,
    {
        match self.sub_expr(self.src.len()) {
            (Ok(e1), c) => match c.sub_expr(self.src.len()) {
                (Ok(e2), c) => (Ok(Expr::Op2(op, Box::new(e1), Box::new(e2))), c),
                (Err(e), c) => (Err(e), c),
            },
            (Err(e), c) => (Err(e), c),
        }
    }

    /// The three parts of an `if0`, and the expression of them.
    pub open spec fn if0(self) -> (Result<Expr, ParseError>, Cursor)
        decreases self.src.len(), 2nat,
    {
        match self.sub_expr(self.src.len()) {
            (Ok(cond), c) => match c.sub_expr(self.src.len()) {
                (Ok(then), c) => match c.sub_expr(self.src.len()) {
                    (Ok(els), c) => (
                        Ok(Expr::If0(Box::new(cond), Box::new(then), Box::new(els))),
                        c,
                    ),
                    (Err(e), c) => (Err(e), c),
                },
                (Err(e), c) => (Err(e), c),
            },
            (Err(e), c) => (Err(e), c),
        }
    }

    /// The opening of a fold's function, `( lambda ( y a )`, and its two names.
    pub open spec fn binders(self) -> (Result<(Id, Id), ParseError>, Cursor) {
        match self.skip_str("("@) {
            (Ok(_), c) => match c.skip_str("lambda"@) {
                (Ok(_), c) => match c.skip_str("("@) {
                    (Ok(_), c) => match c.id() {
                        (Ok(next), c) => match c.id() {
                            (Ok(accum), c) => match c.skip_str(")"@) {
                                (Ok(_), c) => (Ok((next, accum)), c),
                                (Err(e), c) => (Err(e), c),
                            },
                            (Err(e), c) => (Err(e), c),
                        },
                        (Err(e), c) => (Err(e), c),
                    },
                    (Err(e), c) => (Err(e), c),
                },
                (Err(e), c) => (Err(e), c),
            },
            (Err(e), c) => (Err(e), c),
        }
    }

    /// The parts of a fold up to the bracket that closes its function, and
    /// the expression of them.
    pub open spec fn fold(self) -> (Result<Expr, ParseError>, Cursor)
        decreases self.src.len(), 2nat,
    {
        match self.sub_expr(self.src.len()) {
            (Ok(foldee), c) => match c.sub_expr(self.src.len()) {
                (Ok(init), c) => match c.binders() {
                    (Ok((next_id, accum_id)), c) => match c.sub_expr(self.src.len()) {
                        (Ok(body), c) => match c.skip_str(")"@) {
                            (Ok(_), c) => (
                                Ok(
                                    Expr::Fold {
                                        foldee: Box::new(foldee),
                                        init: Box::new(init),
                                        next_id,
                                        accum_id,
                                        body: Box::new(body),
                                    },
                                ),
                                c,
                            ),
                            (Err(e), c) => (Err(e), c),
                        },
                        (Err(e), c) => (Err(e), c),
                    },
                    (Err(e), c) => (Err(e), c),
                },
                (Err(e), c) => (Err(e), c),
            },
            (Err(e), c) => (Err(e), c),
        }
    }

    /// What follows the word `name` behind an opening bracket: the parts of
    /// the form that `name` names, and the expression of them.
    pub open spec fn form(self, name: Seq<char>) -> (Result<Expr, ParseError>, Cursor)
        decreases self.src.len(), 3nat,
    {
        if name == "not"@ {
            self.op1(UnaOp::Not)
        } else if name == "shl1"@ {
            self.op1(UnaOp::Shl1)
        } else if name == "shr1"@ {
            self.op1(UnaOp::Shr1)
        } else if name == "shr4"@ {
            self.op1(UnaOp::Shr4)
        } else if name == "shr16"@ {
            self.op1(UnaOp::Shr16)
        } else if name == "and"@ {
            self.op2(BinOp::And)
        } else if name == "or"@ {
            self.op2(BinOp::Or)
        } else if name == "xor"@ {
            self.op2(BinOp::Xor)
        } else if name == "plus"@ {
            self.op2(BinOp::Plus)
        } else if name == "if0"@ {
            self.if0()
        } else if name == "fold"@ {
            self.fold()
        } else {
            (Err(ParseError::UnrecognisedOp), self)
        }
    }

    /// The program at the front, `( lambda ( x ) e )`, and the state past it.
    pub open spec fn program(self) -> (Result<Program, ParseError>, Cursor) {
        match self.skip_ws().skip_str("("@) {
            (Ok(_), c) => match c.skip_str("lambda"@) {
                (Ok(_), c) => match c.skip_str("("@) {
                    (Ok(_), c) => match c.id() {
                        (Ok(id), c) => match c.skip_str(")"@) {
                            (Ok(_), c) => match c.expr() {
                                (Ok(e), c) => match c.skip_str(")"@) {
                                    (Ok(_), c) => (Ok(Program { id, expr: Box::new(e) }), c),
                                    (Err(e), c) => (Err(e), c),
                                },
                                (Err(e), c) => (Err(e), c),
                            },
                            (Err(e), c) => (Err(e), c),
                        },
                        (Err(e), c) => (Err(e), c),
                    },
                    (Err(e), c) => (Err(e), c),
                },
                (Err(e), c) => (Err(e), c),
            },
            (Err(e), c) => (Err(e), c),
        }
    }
}

/// The outcome with the expression in a box.
pub open spec fn boxed(r: (Result<Expr, ParseError>, Cursor)) -> (Result<Box<Expr>, ParseError>, Cursor) {
    match r {
        (Ok(e), c) => (Ok(Box::new(e)), c),
        (Err(e), c) => (Err(e), c),
    }
}

/// The program that `text` holds, or why it holds none.
pub open spec fn parse_text(text: Seq<char>) -> Result<Program, ParseError> {
    (Cursor { src: text, names: Seq::empty() }).program().0
}

/// Whether `c` is a blank between tokens.
pub fn is_space_char(c: char) -> (b: bool)
    ensures
        b == is_space(c),
{
    c == ' ' || c == '\t' || c == '\n' || c == '\r' || c == '\x0c'
}

/// Whether `c` is a letter or a digit.
pub fn is_alnum_char(c: char) -> (b: bool)
    ensures
        b == is_alnum(c),
{
    ('a' <= c && c <= 'z') || ('A' <= c && c <= 'Z') || ('0' <= c && c <= '9')
}

/// A parser over a text: what is left of the text, and the names met so
/// far, each at the place that is its identifier.
pub struct Parser<'a> {
    pub src: &'a str,
    pub interned: Vec<String>,
}

impl<'a> View for Parser<'a> {
    type V = Cursor;

    open spec fn view(&self) -> Cursor {
        Cursor { src: self.src@, names: names_of(self.interned@) }
    }
}

impl<'a> Parser<'a> {
    /// A parser at the front of `src` that has met no name.
    pub fn new(src: &'a str) -> (p: Parser<'a>)
        ensures
            p@ == (Cursor { src: src@, names: Seq::empty() }),
    {
        let p = Parser { src, interned: Vec::new() };
        assert(p@.names =~= Seq::empty());
        p
    }

    /// Drops the first character.
    pub fn bump(&mut self)
        requires
            old(self)@.src.len() > 0,
        ensures
            final(self)@ == old(self)@.bump(),
    {
        let n = self.src.unicode_len();
        self.src = self.src.substring_char(1, n);
    }

    /// Drops the blanks at the front.
    pub fn skip_ws(&mut self)
        ensures
            final(self)@ == old(self)@.skip_ws(),
            final(self)@.src.len() <= old(self)@.src.len(),
    {
        proof {
            lemma_trim_shorter(self.src@);
        }
        let n = self.src.unicode_len();
        let mut offset: usize = 0;
        assert(self.src@.skip(0) =~= self.src@);
        while offset < n && is_space_char(self.src.get_char(offset))
            invariant
                self.src == old(self).src,
                n == self.src@.len(),
                0 <= offset <= n,
                space_run(self.src@) == offset + space_run(self.src@.skip(offset as int)),
            decreases n - offset,
        {
            proof {
                let rest = self.src@.skip(offset as int);
                assert(rest.drop_first() =~= self.src@.skip(offset + 1));
            }
            offset = offset + 1;
        }
        self.src = self.src.substring_char(offset, n);
    }

    /// Whether the text begins with `expected`.
    pub fn begins_with(&self, expected: &str) -> (b: bool)
        ensures
            b == starts_with(self@.src, expected@),
    {
        let n = self.src.unicode_len();
        let m = expected.unicode_len();
        if m > n {
            return false;
        }
        let mut i: usize = 0;
        while i < m
            invariant
                n == self.src@.len(),
                m == expected@.len(),
                m <= n,
                0 <= i <= m,
                forall|j: int| 0 <= j < i ==> self.src@[j] == expected@[j],
            decreases m - i,
        {
            if self.src.get_char(i) != expected.get_char(i) {
                proof {
                    assert(self.src@.take(m as int)[i as int] != expected@[i as int]);
                }
                return false;
            }
            i = i + 1;
        }
        assert(self.src@.take(m as int) =~= expected@);
        true
    }

    /// Goes past `expected`, with which the text begins, and the blanks
    /// behind it.
    pub fn skip_str(&mut self, expected: &str)
        requires
            starts_with(old(self)@.src, expected@),
        ensures
            old(self)@.skip_str(expected@) == (Ok::<(), ParseError>(()), final(self)@),
            final(self)@.src.len() <= old(self)@.src.len(),
    {
        let n = self.src.unicode_len();
        let m = expected.unicode_len();
        self.src = self.src.substring_char(m, n);
        self.skip_ws();
    }

    /// Goes past `expected` and the blanks behind it. Fails where the text
    /// does not begin with `expected`, and then stays where it is.
    fn expect(&mut self, expected: &str) -> (r: Result<(), ParseError>)
        ensures
            (r, final(self)@) == old(self)@.skip_str(expected@),
            final(self)@.src.len() <= old(self)@.src.len(),
    {
        if !self.begins_with(expected) {
            return Err(ParseError::Expected);
        }
        self.skip_str(expected);
        Ok(())
    }

    /// Whether the text begins with a letter or a digit.
    pub fn at_ident(&self) -> (b: bool)
        ensures
            b == (ident_run(self@.src) > 0),
    {
        self.src.unicode_len() > 0 && is_alnum_char(self.src.get_char(0))
    }

    /// Takes the letters and digits at the front, of which there is one at
    /// least, and goes past them and the blanks behind them.
    pub fn consume_ident_str(&mut self) -> (name: String)
        requires
            ident_run(old(self)@.src) > 0,
        ensures
            old(self)@.ident_str() == (Ok::<Seq<char>, ParseError>(name@), final(self)@),
            final(self)@.src.len() < old(self)@.src.len(),
    {
        let n = self.src.unicode_len();
        let mut offset: usize = 0;
        assert(self.src@.skip(0) =~= self.src@);
        while offset < n && is_alnum_char(self.src.get_char(offset))
            invariant
                self.src == old(self).src,
                n == self.src@.len(),
                0 <= offset <= n,
                ident_run(self.src@) == offset + ident_run(self.src@.skip(offset as int)),
            decreases n - offset,
        {
            proof {
                let rest = self.src@.skip(offset as int);
                assert(rest.drop_first() =~= self.src@.skip(offset + 1));
            }
            offset = offset + 1;
        }
        let ret = String::from_str(self.src.substring_char(0, offset));
        self.src = self.src.substring_char(offset, n);
        self.skip_ws();
        proof {
            lemma_trim_shorter(old(self)@.src.skip(offset as int));
        }
        ret
    }

    /// Takes the letters and digits at the front, and goes past them and
    /// the blanks behind them. Fails where there is none, and then stays
    /// where it is.
    fn take_ident(&mut self) -> (r: Result<String, ParseError>)
        ensures
            match old(self)@.ident_str() {
                (Ok(name), c) => r is Ok && r->Ok_0@ == name && final(self)@ == c,
                (Err(e), c) => r == Err::<String, ParseError>(e) && final(self)@ == c,
            },
            final(self)@.src.len() <= old(self)@.src.len(),
            r is Ok ==> final(self)@.src.len() < old(self)@.src.len(),
    {
        if !self.at_ident() {
            return Err(ParseError::ExpectedIdent);
        }
        Ok(self.consume_ident_str())
    }

    /// The identifier of `name`: the place at which it was met first. A new
    /// name is put down at the next free place.
    fn intern(&mut self, name: String) -> (id: Id)
        ensures
            final(self).src == old(self).src,
            match position_from(old(self)@.names, name@, 0) {
                Some(i) => id == i && final(self)@ == old(self)@,
                None => id == old(self)@.names.len() && final(self)@.names == old(self)@.names.push(
                    name@,
                ),
            },
    {
        let mut i: usize = 0;
        while i < self.interned.len()
            invariant
                *self == *old(self),
                0 <= i <= self.interned@.len(),
                position_from(self@.names, name@, 0) == position_from(self@.names, name@, i as nat),
            decreases self.interned@.len() - i,
        {
            if str_eq(self.interned[i].as_str(), name.as_str()) {
                return i;
            }
            i = i + 1;
        }
        self.interned.push(name);
        assert(self@.names =~= old(self)@.names.push(name@));
        i
    }

    /// Takes the name at the front, which begins with a letter or a digit,
    /// and gives its identifier.
    pub fn consume_id(&mut self) -> (id: Id)
        requires
            ident_run(old(self)@.src) > 0,
        ensures
            old(self)@.id() == (Ok::<Id, ParseError>(id), final(self)@),
            final(self)@.src.len() < old(self)@.src.len(),
    {
        let s = self.consume_ident_str();
        self.intern(s)
    }

    /// Takes the name at the front and gives its identifier. Fails where
    /// the text begins with no name, and then stays where it is.
    fn take_id(&mut self) -> (r: Result<Id, ParseError>)
        ensures
            (r, final(self)@) == old(self)@.id(),
            final(self)@.src.len() <= old(self)@.src.len(),
            r is Ok ==> final(self)@.src.len() < old(self)@.src.len(),
    {
        if !self.at_ident() {
            return Err(ParseError::ExpectedIdent);
        }
        Ok(self.consume_id())
    }
}

impl<'a> Parser<'a> {
    /// Takes the expression at the front, and goes past it and the blanks
    /// behind it. Where there is none, says why, and stays where that showed.
    pub fn consume_expr(&mut self) -> (r: Result<Box<Expr>, ParseError>)
        ensures
            (r, final(self)@) == boxed(old(self)@.expr()),
            final(self)@.src.len() <= old(self)@.src.len(),
        decreases old(self)@.src.len(), 0nat,
    {
        let n = self.src.unicode_len();
        let first = if n > 0 {
            self.src.get_char(0)
        } else {
            ' '
        };
        if n > 0 && first == '0' {
            self.bump();
            self.skip_ws();
            Ok(Box::new(Expr::Zero))
        } else if n > 0 && first == '1' {
            self.bump();
            self.skip_ws();
            Ok(Box::new(Expr::One))
        } else if n > 0 && first == '(' {
            self.bump();
            self.skip_ws();
            let s = match self.take_ident() {
                Ok(s) => s,
                Err(e) => { return Err(e); },
            };
            let r = match self.consume_form(s.as_str()) {
                Ok(r) => r,
                Err(e) => { return Err(e); },
            };
            match self.expect(")") {
                Ok(_) => {},
                Err(e) => { return Err(e); },
            }
            self.skip_ws();
            Ok(r)
        } else {
            let id = match self.take_id() {
                Ok(id) => id,
                Err(e) => { return Err(e); },
            };
            self.skip_ws();
            Ok(Box::new(Expr::Ident(id)))
        }
    }

    /// Takes what follows the word `name` behind an opening bracket.
    fn consume_form(&mut self, name: &str) -> (r: Result<Box<Expr>, ParseError>)
        ensures
            (r, final(self)@) == boxed(old(self)@.form(name@)),
            final(self)@.src.len() <= old(self)@.src.len(),
        decreases old(self)@.src.len(), 3nat,
    {
        if str_eq(name, "not") {
            self.consume_op1(UnaOp::Not)
        } else if str_eq(name, "shl1") {
            self.consume_op1(UnaOp::Shl1)
        } else if str_eq(name, "shr1") {
            self.consume_op1(UnaOp::Shr1)
        } else if str_eq(name, "shr4") {
            self.consume_op1(UnaOp::Shr4)
        } else if str_eq(name, "shr16") {
            self.consume_op1(UnaOp::Shr16)
        } else if str_eq(name, "and") {
            self.consume_op2(BinOp::And)
        } else if str_eq(name, "or") {
            self.consume_op2(BinOp::Or)
        } else if str_eq(name, "xor") {
            self.consume_op2(BinOp::Xor)
        } else if str_eq(name, "plus") {
            self.consume_op2(BinOp::Plus)
        } else if str_eq(name, "if0") {
            self.consume_if0()
        } else if str_eq(name, "fold") {
            self.consume_fold()
        } else {
            Err(ParseError::UnrecognisedOp)
        }
    }

    /// Takes the argument of the unary operator `op`.
    pub fn consume_op1(&mut self, op: UnaOp) -> (r: Result<Box<Expr>, ParseError>)
        ensures
            (r, final(self)@) == boxed(old(self)@.op1(op)),
            final(self)@.src.len() <= old(self)@.src.len(),
        decreases old(self)@.src.len(), 2nat,
    {
        match self.consume_expr() {
            Ok(e) => Ok(Box::new(Expr::Op1(op, e))),
            Err(e) => Err(e),
        }
    }

    /// Takes the two arguments of the binary operator `op`.
    pub fn consume_op2(&mut self, op: BinOp) -> (r: Result<Box<Expr>, ParseError>)
        ensures
            (r, final(self)@) == boxed(old(self)@.op2(op)),
            final(self)@.src.len() <= old(self)@.src.len(),
        decreases old(self)@.src.len(), 2nat,
    {
        let e1 = match self.consume_expr() {
            Ok(e) => e,
            Err(e) => { return Err(e); },
        };
        let e2 = match self.consume_expr() {
            Ok(e) => e,
            Err(e) => { return Err(e); },
        };
        Ok(Box::new(Expr::Op2(op, e1, e2)))
    }

    /// Takes the three parts of an `if0`.
    fn consume_if0(&mut self) -> (r: Result<Box<Expr>, ParseError>)
        ensures
            (r, final(self)@) == boxed(old(self)@.if0()),
            final(self)@.src.len() <= old(self)@.src.len(),
        decreases old(self)@.src.len(), 2nat,
    {
        let cond = match self.consume_expr() {
            Ok(e) => e,
            Err(e) => { return Err(e); },
        };
        let then = match self.consume_expr() {
            Ok(e) => e,
            Err(e) => { return Err(e); },
        };
        let els = match self.consume_expr() {
            Ok(e) => e,
            Err(e) => { return Err(e); },
        };
        Ok(Box::new(Expr::If0(cond, then, els)))
    }

    /// Takes the opening of a fold's function and gives its two names.
    fn consume_binders(&mut self) -> (r: Result<(Id, Id), ParseError>)
        ensures
            (r, final(self)@) == old(self)@.binders(),
            final(self)@.src.len() <= old(self)@.src.len(),
    {
        match self.expect("(") {
            Ok(_) => {},
            Err(e) => { return Err(e); },
        }
        match self.expect("lambda") {
            Ok(_) => {},
            Err(e) => { return Err(e); },
        }
        match self.expect("(") {
            Ok(_) => {},
            Err(e) => { return Err(e); },
        }
        let next = match self.take_id() {
            Ok(id) => id,
            Err(e) => { return Err(e); },
        };
        let accum = match self.take_id() {
            Ok(id) => id,
            Err(e) => { return Err(e); },
        };
        match self.expect(")") {
            Ok(_) => {},
            Err(e) => { return Err(e); },
        }
        Ok((next, accum))
    }

    /// Takes the parts of a fold up to the bracket that closes its function.
    fn consume_fold(&mut self) -> (r: Result<Box<Expr>, ParseError>)
        ensures
            (r, final(self)@) == boxed(old(self)@.fold()),
            final(self)@.src.len() <= old(self)@.src.len(),
        decreases old(self)@.src.len(), 2nat,
    {
        let foldee = match self.consume_expr() {
            Ok(e) => e,
            Err(e) => { return Err(e); },
        };
        let init = match self.consume_expr() {
            Ok(e) => e,
            Err(e) => { return Err(e); },
        };
        let (next_id, accum_id) = match self.consume_binders() {
            Ok(ids) => ids,
            Err(e) => { return Err(e); },
        };
        let body = match self.consume_expr() {
            Ok(e) => e,
            Err(e) => { return Err(e); },
        };
        match self.expect(")") {
            Ok(_) => {},
            Err(e) => { return Err(e); },
        }
        Ok(Box::new(Expr::Fold { foldee, init, next_id, accum_id, body }))
    }

    /// Takes the program at the front, `( lambda ( x ) e )`. Where there is
    /// none, says why, and stays where that showed.
    pub fn parse(&mut self) -> (r: Result<Program, ParseError>)
        ensures
            (r, final(self)@) == old(self)@.program(),
    {
        self.skip_ws();
        match self.expect("(") {
            Ok(_) => {},
            Err(e) => { return Err(e); },
        }
        match self.expect("lambda") {
            Ok(_) => {},
            Err(e) => { return Err(e); },
        }
        match self.expect("(") {
            Ok(_) => {},
            Err(e) => { return Err(e); },
        }
        let id = match self.take_id() {
            Ok(id) => id,
            Err(e) => { return Err(e); },
        };
        match self.expect(")") {
            Ok(_) => {},
            Err(e) => { return Err(e); },
        }
        let expr = match self.consume_expr() {
            Ok(e) => e,
            Err(e) => { return Err(e); },
        };
        match self.expect(")") {
            Ok(_) => {},
            Err(e) => { return Err(e); },
        }
        Ok(Program { id, expr })
    }
}

/// What can be read as a program.
pub trait Parse {
    /// The program that the value holds, or why it holds none.
    spec fn parsed(&self) -> Result<Program, ParseError>;

    fn parse(&self) -> (r: Result<Program, ParseError>)
        ensures
            r == self.parsed(),
    ;
}

impl<'a> Parse for &'a str {
    open spec fn parsed(&self) -> Result<Program, ParseError> {
        parse_text(self@)
    }

    fn parse(&self) -> (r: Result<Program, ParseError>) {
        Parser::new(*self).parse()
    }
}

/// A text is no longer without the blanks it begins with.
pub proof fn lemma_trim_shorter(s: Seq<char>)
    ensures
        space_run(s) <= s.len(),
        trim(s).len() <= s.len(),
    decreases s.len(),
{
    if s.len() > 0 && is_space(s[0]) {
        lemma_trim_shorter(s.drop_first());
    }
}

} // verus!
