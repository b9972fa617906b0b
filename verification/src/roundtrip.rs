//! What reading a printed program gives back.
//!
//! The parser numbers the names of a text in the order in which it meets
//! them. Reading the text of a program therefore gives the program with its
//! identifiers renumbered in that order: the same program where they are so
//! numbered already, and always one of the same size and the same meaning.

use crate::eval::{eval_expr, eval_fold, fold_byte, ROUNDS};
use crate::gen::{scoped, RandomGenState};
use crate::parse::{
    ident_run, is_alnum, is_space, parse_text, position_from, space_run, trim, Cursor, ParseError,
};
use crate::print::{id_text, lemma_assoc, letter};
use crate::program::{BinOp, Expr, Id, Program, UnaOp};
use vstd::prelude::*;

verus! {

/// The letters are the 26 characters from `a` on.
proof fn lemma_letter(d: nat)
    requires
        d < 26,
    ensures
        letter(d) as int == 97 + d,
        is_alnum(letter(d)),
        !is_space(letter(d)),
        letter(d) != '0' && letter(d) != '1' && letter(d) != '(' && letter(d) != ')',
{
    reveal_strlit("abcdefghijklmnopqrstuvwxyz");
    let s = "abcdefghijklmnopqrstuvwxyz"@;
    assert(s[0] == 'a' && s[1] == 'b' && s[2] == 'c' && s[3] == 'd' && s[4] == 'e' && s[5] == 'f'
        && s[6] == 'g' && s[7] == 'h' && s[8] == 'i' && s[9] == 'j' && s[10] == 'k' && s[11] == 'l'
        && s[12] == 'm');
    assert(s[13] == 'n' && s[14] == 'o' && s[15] == 'p' && s[16] == 'q' && s[17] == 'r' && s[18]
        == 's' && s[19] == 't' && s[20] == 'u' && s[21] == 'v' && s[22] == 'w' && s[23] == 'x'
        && s[24] == 'y' && s[25] == 'z');
}

/// A name is made of letters, one at least.
proof fn lemma_id_text_letters(n: nat)
    ensures
        id_text(n).len() >= 1,
        n >= 26 ==> id_text(n).len() >= 2,
        forall|k: int|
            0 <= k < id_text(n).len() ==> {
                let c = #[trigger] id_text(n)[k];
                is_alnum(c) && !is_space(c) && c != '0' && c != '1' && c != '(' && c != ')'
            },
    decreases n,
{
    lemma_letter(n % 26);
    if n >= 26 {
        lemma_id_text_letters(n / 26);
    }
}

/// Two identifiers with one name are one identifier.
proof fn lemma_id_text_injective(a: nat, b: nat)
    requires
        id_text(a) == id_text(b),
    ensures
        a == b,
    decreases a,
{
    lemma_letter(a % 26);
    lemma_letter(b % 26);
    lemma_id_text_letters(a);
    lemma_id_text_letters(b);
    assert(id_text(a)[0] == letter(a % 26));
    assert(id_text(b)[0] == letter(b % 26));
    if a >= 26 {
        assert(b >= 26);
        assert(id_text(a).drop_first() =~= id_text(a / 26));
        assert(id_text(b).drop_first() =~= id_text(b / 26));
        lemma_id_text_injective(a / 26, b / 26);
    } else {
        assert(b < 26);
    }
}

/// The first place from `from` on at which `id` stands in `table`.
pub open spec fn rank_from(table: Seq<Id>, id: Id, from: nat) -> Option<nat>
    decreases table.len() - from,
{
    if from >= table.len() {
        None
    } else if table[from as int] == id {
        Some(from)
    } else {
        rank_from(table, id, from + 1)
    }
}

/// The names of the identifiers of `table`.
spec fn table_names(table: Seq<Id>) -> Seq<Seq<char>> {
    Seq::new(table.len(), |i: int| id_text(table[i] as nat))
}

/// The place of a name among the names of a table is the place of its
/// identifier in the table.
proof fn lemma_position_is_rank(table: Seq<Id>, id: Id, from: nat)
    ensures
        position_from(table_names(table), id_text(id as nat), from) == rank_from(table, id, from),
    decreases table.len() - from,
{
    if from < table.len() {
        if table[from as int] != id {
            if id_text(table[from as int] as nat) == id_text(id as nat) {
                lemma_id_text_injective(table[from as int] as nat, id as nat);
            }
            lemma_position_is_rank(table, id, from + 1);
        }
    }
}

/// What `rank_from` finds is a place of `id` at or behind `from`, and the first.
proof fn lemma_rank(table: Seq<Id>, id: Id, from: nat)
    ensures
        match rank_from(table, id, from) {
            Some(i) => from <= i < table.len() && table[i as int] == id && forall|j: int|
                from <= j < i ==> table[j] != id,
            None => forall|j: int| from <= j < table.len() ==> table[j] != id,
        },
    decreases table.len() - from,
{
    if from < table.len() && table[from as int] != id {
        lemma_rank(table, id, from + 1);
    }
}

/// Whether an expression can end in front of `rest`: nothing follows, or
/// no letter and no digit.
spec fn stops(rest: Seq<char>) -> bool {
    rest.len() == 0 || !is_alnum(rest[0])
}

/// A text that begins with no blank is left as it is.
proof fn lemma_trim_none(s: Seq<char>)
    requires
        s.len() == 0 || !is_space(s[0]),
    ensures
        trim(s) == s,
{
    assert(s.skip(0) =~= s);
}

/// One blank at the front goes with the blanks behind it.
proof fn lemma_trim_blank(s: Seq<char>)
    ensures
        trim(seq![' '] + s) == trim(s),
{
    let t = seq![' '] + s;
    crate::parse::lemma_trim_shorter(s);
    assert(t.drop_first() =~= s);
    assert(t.skip(1 + space_run(s) as int) =~= s.skip(space_run(s) as int));
}

/// What is left without its blanks begins with no blank.
proof fn lemma_trimmed(s: Seq<char>)
    ensures
        space_run(s) <= s.len(),
        trim(s).len() == 0 || !is_space(trim(s)[0]),
        trim(trim(s)) == trim(s),
    decreases s.len(),
{
    if s.len() > 0 && is_space(s[0]) {
        lemma_trimmed(s.drop_first());
        assert(s.drop_first().skip(space_run(s.drop_first()) as int) =~= s.skip(
            space_run(s) as int,
        ));
    } else {
        assert(s.skip(0) =~= s);
    }
    lemma_trim_none(trim(s));
}

/// A word in front of what stops it is the run of letters and digits.
proof fn lemma_ident_run(word: Seq<char>, rest: Seq<char>)
    requires
        forall|k: int| 0 <= k < word.len() ==> is_alnum(#[trigger] word[k]),
        stops(rest),
    ensures
        ident_run(word + rest) == word.len(),
    decreases word.len(),
{
    if word.len() == 0 {
        assert(word + rest =~= rest);
    } else {
        assert((word + rest).drop_first() =~= word.drop_first() + rest);
        assert((word + rest)[0] == word[0]);
        lemma_ident_run(word.drop_first(), rest);
    }
}

/// A token at the front is skipped with the blanks behind it.
proof fn lemma_skip_token(tok: Seq<char>, rest: Seq<char>, names: Seq<Seq<char>>)
    ensures
        (Cursor { src: tok + rest, names }).skip_str(tok) == (
            Ok::<(), ParseError>(()),
            Cursor { src: trim(rest), names },
        ),
{
    let s = tok + rest;
    assert(s.take(tok.len() as int) =~= tok);
    assert(s.skip(tok.len() as int) =~= rest);
}

/// A word at the front, in front of what stops it, is taken with the
/// blanks behind it.
proof fn lemma_take_word(word: Seq<char>, rest: Seq<char>, names: Seq<Seq<char>>)
    requires
        word.len() > 0,
        forall|k: int| 0 <= k < word.len() ==> is_alnum(#[trigger] word[k]),
        stops(rest),
    ensures
        (Cursor { src: word + rest, names }).ident_str() == (
            Ok::<Seq<char>, ParseError>(word),
            Cursor { src: trim(rest), names },
        ),
{
    lemma_ident_run(word, rest);
    let s = word + rest;
    assert(s.take(word.len() as int) =~= word);
    assert(s.skip(word.len() as int) =~= rest);
}

/// The identifier that the parser gives to `id` where `table` lists the
/// identifiers met so far, and the table after that: the place of `id` in
/// the table, which for a new one is the end.
pub open spec fn note(table: Seq<Id>, id: Id) -> (Id, Seq<Id>) {
    match rank_from(table, id, 0) {
        Some(i) => (i as Id, table),
        None => (table.len() as Id, table.push(id)),
    }
}

/// The name of an identifier at the front is read as the place of the
/// identifier in the table.
proof fn lemma_take_id(id: Id, table: Seq<Id>, rest: Seq<char>)
    requires
        stops(rest),
    ensures
        (Cursor { src: id_text(id as nat) + rest, names: table_names(table) }).id() == (
            Ok::<Id, ParseError>(note(table, id).0),
            Cursor { src: trim(rest), names: table_names(note(table, id).1) },
        ),
{
    lemma_id_text_letters(id as nat);
    lemma_take_word(id_text(id as nat), rest, table_names(table));
    lemma_position_is_rank(table, id, 0);
    assert(table_names(table.push(id)) =~= table_names(table).push(id_text(id as nat)));
}

/// Whether `w` is a word: letters and digits, one at least.
spec fn is_word(w: Seq<char>) -> bool {
    w.len() > 0 && forall|k: int| 0 <= k < w.len() ==> is_alnum(#[trigger] w[k])
}

/// The name of a unary operator is a word, and the form it opens is that
/// of the operator.
proof fn lemma_op1_form(op: UnaOp, c: Cursor)
    ensures
        is_word(op.name()),
        c.form(op.name()) == c.op1(op),
{
    reveal_strlit("not");
    reveal_strlit("shl1");
    reveal_strlit("shr1");
    reveal_strlit("shr4");
    reveal_strlit("shr16");
    let n = op.name();
    match op {
        UnaOp::Not => {
            assert(n[0] == 'n' && n[1] == 'o' && n[2] == 't');
            assert(c.form(n) == c.op1(op));
        },
        UnaOp::Shl1 => {
            assert(n[0] == 's' && n[1] == 'h' && n[2] == 'l' && n[3] == '1');
            assert("shl1"@[2] != "shr1"@[2]);
            assert(c.form(n) == c.op1(op));
        },
        UnaOp::Shr1 => {
            assert(n[0] == 's' && n[1] == 'h' && n[2] == 'r' && n[3] == '1');
            assert("shl1"@[2] != "shr1"@[2]);
            assert(c.form(n) == c.op1(op));
        },
        UnaOp::Shr4 => {
            assert(n[0] == 's' && n[1] == 'h' && n[2] == 'r' && n[3] == '4');
            assert("shl1"@[2] != "shr4"@[2]);
            assert("shr1"@[3] != "shr4"@[3]);
            assert(c.form(n) == c.op1(op));
        },
        UnaOp::Shr16 => {
            assert(n[0] == 's' && n[1] == 'h' && n[2] == 'r' && n[3] == '1' && n[4] == '6');
            assert(n.len() == 5 && "not"@.len() == 3 && "shl1"@.len() == 4 && "shr1"@.len() == 4
                && "shr4"@.len() == 4);
            assert(c.form(n) == c.op1(op));
        },
    }
}

/// The name of a binary operator is a word, and the form it opens is that
/// of the operator.
proof fn lemma_op2_form(op: BinOp, c: Cursor)
    ensures
        is_word(op.name()),
        c.form(op.name()) == c.op2(op),
{
    reveal_strlit("not");
    reveal_strlit("shl1");
    reveal_strlit("shr1");
    reveal_strlit("shr4");
    reveal_strlit("shr16");
    reveal_strlit("and");
    reveal_strlit("or");
    reveal_strlit("xor");
    reveal_strlit("plus");
    let n = op.name();
    match op {
        BinOp::And => {
            assert(n[0] == 'a' && n[1] == 'n' && n[2] == 'd');
            assert("not"@[0] != "and"@[0]);
        },
        BinOp::Or => {
            assert(n[0] == 'o' && n[1] == 'r');
        },
        BinOp::Xor => {
            assert(n[0] == 'x' && n[1] == 'o' && n[2] == 'r');
            assert("not"@[0] != "xor"@[0]);
            assert("and"@[0] != "xor"@[0]);
        },
        BinOp::Plus => {
            assert(n[0] == 'p' && n[1] == 'l' && n[2] == 'u' && n[3] == 's');
            assert("shl1"@[0] != "plus"@[0]);
            assert("shr1"@[0] != "plus"@[0]);
            assert("shr4"@[0] != "plus"@[0]);
        },
    }
}

/// `if0` is a word, and the form it opens is that of `if0`.
proof fn lemma_if0_form(c: Cursor)
    ensures
        is_word("if0"@),
        c.form("if0"@) == c.if0(),
{
    reveal_strlit("not");
    reveal_strlit("shl1");
    reveal_strlit("shr1");
    reveal_strlit("shr4");
    reveal_strlit("shr16");
    reveal_strlit("and");
    reveal_strlit("or");
    reveal_strlit("xor");
    reveal_strlit("plus");
    reveal_strlit("if0");
    let n = "if0"@;
    assert(n[0] == 'i' && n[1] == 'f' && n[2] == '0');
    assert("not"@[0] != n[0]);
    assert("and"@[0] != n[0]);
    assert("xor"@[0] != n[0]);
}

/// `fold` is a word, and the form it opens is that of a fold.
proof fn lemma_fold_form(c: Cursor)
    ensures
        is_word("fold"@),
        c.form("fold"@) == c.fold(),
{
    reveal_strlit("not");
    reveal_strlit("shl1");
    reveal_strlit("shr1");
    reveal_strlit("shr4");
    reveal_strlit("shr16");
    reveal_strlit("and");
    reveal_strlit("or");
    reveal_strlit("xor");
    reveal_strlit("plus");
    reveal_strlit("if0");
    reveal_strlit("fold");
    let n = "fold"@;
    assert(n[0] == 'f' && n[1] == 'o' && n[2] == 'l' && n[3] == 'd');
    assert("shl1"@[0] != n[0]);
    assert("shr1"@[0] != n[0]);
    assert("shr4"@[0] != n[0]);
    assert("plus"@[0] != n[0]);
}

/// The short texts between the parts of a printed form, character by character.
proof fn lemma_marks()
    ensures
        "("@ == seq!['('],
        ")"@ == seq![')'],
        " "@ == seq![' '],
        "0"@ == seq!['0'],
        "1"@ == seq!['1'],
        "(if0 "@ == seq!['('] + "if0"@ + seq![' '],
        "(fold "@ == seq!['('] + "fold"@ + seq![' '],
        " (lambda ("@ == seq![' '] + seq!['('] + "lambda"@ + seq![' '] + seq!['('],
        "(lambda ("@ == seq!['('] + "lambda"@ + seq![' '] + seq!['('],
        ") "@ == seq![')'] + seq![' '],
        "))"@ == seq![')'] + seq![')'],
        "lambda"@.len() == 6,
        "lambda"@[0] == 'l',
{
    reveal_strlit("(");
    reveal_strlit(")");
    reveal_strlit(" ");
    reveal_strlit("0");
    reveal_strlit("1");
    reveal_strlit("if0");
    reveal_strlit("fold");
    reveal_strlit("lambda");
    reveal_strlit("(if0 ");
    reveal_strlit("(fold ");
    reveal_strlit(" (lambda (");
    reveal_strlit("(lambda (");
    reveal_strlit(") ");
    reveal_strlit("))");
    assert("("@ =~= seq!['(']);
    assert(")"@ =~= seq![')']);
    assert(" "@ =~= seq![' ']);
    assert("0"@ =~= seq!['0']);
    assert("1"@ =~= seq!['1']);
    assert("(if0 "@ =~= seq!['('] + "if0"@ + seq![' ']);
    assert("(fold "@ =~= seq!['('] + "fold"@ + seq![' ']);
    assert(" (lambda ("@ =~= seq![' '] + seq!['('] + "lambda"@ + seq![' '] + seq!['(']);
    assert("(lambda ("@ =~= seq!['('] + "lambda"@ + seq![' '] + seq!['(']);
    assert(") "@ =~= seq![')'] + seq![' ']);
    assert("))"@ =~= seq![')'] + seq![')']);
}

/// A printed expression begins with no blank: with its digit, with a
/// letter of its name, or with an opening bracket.
proof fn lemma_text_head(e: Expr)
    ensures
        e.text().len() > 0,
        !is_space(e.text()[0]),
        match e {
            Expr::Zero => e.text() == seq!['0'],
            Expr::One => e.text() == seq!['1'],
            Expr::Ident(id) => e.text() == id_text(id as nat),
            _ => e.text()[0] == '(',
        },
{
    lemma_marks();
    match e {
        Expr::Ident(id) => {
            lemma_id_text_letters(id as nat);
        },
        Expr::Op1(op, a) => {
            assert(e.text()[0] == "("@[0]);
        },
        Expr::Op2(op, l, r) => {
            assert(e.text()[0] == "("@[0]);
        },
        Expr::If0(c, t, f) => {
            assert(e.text()[0] == "(if0 "@[0]);
        },
        Expr::Fold { .. } => {
            assert(e.text()[0] == "(fold "@[0]);
        },
        _ => {},
    }
}

/// An opening bracket, a word and a blank in front of `x` are read as the
/// word, and leave `x`.
proof fn lemma_open(word: Seq<char>, x: Seq<char>, names: Seq<Seq<char>>)
    requires
        is_word(word),
        x.len() > 0,
        !is_space(x[0]),
    ensures
        ({
            let s = seq!['('] + word + seq![' '] + x;
            &&& s.len() > x.len()
            &&& s[0] == '('
            &&& (Cursor { src: s, names }).bump().skip_ws().ident_str() == (
                Ok::<Seq<char>, ParseError>(word),
                Cursor { src: x, names },
            )
        }),
{
    let s = seq!['('] + word + seq![' '] + x;
    let rest = seq![' '] + x;
    assert(s.drop_first() =~= word + rest);
    assert((word + rest)[0] == word[0]);
    lemma_trim_none(word + rest);
    lemma_take_word(word, rest, names);
    lemma_trim_blank(x);
    lemma_trim_none(x);
}

/// A closing bracket in front of `rest` is skipped with the blanks behind it.
proof fn lemma_close(rest: Seq<char>, names: Seq<Seq<char>>)
    ensures
        (Cursor { src: seq![')'] + rest, names }).skip_str(")"@) == (
            Ok::<(), ParseError>(()),
            Cursor { src: trim(rest), names },
        ),
        (Cursor { src: trim(rest), names }).skip_ws() == (Cursor { src: trim(rest), names }),
        trim(seq![')'] + rest) == seq![')'] + rest,
        stops(seq![')'] + rest),
{
    lemma_marks();
    lemma_skip_token(seq![')'], rest, names);
    lemma_trimmed(rest);
    lemma_trim_none(seq![')'] + rest);
}

/// The expression `e` with its identifiers renumbered in the order in
/// which its text names them, after those of `table`; and the table with
/// the new ones at its end.
pub open spec fn relabel(e: Expr, table: Seq<Id>) -> (Expr, Seq<Id>)
    decreases e,
{
    match e {
        Expr::Zero => (e, table),
        Expr::One => (e, table),
        Expr::Ident(id) => (Expr::Ident(note(table, id).0), note(table, id).1),
        Expr::If0(c, t, f) => {
            let (c, table) = relabel(*c, table);
            let (t, table) = relabel(*t, table);
            let (f, table) = relabel(*f, table);
            (Expr::If0(Box::new(c), Box::new(t), Box::new(f)), table)
        },
        Expr::Op1(op, a) => {
            let (a, table) = relabel(*a, table);
            (Expr::Op1(op, Box::new(a)), table)
        },
        Expr::Op2(op, l, r) => {
            let (l, table) = relabel(*l, table);
            let (r, table) = relabel(*r, table);
            (Expr::Op2(op, Box::new(l), Box::new(r)), table)
        },
        Expr::Fold { foldee, init, next_id, accum_id, body } => {
            let (foldee, table) = relabel(*foldee, table);
            let (init, table) = relabel(*init, table);
            let (next_id, table) = note(table, next_id);
            let (accum_id, table) = note(table, accum_id);
            let (body, table) = relabel(*body, table);
            (
                Expr::Fold {
                    foldee: Box::new(foldee),
                    init: Box::new(init),
                    next_id,
                    accum_id,
                    body: Box::new(body),
                },
                table,
            )
        },
    }
}

/// The program `p` with its identifiers renumbered from 0 in the order in
/// which its text names them.
pub open spec fn renumbered(p: Program) -> Program {
    let (id, table) = note(Seq::empty(), p.id);
    Program { id, expr: Box::new(relabel(*p.expr, table).0) }
}

/// What reading the text of `e` gives, in front of `rest` and with the
/// identifiers of `table` met before.
spec fn read_back(e: Expr, table: Seq<Id>, rest: Seq<char>) -> (
    Result<Expr, ParseError>,
    Cursor,
) {
    (
        Ok(relabel(e, table).0),
        Cursor { src: trim(rest), names: table_names(relabel(e, table).1) },
    )
}

/// Reading the text of an expression gives the expression renumbered.
proof fn lemma_read_expr(e: Expr, table: Seq<Id>, rest: Seq<char>)
    requires
        stops(rest),
    ensures
        (Cursor { src: e.text() + rest, names: table_names(table) }).expr() == read_back(
            e,
            table,
            rest,
        ),
    decreases e, 1nat,
{
    let names = table_names(table);
    let s = e.text() + rest;
    lemma_text_head(e);
    lemma_trimmed(rest);
    match e {
        Expr::Zero => {
            assert(s.drop_first() =~= rest);
        },
        Expr::One => {
            assert(s.drop_first() =~= rest);
        },
        Expr::Ident(id) => {
            lemma_id_text_letters(id as nat);
            lemma_take_id(id, table, rest);
            assert(s[0] == id_text(id as nat)[0]);
        },
        Expr::Op1(op, a) => {
            lemma_read_op1(e, table, rest);
        },
        Expr::Op2(op, l, r) => {
            lemma_read_op2(e, table, rest);
        },
        Expr::If0(c, t, f) => {
            lemma_read_if0(e, table, rest);
        },
        Expr::Fold { foldee, init, next_id, accum_id, body } => {
            lemma_read_fold(e, table, rest);
        },
    }
}

/// Reading the text of a unary operator's expression.
proof fn lemma_read_op1(e: Expr, table: Seq<Id>, rest: Seq<char>)
    requires
        e is Op1,
        stops(rest),
    ensures
        (Cursor { src: e.text() + rest, names: table_names(table) }).expr() == read_back(
            e,
            table,
            rest,
        ),
    decreases e, 0nat,
{
    let op = e->Op1_0;
    let a = *e->Op1_1;
    let names = table_names(table);
    let s = e.text() + rest;
    let tail = seq![')'] + rest;
    let x = a.text() + tail;
    lemma_marks();
    lemma_text_head(a);
    assert(s =~= seq!['('] + op.name() + seq![' '] + x);
    let c1 = Cursor { src: x, names };
    lemma_op1_form(op, c1);
    lemma_open(op.name(), x, names);
    lemma_close(rest, table_names(relabel(a, table).1));
    lemma_read_expr(a, table, tail);
}

/// Reading the text of a binary operator's expression.
proof fn lemma_read_op2(e: Expr, table: Seq<Id>, rest: Seq<char>)
    requires
        e is Op2,
        stops(rest),
    ensures
        (Cursor { src: e.text() + rest, names: table_names(table) }).expr() == read_back(
            e,
            table,
            rest,
        ),
    decreases e, 0nat,
{
    let op = e->Op2_0;
    let l = *e->Op2_1;
    let r = *e->Op2_2;
    let names = table_names(table);
    let s = e.text() + rest;
    let tail = seq![')'] + rest;
    let x2 = r.text() + tail;
    let tail1 = seq![' '] + x2;
    let x1 = l.text() + tail1;
    lemma_marks();
    lemma_text_head(l);
    lemma_text_head(r);
    assert(s =~= seq!['('] + op.name() + seq![' '] + x1);
    let c1 = Cursor { src: x1, names };
    lemma_op2_form(op, c1);
    lemma_open(op.name(), x1, names);
    lemma_read_expr(l, table, tail1);
    let table1 = relabel(l, table).1;
    lemma_trim_blank(x2);
    lemma_trim_none(x2);
    lemma_read_expr(r, table1, tail);
    lemma_close(rest, table_names(relabel(r, table1).1));
}

/// Reading the text of an `if0`.
proof fn lemma_read_if0(e: Expr, table: Seq<Id>, rest: Seq<char>)
    requires
        e is If0,
        stops(rest),
    ensures
        (Cursor { src: e.text() + rest, names: table_names(table) }).expr() == read_back(
            e,
            table,
            rest,
        ),
    decreases e, 0nat,
{
    let c = *e->If0_0;
    let t = *e->If0_1;
    let f = *e->If0_2;
    let names = table_names(table);
    let s = e.text() + rest;
    let tail = seq![')'] + rest;
    let x3 = f.text() + tail;
    let tail2 = seq![' '] + x3;
    let x2 = t.text() + tail2;
    let tail1 = seq![' '] + x2;
    let x1 = c.text() + tail1;
    lemma_marks();
    lemma_text_head(c);
    lemma_text_head(t);
    lemma_text_head(f);
    assert(s =~= seq!['('] + "if0"@ + seq![' '] + x1);
    let c1 = Cursor { src: x1, names };
    lemma_if0_form(c1);
    lemma_open("if0"@, x1, names);
    lemma_read_expr(c, table, tail1);
    let table1 = relabel(c, table).1;
    lemma_trim_blank(x2);
    lemma_trim_none(x2);
    lemma_read_expr(t, table1, tail2);
    let table2 = relabel(t, table1).1;
    lemma_trim_blank(x3);
    lemma_trim_none(x3);
    lemma_read_expr(f, table2, tail);
    lemma_close(rest, table_names(relabel(f, table2).1));
}

/// The text that opens the function of a fold, with its two names, in
/// front of the body `x`.
spec fn binders_text(next_id: Id, accum_id: Id, x: Seq<char>) -> Seq<char> {
    seq!['('] + ("lambda"@ + (seq![' '] + (seq!['('] + (id_text(next_id as nat) + (seq![' '] + (
    id_text(accum_id as nat) + (seq![')'] + (seq![' '] + x))))))))
}

/// Reading the opening of the function of a fold gives its two names renumbered.
proof fn lemma_read_binders(next_id: Id, accum_id: Id, table: Seq<Id>, x: Seq<char>)
    requires
        x.len() > 0,
        !is_space(x[0]),
    ensures
        (Cursor { src: binders_text(next_id, accum_id, x), names: table_names(table) }).binders()
            == (
            Ok::<(Id, Id), ParseError>(
                (note(table, next_id).0, note(note(table, next_id).1, accum_id).0),
            ),
            Cursor {
                src: x,
                names: table_names(note(note(table, next_id).1, accum_id).1),
            },
        ),
{
    let names = table_names(table);
    let after_ids = seq![')'] + (seq![' '] + x);
    let x_accum = id_text(accum_id as nat) + after_ids;
    let x_next = id_text(next_id as nat) + (seq![' '] + x_accum);
    let x_paren = seq!['('] + x_next;
    let x_lambda = "lambda"@ + (seq![' '] + x_paren);
    lemma_marks();
    lemma_id_text_letters(next_id as nat);
    lemma_id_text_letters(accum_id as nat);
    lemma_skip_token(seq!['('], x_lambda, names);
    lemma_trim_none(x_lambda);
    lemma_skip_token("lambda"@, seq![' '] + x_paren, names);
    lemma_trim_blank(x_paren);
    lemma_trim_none(x_paren);
    lemma_skip_token(seq!['('], x_next, names);
    lemma_trim_none(x_next);
    lemma_take_id(next_id, table, seq![' '] + x_accum);
    lemma_trim_blank(x_accum);
    lemma_trim_none(x_accum);
    let table3 = note(table, next_id).1;
    lemma_take_id(accum_id, table3, after_ids);
    lemma_trim_none(after_ids);
    let table4 = note(table3, accum_id).1;
    lemma_skip_token(seq![')'], seq![' '] + x, table_names(table4));
    lemma_trim_blank(x);
    lemma_trim_none(x);
}

/// What follows `(fold ` in the text of the fold `e` in front of `rest`.
spec fn fold_tail(e: Expr, rest: Seq<char>) -> Seq<char>
    recommends
        e is Fold,
{
    e->foldee.text() + (seq![' '] + (e->init.text() + (seq![' '] + binders_text(
        e->next_id,
        e->accum_id,
        e->body.text() + (seq![')'] + (seq![')'] + rest)),
    ))))
}

/// The text of a fold, part by part.
proof fn lemma_fold_text(e: Expr, rest: Seq<char>)
    requires
        e is Fold,
    ensures
        e.text() + rest == seq!['('] + "fold"@ + seq![' '] + fold_tail(e, rest),
{
    lemma_marks();
    let sp = seq![' '];
    let op = seq!['('];
    let cl = seq![')'];
    let lam = "lambda"@;
    let f = e->foldee.text();
    let i = e->init.text();
    let n = id_text(e->next_id as nat);
    let a = id_text(e->accum_id as nat);
    let b = e->body.text();
    let p1 = "(fold "@;
    let p2 = p1 + f;
    let p3 = p2 + sp;
    let p4 = p3 + i;
    let p5 = p4 + " (lambda ("@;
    let p6 = p5 + n;
    let p7 = p6 + sp;
    let p8 = p7 + a;
    let p9 = p8 + ") "@;
    let p10 = p9 + b;
    assert(e.text() == p10 + "))"@);
    // from the end to the front
    let s11 = cl + (cl + rest);
    lemma_assoc(cl, cl, rest);
    lemma_assoc(p10, "))"@, rest);
    assert(e.text() + rest == p10 + s11);
    let s10 = b + s11;
    lemma_assoc(p9, b, s11);
    let s9 = cl + (sp + s10);
    lemma_assoc(cl, sp, s10);
    lemma_assoc(p8, ") "@, s10);
    let s8 = a + s9;
    lemma_assoc(p7, a, s9);
    let s7 = sp + s8;
    lemma_assoc(p6, sp, s8);
    let s6 = n + s7;
    lemma_assoc(p5, n, s7);
    assert(e.text() + rest == p5 + s6);
    // the opening of the function
    let s5 = sp + (op + (lam + (sp + (op + s6))));
    lemma_assoc(sp + op + lam + sp, op, s6);
    lemma_assoc(sp + op + lam, sp, op + s6);
    lemma_assoc(sp + op, lam, sp + (op + s6));
    lemma_assoc(sp, op, lam + (sp + (op + s6)));
    lemma_assoc(p4, " (lambda ("@, s6);
    assert(e.text() + rest == p4 + s5);
    let s4 = i + s5;
    lemma_assoc(p3, i, s5);
    let s3 = sp + s4;
    lemma_assoc(p2, sp, s4);
    let s2 = f + s3;
    lemma_assoc(p1, f, s3);
    assert(e.text() + rest == p1 + s2);
    assert(s2 == fold_tail(e, rest));
}

/// Reading the text of a fold.
proof fn lemma_read_fold(e: Expr, table: Seq<Id>, rest: Seq<char>)
    requires
        e is Fold,
        stops(rest),
    ensures
        (Cursor { src: e.text() + rest, names: table_names(table) }).expr() == read_back(
            e,
            table,
            rest,
        ),
    decreases e, 0nat,
{
    let foldee = *e->foldee;
    let init = *e->init;
    let next_id = e->next_id;
    let accum_id = e->accum_id;
    let body = *e->body;
    let names = table_names(table);
    let s = e.text() + rest;
    // the text from its end to its front
    let tail = seq![')'] + rest;
    let tail_body = seq![')'] + tail;
    let x_body = body.text() + tail_body;
    let x_open = binders_text(next_id, accum_id, x_body);
    let tail_init = seq![' '] + x_open;
    let x_init = init.text() + tail_init;
    let tail_foldee = seq![' '] + x_init;
    let x_foldee = foldee.text() + tail_foldee;
    lemma_marks();
    lemma_text_head(foldee);
    lemma_text_head(init);
    lemma_text_head(body);
    lemma_fold_text(e, rest);
    assert(x_foldee == fold_tail(e, rest));
    let c1 = Cursor { src: x_foldee, names };
    lemma_fold_form(c1);
    lemma_open("fold"@, x_foldee, names);
    // the argument and the start value
    lemma_read_expr(foldee, table, tail_foldee);
    let table1 = relabel(foldee, table).1;
    lemma_trim_blank(x_init);
    lemma_trim_none(x_init);
    lemma_read_expr(init, table1, tail_init);
    let table2 = relabel(init, table1).1;
    lemma_trim_blank(x_open);
    lemma_trim_none(x_open);
    // the opening of the function
    lemma_read_binders(next_id, accum_id, table2, x_body);
    let table3 = note(table2, next_id).1;
    let table4 = note(table3, accum_id).1;
    // the body and the two closing brackets
    lemma_read_expr(body, table4, tail_body);
    let table5 = relabel(body, table4).1;
    lemma_close(tail, table_names(table5));
    lemma_close(rest, table_names(table5));
}

/// Reading the text of a program gives the program with its identifiers
/// renumbered in the order in which the text names them.
pub proof fn law_read_back(p: Program)
    ensures
        parse_text(p.text()) == Ok::<Program, ParseError>(renumbered(p)),
{
    lemma_marks();
    let sp = seq![' '];
    let op = seq!['('];
    let cl = seq![')'];
    let lam = "lambda"@;
    let n = id_text(p.id as nat);
    let e = p.expr.text();
    let nothing = Seq::<char>::empty();
    let empty = Seq::<Id>::empty();
    assert(table_names(empty) =~= Seq::<Seq<char>>::empty());
    let names = table_names(empty);
    // the text from its end to its front
    let s5 = e + (cl + nothing);
    let s4 = cl + (sp + s5);
    let s3 = n + s4;
    let s2 = op + s3;
    let s1 = lam + (sp + s2);
    let s0 = op + s1;
    assert(p.text() == s0) by {
        let p1 = "(lambda ("@;
        let p2 = p1 + n;
        let p3 = p2 + ") "@;
        let p4 = p3 + e;
        assert(cl + nothing =~= cl);
        lemma_assoc(p3, e, cl);
        lemma_assoc(cl, sp, s5);
        lemma_assoc(p2, ") "@, s5);
        lemma_assoc(p1, n, s4);
        lemma_assoc(op + lam + sp, op, s3);
        lemma_assoc(op + lam, sp, s2);
        lemma_assoc(op, lam, sp + s2);
    }
    lemma_id_text_letters(p.id as nat);
    lemma_text_head(*p.expr);
    lemma_trim_none(s0);
    lemma_skip_token(op, s1, names);
    lemma_trim_none(s1);
    lemma_skip_token(lam, sp + s2, names);
    lemma_trim_blank(s2);
    lemma_trim_none(s2);
    lemma_skip_token(op, s3, names);
    lemma_trim_none(s3);
    lemma_take_id(p.id, empty, s4);
    lemma_trim_none(s4);
    let table = note(empty, p.id).1;
    lemma_skip_token(cl, sp + s5, table_names(table));
    lemma_trim_blank(s5);
    lemma_trim_none(s5);
    lemma_close(nothing, table_names(relabel(*p.expr, table).1));
    lemma_read_expr(*p.expr, table, cl + nothing);
}

/// Renumbering changes no size.
proof fn lemma_relabel_size(e: Expr, table: Seq<Id>)
    ensures
        relabel(e, table).0.size() == e.size(),
    decreases e,
{
    match e {
        Expr::If0(c, t, f) => {
            lemma_relabel_size(*c, table);
            let t1 = relabel(*c, table).1;
            lemma_relabel_size(*t, t1);
            let t2 = relabel(*t, t1).1;
            lemma_relabel_size(*f, t2);
        },
        Expr::Op1(_, a) => {
            lemma_relabel_size(*a, table);
        },
        Expr::Op2(_, l, r) => {
            lemma_relabel_size(*l, table);
            let t1 = relabel(*l, table).1;
            lemma_relabel_size(*r, t1);
        },
        Expr::Fold { foldee, init, next_id, accum_id, body } => {
            lemma_relabel_size(*foldee, table);
            let t1 = relabel(*foldee, table).1;
            lemma_relabel_size(*init, t1);
            let t2 = relabel(*init, t1).1;
            let t3 = note(t2, next_id).1;
            let t4 = note(t3, accum_id).1;
            lemma_relabel_size(*body, t4);
        },
        _ => {},
    }
}

/// The program that is read from the text of a program has the size of that program.
pub proof fn law_read_back_size(p: Program)
    ensures
        parse_text(p.text()) is Ok,
        parse_text(p.text())->Ok_0.size() == p.size(),
{
    law_read_back(p);
    lemma_relabel_size(*p.expr, note(Seq::empty(), p.id).1);
}

/// Whether the identifiers of `p` are numbered from 0 in the order in
/// which its text names them.
pub open spec fn numbered_in_order(p: Program) -> bool {
    renumbered(p) == p
}

/// Reading the text of a program whose identifiers are numbered in the
/// order of the text gives that program.
pub proof fn law_read_back_same(p: Program)
    requires
        numbered_in_order(p),
    ensures
        parse_text(p.text()) == Ok::<Program, ParseError>(p),
{
    law_read_back(p);
}

/// Whether `longer` begins with `table`.
spec fn extends(longer: Seq<Id>, table: Seq<Id>) -> bool {
    table.len() <= longer.len() && longer.take(table.len() as int) == table
}

/// An identifier keeps its place where the table grows at its end.
proof fn lemma_rank_extends(table: Seq<Id>, longer: Seq<Id>, id: Id)
    requires
        extends(longer, table),
        rank_from(table, id, 0) is Some,
    ensures
        rank_from(longer, id, 0) == rank_from(table, id, 0),
{
    lemma_rank(table, id, 0);
    lemma_rank(longer, id, 0);
    let j = rank_from(table, id, 0)->0 as int;
    assert forall|k: int| 0 <= k < table.len() implies longer[k] == table[k] by {
        assert(longer.take(table.len() as int)[k] == longer[k]);
    }
    assert(longer[j] == id);
}

/// Noting an identifier lets the table grow at its end at most, by one
/// place at most, and gives the place at which the identifier then stands.
proof fn lemma_note(table: Seq<Id>, id: Id)
    ensures
        extends(note(table, id).1, table),
        note(table, id).1.len() <= table.len() + 1,
        table.len() < usize::MAX ==> rank_from(note(table, id).1, id, 0) == Some(
            note(table, id).0 as nat,
        ),
{
    lemma_rank(table, id, 0);
    let longer = note(table, id).1;
    assert(longer.take(table.len() as int) =~= table);
    lemma_rank(longer, id, 0);
    if rank_from(table, id, 0) is None {
        assert(longer[table.len() as int] == id);
        assert forall|k: int| 0 <= k < table.len() implies longer[k] == table[k] by {
            assert(longer.take(table.len() as int)[k] == longer[k]);
        }
    }
}

/// Whether `inner` gives every identifier of `outer` its value at the
/// place that the identifier has in `table`.
spec fn agrees(outer: Map<Id, u64>, inner: Map<Id, u64>, table: Seq<Id>) -> bool {
    forall|id: Id| #[trigger]
        outer.dom().contains(id) ==> {
            &&& rank_from(table, id, 0) is Some
            &&& inner.dom().contains(rank_from(table, id, 0)->0 as Id)
            &&& inner[rank_from(table, id, 0)->0 as Id] == outer[id]
        }
}

/// Environments that agree by a table agree by every table that begins with it.
proof fn lemma_agrees_extends(
    outer: Map<Id, u64>,
    inner: Map<Id, u64>,
    table: Seq<Id>,
    longer: Seq<Id>,
)
    requires
        agrees(outer, inner, table),
        extends(longer, table),
    ensures
        agrees(outer, inner, longer),
{
    assert forall|id: Id| #[trigger] outer.dom().contains(id) implies {
        &&& rank_from(longer, id, 0) is Some
        &&& inner.dom().contains(rank_from(longer, id, 0)->0 as Id)
        &&& inner[rank_from(longer, id, 0)->0 as Id] == outer[id]
    } by {
        lemma_rank_extends(table, longer, id);
    }
}

/// Binding an identifier outside and its place inside to one value keeps
/// the environments in agreement.
proof fn lemma_agrees_bind(
    outer: Map<Id, u64>,
    inner: Map<Id, u64>,
    table: Seq<Id>,
    id: Id,
    val: u64,
)
    requires
        agrees(outer, inner, table),
        table.len() <= usize::MAX,
        rank_from(table, id, 0) is Some,
    ensures
        agrees(outer.insert(id, val), inner.insert(rank_from(table, id, 0)->0 as Id, val), table),
{
    let place = rank_from(table, id, 0)->0;
    lemma_rank(table, id, 0);
    assert forall|other: Id| #[trigger] outer.insert(id, val).dom().contains(other) implies {
        &&& rank_from(table, other, 0) is Some
        &&& inner.insert(place as Id, val).dom().contains(rank_from(table, other, 0)->0 as Id)
        &&& inner.insert(place as Id, val)[rank_from(table, other, 0)->0 as Id] == outer.insert(
            id,
            val,
        )[other]
    } by {
        lemma_rank(table, other, 0);
        if other != id {
            assert(outer.dom().contains(other));
        }
    }
}

/// The table grows at its end, by no more than the size of the expression.
proof fn lemma_relabel_extends(e: Expr, table: Seq<Id>)
    ensures
        extends(relabel(e, table).1, table),
        relabel(e, table).1.len() <= table.len() + e.size(),
    decreases e,
{
    assert(table.take(table.len() as int) =~= table);
    match e {
        Expr::Ident(id) => {
            lemma_note(table, id);
        },
        Expr::If0(c, t, f) => {
            lemma_relabel_extends(*c, table);
            let t1 = relabel(*c, table).1;
            lemma_relabel_extends(*t, t1);
            let t2 = relabel(*t, t1).1;
            lemma_relabel_extends(*f, t2);
            let t3 = relabel(*f, t2).1;
            lemma_extends_trans(table, t1, t2);
            lemma_extends_trans(table, t2, t3);
        },
        Expr::Op1(_, a) => {
            lemma_relabel_extends(*a, table);
        },
        Expr::Op2(_, l, r) => {
            lemma_relabel_extends(*l, table);
            let t1 = relabel(*l, table).1;
            lemma_relabel_extends(*r, t1);
            lemma_extends_trans(table, t1, relabel(*r, t1).1);
        },
        Expr::Fold { foldee, init, next_id, accum_id, body } => {
            lemma_relabel_extends(*foldee, table);
            let t1 = relabel(*foldee, table).1;
            lemma_relabel_extends(*init, t1);
            let t2 = relabel(*init, t1).1;
            lemma_note(t2, next_id);
            let t3 = note(t2, next_id).1;
            lemma_note(t3, accum_id);
            let t4 = note(t3, accum_id).1;
            lemma_relabel_extends(*body, t4);
            let t5 = relabel(*body, t4).1;
            lemma_extends_trans(table, t1, t2);
            lemma_extends_trans(table, t2, t3);
            lemma_extends_trans(table, t3, t4);
            lemma_extends_trans(table, t4, t5);
        },
        _ => {},
    }
}

/// A table that begins with one that begins with a third begins with the third.
proof fn lemma_extends_trans(a: Seq<Id>, b: Seq<Id>, c: Seq<Id>)
    requires
        extends(b, a),
        extends(c, b),
    ensures
        extends(c, a),
{
    assert(c.take(a.len() as int) =~= a) by {
        assert forall|k: int| 0 <= k < a.len() implies c[k] == a[k] by {
            assert(b.take(a.len() as int)[k] == b[k]);
            assert(c.take(b.len() as int)[k] == c[k]);
        }
    }
}

/// A renumbered expression has the value of the expression, in every
/// environment that agrees with that of the expression.
proof fn lemma_relabel_value(e: Expr, table: Seq<Id>, outer: Map<Id, u64>, inner: Map<Id, u64>)
    requires
        e.closed(outer.dom()),
        agrees(outer, inner, table),
        table.len() + e.size() <= usize::MAX,
    ensures
        eval_expr(relabel(e, table).0, inner) == eval_expr(e, outer),
        relabel(e, table).0.closed(inner.dom()),
    decreases e, 0nat,
{
    crate::program::lemma_size_positive(e);
    match e {
        Expr::Ident(id) => {
            assert(outer.dom().contains(id));
        },
        Expr::If0(c, t, f) => {
            crate::program::lemma_size_positive(*c);
            crate::program::lemma_size_positive(*t);
            crate::program::lemma_size_positive(*f);
            lemma_relabel_value(*c, table, outer, inner);
            lemma_relabel_extends(*c, table);
            let t1 = relabel(*c, table).1;
            lemma_agrees_extends(outer, inner, table, t1);
            lemma_relabel_value(*t, t1, outer, inner);
            lemma_relabel_extends(*t, t1);
            let t2 = relabel(*t, t1).1;
            lemma_agrees_extends(outer, inner, t1, t2);
            lemma_relabel_value(*f, t2, outer, inner);
        },
        Expr::Op1(_, a) => {
            lemma_relabel_value(*a, table, outer, inner);
        },
        Expr::Op2(_, l, r) => {
            crate::program::lemma_size_positive(*l);
            crate::program::lemma_size_positive(*r);
            lemma_relabel_value(*l, table, outer, inner);
            lemma_relabel_extends(*l, table);
            let t1 = relabel(*l, table).1;
            lemma_agrees_extends(outer, inner, table, t1);
            lemma_relabel_value(*r, t1, outer, inner);
        },
        Expr::Fold { foldee, init, next_id, accum_id, body } => {
            crate::program::lemma_size_positive(*foldee);
            crate::program::lemma_size_positive(*init);
            crate::program::lemma_size_positive(*body);
            lemma_relabel_value(*foldee, table, outer, inner);
            lemma_relabel_extends(*foldee, table);
            let t1 = relabel(*foldee, table).1;
            lemma_agrees_extends(outer, inner, table, t1);
            lemma_relabel_value(*init, t1, outer, inner);
            lemma_relabel_extends(*init, t1);
            let t2 = relabel(*init, t1).1;
            lemma_agrees_extends(outer, inner, t1, t2);
            lemma_note(t2, next_id);
            let (next2, t3) = note(t2, next_id);
            lemma_agrees_extends(outer, inner, t2, t3);
            lemma_note(t3, accum_id);
            let (accum2, t4) = note(t3, accum_id);
            lemma_agrees_extends(outer, inner, t3, t4);
            lemma_rank_extends(t3, t4, next_id);
            lemma_fold_value(
                *body,
                next_id,
                accum_id,
                t4,
                outer,
                inner,
                eval_expr(*foldee, outer),
                eval_expr(*init, outer),
                0,
            );
            // the body is closed whatever its two names are bound to
            let outer_in = outer.insert(next_id, 0).insert(accum_id, 0);
            let inner_in = inner.insert(next2, 0).insert(accum2, 0);
            lemma_agrees_bind(outer, inner, t4, next_id, 0);
            lemma_agrees_bind(outer.insert(next_id, 0), inner.insert(next2, 0), t4, accum_id, 0);
            assert(outer_in.dom() =~= outer.dom().insert(next_id).insert(accum_id));
            assert(inner_in.dom() =~= inner.dom().insert(next2).insert(accum2));
            lemma_relabel_value(*body, t4, outer_in, inner_in);
        },
        _ => {},
    }
}

/// The rounds of a renumbered fold give what the rounds of the fold give.
proof fn lemma_fold_value(
    body: Expr,
    next_id: Id,
    accum_id: Id,
    table: Seq<Id>,
    outer: Map<Id, u64>,
    inner: Map<Id, u64>,
    foldee: u64,
    accum: u64,
    round: nat,
)
    requires
        body.closed(outer.dom().insert(next_id).insert(accum_id)),
        agrees(outer, inner, table),
        table.len() + body.size() <= usize::MAX,
        rank_from(table, next_id, 0) is Some,
        rank_from(table, accum_id, 0) is Some,
    ensures
        eval_fold(
            relabel(body, table).0,
            rank_from(table, next_id, 0)->0 as Id,
            rank_from(table, accum_id, 0)->0 as Id,
            inner,
            foldee,
            accum,
            round,
        ) == eval_fold(body, next_id, accum_id, outer, foldee, accum, round),
    decreases body, ROUNDS - round + 1,
{
    if round < ROUNDS {
        let next2 = rank_from(table, next_id, 0)->0 as Id;
        let accum2 = rank_from(table, accum_id, 0)->0 as Id;
        let byte = fold_byte(foldee, round);
        let outer_in = outer.insert(next_id, byte).insert(accum_id, accum);
        let inner_in = inner.insert(next2, byte).insert(accum2, accum);
        lemma_agrees_bind(outer, inner, table, next_id, byte);
        lemma_agrees_bind(
            outer.insert(next_id, byte),
            inner.insert(next2, byte),
            table,
            accum_id,
            accum,
        );
        assert(outer_in.dom() =~= outer.dom().insert(next_id).insert(accum_id));
        lemma_relabel_value(body, table, outer_in, inner_in);
        lemma_fold_value(
            body,
            next_id,
            accum_id,
            table,
            outer,
            inner,
            foldee,
            eval_expr(body, outer_in),
            round + 1,
        );
    }
}

/// The program that is read from the text of a program gives, on every
/// input, what that program gives.
pub proof fn law_read_back_value(p: Program, x: u64)
    requires
        p.wf(),
        p.size() <= usize::MAX,
    ensures
        parse_text(p.text()) is Ok,
        parse_text(p.text())->Ok_0.wf(),
        parse_text(p.text())->Ok_0.value(x) == p.value(x),
{
    law_read_back(p);
    let empty = Seq::<Id>::empty();
    lemma_note(empty, p.id);
    let (id, table) = note(empty, p.id);
    let outer = Map::<Id, u64>::empty().insert(p.id, x);
    let inner = Map::<Id, u64>::empty().insert(id, x);
    assert(agrees(outer, inner, table)) by {
        assert forall|other: Id| #[trigger] outer.dom().contains(other) implies {
            &&& rank_from(table, other, 0) is Some
            &&& inner.dom().contains(rank_from(table, other, 0)->0 as Id)
            &&& inner[rank_from(table, other, 0)->0 as Id] == outer[other]
        } by {
            assert(other == p.id);
        }
    }
    assert(outer.dom() =~= set![p.id]);
    assert(inner.dom() =~= set![id]);
    lemma_relabel_value(*p.expr, table, outer, inner);
}

/// The identifiers below `m`, each at its own place.
spec fn upto(m: nat) -> Seq<Id> {
    Seq::new(m, |i: int| i as Id)
}

/// In a table of the identifiers below `m`, each of them stands at its
/// own place, and `m` is the next to come.
proof fn lemma_note_upto(m: nat, id: Id)
    requires
        m < usize::MAX,
        id <= m,
    ensures
        note(upto(m), id) == (
            id,
            if id < m {
                upto(m)
            } else {
                upto(m + 1)
            },
        ),
{
    lemma_rank(upto(m), id, 0);
    if id == m {
        assert(upto(m).push(id) =~= upto(m + 1));
    } else {
        assert(upto(m)[id as int] == id);
    }
}

/// An expression of the generator without folds is renumbered to itself
/// where the identifiers in its scope are in the table, each at its own place.
proof fn lemma_plain_in_order(e: Expr, idents: nat, m: nat)
    requires
        scoped(e, idents),
        !e.uses_fold(),
        idents <= m < usize::MAX,
    ensures
        relabel(e, upto(m)) == (e, upto(m)),
    decreases e,
{
    match e {
        Expr::Ident(id) => {
            lemma_note_upto(m, id);
        },
        Expr::If0(c, t, f) => {
            lemma_plain_in_order(*c, idents, m);
            lemma_plain_in_order(*t, idents, m);
            lemma_plain_in_order(*f, idents, m);
        },
        Expr::Op1(_, a) => {
            lemma_plain_in_order(*a, idents, m);
        },
        Expr::Op2(_, l, r) => {
            lemma_plain_in_order(*l, idents, m);
            lemma_plain_in_order(*r, idents, m);
        },
        _ => {},
    }
}

/// An expression of the generator over the argument is renumbered to
/// itself where the argument, or the argument and the two names of a fold,
/// are in the table; a fold puts its two names there.
proof fn lemma_scoped_in_order(e: Expr, m: nat)
    requires
        scoped(e, 1),
        e.folds_flat(),
        m == 1 || m == 3,
    ensures
        relabel(e, upto(m)).0 == e,
        relabel(e, upto(m)).1 == upto(m) || relabel(e, upto(m)).1 == upto(3),
    decreases e,
{
    match e {
        Expr::Ident(id) => {
            lemma_note_upto(m, id);
        },
        Expr::If0(c, t, f) => {
            lemma_scoped_in_order(*c, m);
            let m1: nat = if relabel(*c, upto(m)).1 == upto(m) {
                m
            } else {
                3
            };
            lemma_scoped_in_order(*t, m1);
            let m2: nat = if relabel(*t, upto(m1)).1 == upto(m1) {
                m1
            } else {
                3
            };
            lemma_scoped_in_order(*f, m2);
        },
        Expr::Op1(_, a) => {
            lemma_scoped_in_order(*a, m);
        },
        Expr::Op2(_, l, r) => {
            lemma_scoped_in_order(*l, m);
            let m1: nat = if relabel(*l, upto(m)).1 == upto(m) {
                m
            } else {
                3
            };
            lemma_scoped_in_order(*r, m1);
        },
        Expr::Fold { foldee, init, next_id, accum_id, body } => {
            lemma_plain_in_order(*foldee, 1, m);
            lemma_plain_in_order(*init, 1, m);
            if m == 1 {
                lemma_note_upto(1, 1);
                lemma_note_upto(2, 2);
            } else {
                lemma_note_upto(3, 1);
                lemma_note_upto(3, 2);
            }
            lemma_plain_in_order(*body, 3, 3);
        },
        _ => {},
    }
}

/// A program of the generator that has no fold fixed at its top is read
/// from its text as it is.
pub proof fn law_generated_reads_back(gen: RandomGenState, p: Program, size: nat)
    requires
        gen.makes(p, size),
        !gen.operators.tfold,
    ensures
        numbered_in_order(p),
        parse_text(p.text()) == Ok::<Program, ParseError>(p),
{
    lemma_note_upto(0, 0);
    assert(upto(0) =~= Seq::<Id>::empty());
    lemma_scoped_in_order(*p.expr, 1);
    law_read_back(p);
}

} // verus!
