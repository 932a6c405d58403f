use vstd::prelude::*;

use crate::parser::{
    at, canon_add, is_ptr, lookup, p_add, p_add_rest, p_eq_rest, p_equality, p_expr, p_mul,
    canon_sub, p_assign, p_closed_expr, p_compound, p_decl_rest, p_declaration, p_declarator,
    p_expr_stmt, p_for_tail, p_if_tail, p_mul_rest, p_opt_expr, p_primary, p_rel_rest,
    p_relational, p_return_tail, p_stars, p_stmt, p_unary, p_while_tail, scaled, ty_of, type_of, Ast,
    Locals, Type, VarTableItem,
};
use crate::code_generator::{block_text, stmt_text};
use crate::tokenizer::Lexeme;

verus! {

/// The tokens that end an expression statement.
pub open spec fn ends_stmt(ts: Seq<Lexeme>) -> bool {
    at(ts, ";"@)
}

/// The expression that a single name or number parses to.
pub open spec fn atom(t: Lexeme, tbl: Locals) -> Option<Ast> {
    match t {
        Lexeme::Ident(n) => match lookup(tbl, n) {
            Some(i) => Some(Ast::Var(n, tbl[i].1)),
            None => None,
        },
        Lexeme::Num(_, v) => Some(Ast::Num(v)),
        _ => None,
    }
}

/// The characters of the operators.
proof fn reveal_operators()
    ensures
        "("@.len() == 1 && "("@[0] == '(',
        ")"@.len() == 1 && ")"@[0] == ')',
        "+"@.len() == 1 && "+"@[0] == '+',
        "-"@.len() == 1 && "-"@[0] == '-',
        "*"@.len() == 1 && "*"@[0] == '*',
        "/"@.len() == 1 && "/"@[0] == '/',
        "&"@.len() == 1 && "&"@[0] == '&',
        "<"@.len() == 1 && "<"@[0] == '<',
        "<="@.len() == 2 && "<="@[0] == '<' && "<="@[1] == '=',
        ">"@.len() == 1 && ">"@[0] == '>',
        ">="@.len() == 2 && ">="@[0] == '>' && ">="@[1] == '=',
        "=="@.len() == 2 && "=="@[0] == '=' && "=="@[1] == '=',
        "!="@.len() == 2 && "!="@[0] == '!' && "!="@[1] == '=',
        "="@.len() == 1 && "="@[0] == '=',
        ";"@.len() == 1 && ";"@[0] == ';',
        "{"@.len() == 1 && "{"@[0] == '{',
        "}"@.len() == 1 && "}"@[0] == '}',
        "return"@.len() == 6 && "return"@[0] == 'r' && "return"@[1] == 'e' && "return"@[2] == 't' && "return"@[3] == 'u' && "return"@[4] == 'r' && "return"@[5] == 'n',
        "if"@.len() == 2 && "if"@[0] == 'i' && "if"@[1] == 'f',
        "for"@.len() == 3 && "for"@[0] == 'f' && "for"@[1] == 'o' && "for"@[2] == 'r',
        "while"@.len() == 5 && "while"@[0] == 'w' && "while"@[1] == 'h' && "while"@[2] == 'i' && "while"@[3] == 'l' && "while"@[4] == 'e',
{
    reveal_strlit("{");
    reveal_strlit("}");
    reveal_strlit("return");
    reveal_strlit("if");
    reveal_strlit("for");
    reveal_strlit("while");
    reveal_strlit("(");
    reveal_strlit(")");
    reveal_strlit("+");
    reveal_strlit("-");
    reveal_strlit("*");
    reveal_strlit("/");
    reveal_strlit("&");
    reveal_strlit("<");
    reveal_strlit("<=");
    reveal_strlit(">");
    reveal_strlit(">=");
    reveal_strlit("==");
    reveal_strlit("!=");
    reveal_strlit("=");
    reveal_strlit(";");
}

/// A name or number followed by a token that no `*` or `/` starts.
proof fn lemma_atom_mul(ts: Seq<Lexeme>, tbl: Locals)
    requires
        ts.len() > 1,
        ts[0] is Ident || ts[0] is Num,
        !at(ts.drop_first(), "*"@),
        !at(ts.drop_first(), "/"@),
    ensures
        p_mul(ts, tbl) == match atom(ts[0], tbl) {
            Some(a) => Some((a, ts.drop_first())),
            None => None,
        },
{
    reveal_operators();
    assert(!at(ts, "("@) && !at(ts, "+"@) && !at(ts, "-"@) && !at(ts, "*"@) && !at(ts, "&"@));
    assert(p_unary(ts, tbl) == p_primary(ts, tbl));
    if let Some(a) = atom(ts[0], tbl) {
        assert(p_mul_rest(a, ts.drop_first(), tbl) == Some((a, ts.drop_first())));
    }
}

/// An expression `a` is all there is before the end of a statement.
proof fn lemma_complete(a: Ast, rest: Seq<Lexeme>, tbl: Locals)
    requires
        ends_stmt(rest),
    ensures
        p_mul_rest(a, rest, tbl) == Some((a, rest)),
        p_add_rest(a, rest, tbl) == Some((a, rest)),
        p_rel_rest(a, rest, tbl) == Some((a, rest)),
        p_eq_rest(a, rest, tbl) == Some((a, rest)),
        !at(rest, "="@),
{
    reveal_operators();
}

/// An expression whose `equality` is `a`, up to the end of a statement.
proof fn lemma_expr_of_equality(ts: Seq<Lexeme>, a: Ast, rest: Seq<Lexeme>, tbl: Locals)
    requires
        ends_stmt(rest),
        p_equality(ts, tbl) == Some((a, rest)),
    ensures
        p_expr(ts, tbl) == Some((a, rest)),
{
    reveal(p_expr);
    lemma_complete(a, rest, tbl);
}

/// An expression whose `relational` is `a`, up to the end of a statement.
proof fn lemma_expr_of_relational(ts: Seq<Lexeme>, a: Ast, rest: Seq<Lexeme>, tbl: Locals)
    requires
        ends_stmt(rest),
        rest.len() <= ts.len(),
        p_relational(ts, tbl) == Some((a, rest)),
    ensures
        p_expr(ts, tbl) == Some((a, rest)),
{
    lemma_complete(a, rest, tbl);
    lemma_expr_of_equality(ts, a, rest, tbl);
}

/// An expression whose `add` is `a`, up to the end of a statement.
proof fn lemma_expr_of_add(ts: Seq<Lexeme>, a: Ast, rest: Seq<Lexeme>, tbl: Locals)
    requires
        ends_stmt(rest),
        rest.len() <= ts.len(),
        p_add(ts, tbl) == Some((a, rest)),
    ensures
        p_expr(ts, tbl) == Some((a, rest)),
{
    lemma_complete(a, rest, tbl);
    lemma_expr_of_relational(ts, a, rest, tbl);
}

/// A failing `add` fails the whole expression.
proof fn lemma_expr_of_failed_add(ts: Seq<Lexeme>, tbl: Locals)
    requires
        p_add(ts, tbl) is None,
    ensures
        p_expr(ts, tbl) is None,
{
    reveal(p_expr);
}

/// `x op y` for names or numbers `x` and `y`, where `op` is `<`, `<=`, `>`
/// or `>=`, parsed up to the end of a statement.
proof fn lemma_comparison(x: Lexeme, op: Seq<char>, y: Lexeme, rest: Seq<Lexeme>, tbl: Locals)
    requires
        x is Ident || x is Num,
        y is Ident || y is Num,
        op == "<"@ || op == "<="@ || op == ">"@ || op == ">="@,
        ends_stmt(rest),
    ensures
        p_expr(seq![x, Lexeme::Reserved(op), y] + rest, tbl) == match (atom(x, tbl), atom(y, tbl)) {
            (Some(a), Some(b)) => Some(
                (
                    if op == "<"@ {
                        Ast::Lt(Box::new(a), Box::new(b))
                    } else if op == "<="@ {
                        Ast::Le(Box::new(a), Box::new(b))
                    } else if op == ">"@ {
                        Ast::Lt(Box::new(b), Box::new(a))
                    } else {
                        Ast::Le(Box::new(b), Box::new(a))
                    },
                    rest,
                ),
            ),
            _ => None,
        },
{
    reveal_operators();
    let ts = seq![x, Lexeme::Reserved(op), y] + rest;
    let t1 = seq![Lexeme::Reserved(op), y] + rest;
    let t2 = seq![y] + rest;
    assert(ts.drop_first() =~= t1);
    assert(t1.drop_first() =~= t2);
    assert(t2.drop_first() =~= rest);
    lemma_atom_mul(ts, tbl);
    lemma_atom_mul(t2, tbl);
    lemma_complete(Ast::Num(0), rest, tbl);
    match atom(x, tbl) {
        Some(a) => {
            assert(p_add_rest(a, t1, tbl) == Some((a, t1)));
            assert(p_add(ts, tbl) == Some((a, t1)));
            match atom(y, tbl) {
                Some(b) => {
                    lemma_complete(b, rest, tbl);
                    assert(p_add(t2, tbl) == Some((b, rest)));
                    let node = if op == "<"@ {
                        Ast::Lt(Box::new(a), Box::new(b))
                    } else if op == "<="@ {
                        Ast::Le(Box::new(a), Box::new(b))
                    } else if op == ">"@ {
                        Ast::Lt(Box::new(b), Box::new(a))
                    } else {
                        Ast::Le(Box::new(b), Box::new(a))
                    };
                    lemma_complete(node, rest, tbl);
                    assert(p_rel_rest(a, t1, tbl) == Some((node, rest)));
                    assert(p_relational(ts, tbl) == Some((node, rest)));
                    lemma_expr_of_relational(ts, node, rest, tbl);
                },
                None => {
                    assert(p_relational(ts, tbl) is None);
                    assert(p_equality(ts, tbl) is None);
                    reveal(p_expr);
                },
            }
        },
        None => {
            lemma_expr_of_failed_add(ts, tbl);
        },
    }
}

/// Relational normalization: `a > b` parses as `b < a` does, and `a >= b`
/// as `b <= a`, for any names or numbers `a` and `b` and any declared
/// locals.
pub proof fn lemma_greater_is_swapped_less(a: Lexeme, b: Lexeme, rest: Seq<Lexeme>, tbl: Locals)
    requires
        a is Ident || a is Num,
        b is Ident || b is Num,
        ends_stmt(rest),
    ensures
        p_expr(seq![a, Lexeme::Reserved(">"@), b] + rest, tbl) == p_expr(
            seq![b, Lexeme::Reserved("<"@), a] + rest,
            tbl,
        ),
        p_expr(seq![a, Lexeme::Reserved(">="@), b] + rest, tbl) == p_expr(
            seq![b, Lexeme::Reserved("<="@), a] + rest,
            tbl,
        ),
{
    reveal_operators();
    lemma_comparison(a, ">"@, b, rest, tbl);
    lemma_comparison(b, "<"@, a, rest, tbl);
    lemma_comparison(a, ">="@, b, rest, tbl);
    lemma_comparison(b, "<="@, a, rest, tbl);
}

/// A unary `+` is dropped: `+x` parses as `x` does, for any tokens `x`.
pub proof fn lemma_plus_is_dropped(ts: Seq<Lexeme>, tbl: Locals)
    ensures
        p_unary(seq![Lexeme::Reserved("+"@)] + ts, tbl) == p_unary(ts, tbl),
{
    let t = seq![Lexeme::Reserved("+"@)] + ts;
    assert(t.drop_first() =~= ts);
}

/// A name or number as a unary expression.
proof fn lemma_atom_unary(ts: Seq<Lexeme>, tbl: Locals)
    requires
        ts.len() > 0,
        ts[0] is Ident || ts[0] is Num,
    ensures
        p_unary(ts, tbl) == match atom(ts[0], tbl) {
            Some(a) => Some((a, ts.drop_first())),
            None => None,
        },
{
    reveal_operators();
    assert(!at(ts, "("@) && !at(ts, "+"@) && !at(ts, "-"@) && !at(ts, "*"@) && !at(ts, "&"@));
    assert(p_unary(ts, tbl) == p_primary(ts, tbl));
}

/// An expression whose unary part is a name or number `a`, up to the end of
/// a statement.
proof fn lemma_expr_of_unary(ts: Seq<Lexeme>, a: Option<Ast>, rest: Seq<Lexeme>, tbl: Locals)
    requires
        ends_stmt(rest),
        rest.len() <= ts.len(),
        p_unary(ts, tbl) == match a {
            Some(x) => Some((x, rest)),
            None => None,
        },
    ensures
        p_expr(ts, tbl) == match a {
            Some(x) => Some((x, rest)),
            None => None,
        },
{
    match a {
        Some(x) => {
            lemma_complete(x, rest, tbl);
            assert(p_mul(ts, tbl) == Some((x, rest)));
            assert(p_add(ts, tbl) == Some((x, rest)));
            lemma_expr_of_add(ts, x, rest, tbl);
        },
        None => {
            assert(p_mul(ts, tbl) is None);
            lemma_expr_of_failed_add(ts, tbl);
        },
    }
}

/// Unary-plus idempotence: `+++x` parses as `x` does, for any name or
/// number `x` and any declared locals.
pub proof fn lemma_unary_plus_idempotent(x: Lexeme, rest: Seq<Lexeme>, tbl: Locals)
    requires
        x is Ident || x is Num,
        ends_stmt(rest),
    ensures
        p_expr(
            seq![
                Lexeme::Reserved("+"@),
                Lexeme::Reserved("+"@),
                Lexeme::Reserved("+"@),
                x,
            ] + rest,
            tbl,
        ) == p_expr(seq![x] + rest, tbl),
{
    let plus = Lexeme::Reserved("+"@);
    let t0 = seq![x] + rest;
    let t1 = seq![plus] + t0;
    let t2 = seq![plus] + t1;
    let t3 = seq![plus] + t2;
    assert(seq![plus, plus, plus, x] + rest =~= t3);
    lemma_plus_is_dropped(t0, tbl);
    lemma_plus_is_dropped(t1, tbl);
    lemma_plus_is_dropped(t2, tbl);
    assert(t0.drop_first() =~= rest);
    lemma_atom_unary(t0, tbl);
    lemma_expr_of_unary(t0, atom(x, tbl), rest, tbl);
    lemma_expr_of_unary(t3, atom(x, tbl), rest, tbl);
}

/// `x + y` for names or numbers `x` and `y`, parsed up to the end of a
/// statement.
proof fn lemma_sum(x: Lexeme, y: Lexeme, rest: Seq<Lexeme>, tbl: Locals)
    requires
        x is Ident || x is Num,
        y is Ident || y is Num,
        ends_stmt(rest),
    ensures
        p_expr(seq![x, Lexeme::Reserved("+"@), y] + rest, tbl) == match (atom(x, tbl), atom(y, tbl)) {
            (Some(a), Some(b)) => match canon_add(a, b) {
                Some(n) => Some((n, rest)),
                None => None,
            },
            _ => None,
        },
{
    reveal_operators();
    let ts = seq![x, Lexeme::Reserved("+"@), y] + rest;
    let t1 = seq![Lexeme::Reserved("+"@), y] + rest;
    let t2 = seq![y] + rest;
    assert(ts.drop_first() =~= t1);
    assert(t1.drop_first() =~= t2);
    assert(t2.drop_first() =~= rest);
    lemma_atom_mul(ts, tbl);
    lemma_atom_mul(t2, tbl);
    match atom(x, tbl) {
        Some(a) => match atom(y, tbl) {
            Some(b) => {
                match canon_add(a, b) {
                    Some(n) => {
                        lemma_complete(n, rest, tbl);
                        assert(p_add_rest(a, t1, tbl) == Some((n, rest)));
                        lemma_expr_of_add(ts, n, rest, tbl);
                    },
                    None => {
                        assert(p_add_rest(a, t1, tbl) is None);
                        lemma_expr_of_failed_add(ts, tbl);
                    },
                }
            },
            None => {
                assert(p_add_rest(a, t1, tbl) is None);
                lemma_expr_of_failed_add(ts, tbl);
            },
        },
        None => {
            lemma_expr_of_failed_add(ts, tbl);
        },
    }
}

/// Pointer-arithmetic symmetry: for a local `p` of pointer type and a
/// number `n`, `p + n` and `n + p` parse alike, to `p + n * 8`.
pub proof fn lemma_pointer_sum_symmetric(p: Seq<char>, n: Lexeme, rest: Seq<Lexeme>, tbl: Locals)
    requires
        lookup(tbl, p) is Some,
        tbl[lookup(tbl, p)->0].1 is Ptr,
        n is Num,
        ends_stmt(rest),
    ensures
        p_expr(seq![Lexeme::Ident(p), Lexeme::Reserved("+"@), n] + rest, tbl) == p_expr(
            seq![n, Lexeme::Reserved("+"@), Lexeme::Ident(p)] + rest,
            tbl,
        ),
        ({
            let t = tbl[lookup(tbl, p)->0].1;
            let v = Ast::Var(p, t);
            p_expr(seq![Lexeme::Ident(p), Lexeme::Reserved("+"@), n] + rest, tbl) == Some(
                (Ast::Add(Box::new(v), Box::new(scaled(atom(n, tbl)->0)), t), rest),
            )
        }),
{
    lemma_sum(Lexeme::Ident(p), n, rest, tbl);
    lemma_sum(n, Lexeme::Ident(p), rest, tbl);
}

/// A comparison yields an `I32`.
pub proof fn lemma_comparisons_are_int(a: Ast)
    requires
        a is Eq || a is Ne || a is Lt || a is Le,
    ensures
        type_of(a) == Some(Type::I32),
{
}

/// An empty block `{}` is a statement, with any tokens after it and any
/// declared locals, and it emits no code.
pub proof fn lemma_empty_block(rest: Seq<Lexeme>, tbl: Locals, locals: Seq<VarTableItem>, c: nat)
    ensures
        p_stmt(seq![Lexeme::Reserved("{"@), Lexeme::Reserved("}"@)] + rest, tbl) == Some(
            (Ast::Block(Seq::empty()), rest, tbl),
        ),
        stmt_text(Ast::Block(Seq::empty()), locals, c) == Some((Seq::<char>::empty(), c)),
{
    reveal_operators();
    reveal(stmt_text);
    let ts = seq![Lexeme::Reserved("{"@), Lexeme::Reserved("}"@)] + rest;
    let t1 = seq![Lexeme::Reserved("}"@)] + rest;
    assert(ts.drop_first() =~= t1);
    assert(t1.drop_first() =~= rest);
    assert(p_compound(t1, tbl, Seq::empty()) == Some((Ast::Block(Seq::empty()), rest, tbl)));
    assert(block_text(Seq::empty(), 0, locals, c) == Some((Seq::<char>::empty(), c)));
}

/// No `}` among the tokens.
pub open spec fn no_close(ts: Seq<Lexeme>) -> bool {
    forall|i: int| 0 <= i < ts.len() ==> ts[i] != Lexeme::Reserved("}"@)
}

proof fn lemma_nc_drop(ts: Seq<Lexeme>)
    requires
        no_close(ts),
        ts.len() > 0,
    ensures
        no_close(ts.drop_first()),
{
    assert forall|i: int| 0 <= i < ts.len() - 1 implies ts.drop_first()[i] != Lexeme::Reserved("}"@) by {
        assert(ts.drop_first()[i] == ts[i + 1]);
    }
}

proof fn lemma_nc_primary(ts: Seq<Lexeme>, tbl: Locals)
    requires
        no_close(ts),
    ensures
        p_primary(ts, tbl) matches Some((_, r)) ==> no_close(r),
    decreases ts.len(), 1int,
{
    reveal(p_expr);
    if at(ts, "("@) {
        lemma_nc_drop(ts);
        lemma_nc_expr(ts.drop_first(), tbl);
        if let Some((_, r)) = p_expr(ts.drop_first(), tbl) {
            if at(r, ")"@) {
                lemma_nc_drop(r);
            }
        }
    } else if ts.len() > 0 {
        lemma_nc_drop(ts);
    }
}

proof fn lemma_nc_unary(ts: Seq<Lexeme>, tbl: Locals)
    requires
        no_close(ts),
    ensures
        p_unary(ts, tbl) matches Some((_, r)) ==> no_close(r),
    decreases ts.len(), 2int,
{
    if at(ts, "+"@) || at(ts, "-"@) || at(ts, "*"@) || at(ts, "&"@) {
        lemma_nc_drop(ts);
        lemma_nc_unary(ts.drop_first(), tbl);
    } else {
        lemma_nc_primary(ts, tbl);
    }
}

proof fn lemma_nc_mul_rest(lhs: Ast, ts: Seq<Lexeme>, tbl: Locals)
    requires
        no_close(ts),
    ensures
        p_mul_rest(lhs, ts, tbl) matches Some((_, r)) ==> no_close(r),
    decreases ts.len(), 3int,
{
    if at(ts, "*"@) || at(ts, "/"@) {
        lemma_nc_drop(ts);
        lemma_nc_unary(ts.drop_first(), tbl);
        if let Some((rhs, r)) = p_unary(ts.drop_first(), tbl) {
            if r.len() < ts.len() {
                let node = if at(ts, "*"@) {
                    Ast::Mul(Box::new(lhs), Box::new(rhs), ty_of(lhs))
                } else {
                    Ast::Div(Box::new(lhs), Box::new(rhs), ty_of(lhs))
                };
                lemma_nc_mul_rest(node, r, tbl);
            }
        }
    }
}

proof fn lemma_nc_mul(ts: Seq<Lexeme>, tbl: Locals)
    requires
        no_close(ts),
    ensures
        p_mul(ts, tbl) matches Some((_, r)) ==> no_close(r),
    decreases ts.len(), 4int,
{
    lemma_nc_unary(ts, tbl);
    if let Some((n, r)) = p_unary(ts, tbl) {
        if r.len() <= ts.len() {
            lemma_nc_mul_rest(n, r, tbl);
        }
    }
}

proof fn lemma_nc_add_rest(lhs: Ast, ts: Seq<Lexeme>, tbl: Locals)
    requires
        no_close(ts),
    ensures
        p_add_rest(lhs, ts, tbl) matches Some((_, r)) ==> no_close(r),
    decreases ts.len(), 5int,
{
    if at(ts, "+"@) || at(ts, "-"@) {
        lemma_nc_drop(ts);
        lemma_nc_mul(ts.drop_first(), tbl);
        if let Some((rhs, r)) = p_mul(ts.drop_first(), tbl) {
            if r.len() < ts.len() {
                let node = if at(ts, "+"@) {
                    canon_add(lhs, rhs)
                } else {
                    canon_sub(lhs, rhs)
                };
                if let Some(n) = node {
                    lemma_nc_add_rest(n, r, tbl);
                }
            }
        }
    }
}

proof fn lemma_nc_add(ts: Seq<Lexeme>, tbl: Locals)
    requires
        no_close(ts),
    ensures
        p_add(ts, tbl) matches Some((_, r)) ==> no_close(r),
    decreases ts.len(), 6int,
{
    lemma_nc_mul(ts, tbl);
    if let Some((n, r)) = p_mul(ts, tbl) {
        if r.len() <= ts.len() {
            lemma_nc_add_rest(n, r, tbl);
        }
    }
}

proof fn lemma_nc_rel_rest(lhs: Ast, ts: Seq<Lexeme>, tbl: Locals)
    requires
        no_close(ts),
    ensures
        p_rel_rest(lhs, ts, tbl) matches Some((_, r)) ==> no_close(r),
    decreases ts.len(), 7int,
{
    if at(ts, "<"@) || at(ts, "<="@) || at(ts, ">"@) || at(ts, ">="@) {
        lemma_nc_drop(ts);
        lemma_nc_add(ts.drop_first(), tbl);
        if let Some((rhs, r)) = p_add(ts.drop_first(), tbl) {
            if r.len() < ts.len() {
                let node = if at(ts, "<"@) {
                    Ast::Lt(Box::new(lhs), Box::new(rhs))
                } else if at(ts, "<="@) {
                    Ast::Le(Box::new(lhs), Box::new(rhs))
                } else if at(ts, ">"@) {
                    Ast::Lt(Box::new(rhs), Box::new(lhs))
                } else {
                    Ast::Le(Box::new(rhs), Box::new(lhs))
                };
                lemma_nc_rel_rest(node, r, tbl);
            }
        }
    }
}

proof fn lemma_nc_relational(ts: Seq<Lexeme>, tbl: Locals)
    requires
        no_close(ts),
    ensures
        p_relational(ts, tbl) matches Some((_, r)) ==> no_close(r),
    decreases ts.len(), 8int,
{
    lemma_nc_add(ts, tbl);
    if let Some((n, r)) = p_add(ts, tbl) {
        if r.len() <= ts.len() {
            lemma_nc_rel_rest(n, r, tbl);
        }
    }
}

proof fn lemma_nc_eq_rest(lhs: Ast, ts: Seq<Lexeme>, tbl: Locals)
    requires
        no_close(ts),
    ensures
        p_eq_rest(lhs, ts, tbl) matches Some((_, r)) ==> no_close(r),
    decreases ts.len(), 9int,
{
    if at(ts, "=="@) || at(ts, "!="@) {
        lemma_nc_drop(ts);
        lemma_nc_relational(ts.drop_first(), tbl);
        if let Some((rhs, r)) = p_relational(ts.drop_first(), tbl) {
            if r.len() < ts.len() {
                let node = if at(ts, "=="@) {
                    Ast::Eq(Box::new(lhs), Box::new(rhs))
                } else {
                    Ast::Ne(Box::new(lhs), Box::new(rhs))
                };
                lemma_nc_eq_rest(node, r, tbl);
            }
        }
    }
}

proof fn lemma_nc_equality(ts: Seq<Lexeme>, tbl: Locals)
    requires
        no_close(ts),
    ensures
        p_equality(ts, tbl) matches Some((_, r)) ==> no_close(r),
    decreases ts.len(), 10int,
{
    lemma_nc_relational(ts, tbl);
    if let Some((n, r)) = p_relational(ts, tbl) {
        if r.len() <= ts.len() {
            lemma_nc_eq_rest(n, r, tbl);
        }
    }
}

proof fn lemma_nc_assign(ts: Seq<Lexeme>, tbl: Locals)
    requires
        no_close(ts),
    ensures
        p_assign(ts, tbl) matches Some((_, r)) ==> no_close(r),
    decreases ts.len(), 11int,
{
    lemma_nc_equality(ts, tbl);
    if let Some((_, r)) = p_equality(ts, tbl) {
        if at(r, "="@) && r.len() <= ts.len() {
            lemma_nc_drop(r);
            lemma_nc_assign(r.drop_first(), tbl);
        }
    }
}

proof fn lemma_nc_expr(ts: Seq<Lexeme>, tbl: Locals)
    requires
        no_close(ts),
    ensures
        p_expr(ts, tbl) matches Some((_, r)) ==> no_close(r),
    decreases ts.len(), 12int,
{
    reveal(p_expr);
    lemma_nc_assign(ts, tbl);
}

proof fn lemma_nc_closed_expr(ts: Seq<Lexeme>, tbl: Locals, close: Seq<char>)
    requires
        no_close(ts),
    ensures
        p_closed_expr(ts, tbl, close) matches Some((_, r)) ==> no_close(r),
{
    lemma_nc_expr(ts, tbl);
    if let Some((_, r)) = p_expr(ts, tbl) {
        if at(r, close) {
            lemma_nc_drop(r);
        }
    }
}

proof fn lemma_nc_opt_expr(ts: Seq<Lexeme>, tbl: Locals, close: Seq<char>)
    requires
        no_close(ts),
    ensures
        p_opt_expr(ts, tbl, close) matches Some((_, r)) ==> no_close(r),
{
    if at(ts, close) {
        lemma_nc_drop(ts);
    } else {
        lemma_nc_closed_expr(ts, tbl, close);
    }
}

proof fn lemma_nc_stars(ts: Seq<Lexeme>)
    requires
        no_close(ts),
    ensures
        no_close(p_stars(ts).1),
    decreases ts.len(),
{
    if at(ts, "*"@) {
        lemma_nc_drop(ts);
        lemma_nc_stars(ts.drop_first());
    }
}

proof fn lemma_nc_decl_rest(ts: Seq<Lexeme>, tbl: Locals, base: Type, head: bool, acc: Seq<Ast>)
    requires
        no_close(ts),
    ensures
        p_decl_rest(ts, tbl, base, head, acc) matches Some((_, r, _)) ==> no_close(r),
    decreases ts.len(),
{
    if at(ts, ";"@) {
        lemma_nc_drop(ts);
    } else if !head && !at(ts, ","@) {
    } else {
        let ts1 = if head {
            ts
        } else {
            ts.drop_first()
        };
        if !head {
            lemma_nc_drop(ts);
        }
        lemma_nc_stars(ts1);
        let r0 = p_stars(ts1).1;
        if r0.len() > 0 {
            lemma_nc_drop(r0);
        }
        if let Some((v, r, tbl2)) = p_declarator(ts1, tbl, base) {
            if at(r, "="@) {
                lemma_nc_drop(r);
                lemma_nc_expr(r.drop_first(), tbl2);
                if let Some((e, r2)) = p_expr(r.drop_first(), tbl2) {
                    if r2.len() < ts.len() {
                        let init = Ast::ExprStmt(
                            Box::new(Ast::Assign(Box::new(v), Box::new(e), ty_of(v))),
                        );
                        lemma_nc_decl_rest(r2, tbl2, base, false, acc.push(init));
                    }
                }
            } else if r.len() < ts.len() {
                lemma_nc_decl_rest(r, tbl2, base, false, acc);
            }
        }
    }
}

proof fn lemma_nc_declaration(ts: Seq<Lexeme>, tbl: Locals)
    requires
        no_close(ts),
    ensures
        p_declaration(ts, tbl) matches Some((_, r, _)) ==> no_close(r),
{
    if at(ts, "int"@) {
        lemma_nc_drop(ts);
        lemma_nc_decl_rest(ts.drop_first(), tbl, Type::I32, true, Seq::empty());
    }
}

proof fn lemma_nc_if_tail(ts: Seq<Lexeme>, tbl: Locals)
    requires
        no_close(ts),
    ensures
        p_if_tail(ts, tbl) matches Some((_, r, _)) ==> no_close(r),
    decreases ts.len(), 2int,
{
    if at(ts, "("@) {
        lemma_nc_drop(ts);
        lemma_nc_closed_expr(ts.drop_first(), tbl, ")"@);
        if let Some((_, r)) = p_closed_expr(ts.drop_first(), tbl, ")"@) {
            if r.len() <= ts.len() {
                lemma_nc_stmt(r, tbl);
                if let Some((_, r2, tbl2)) = p_stmt(r, tbl) {
                    if at(r2, "else"@) && r2.len() <= ts.len() {
                        lemma_nc_drop(r2);
                        lemma_nc_stmt(r2.drop_first(), tbl2);
                    }
                }
            }
        }
    }
}

proof fn lemma_nc_for_tail(ts: Seq<Lexeme>, tbl: Locals)
    requires
        no_close(ts),
    ensures
        p_for_tail(ts, tbl) matches Some((_, r, _)) ==> no_close(r),
    decreases ts.len(), 2int,
{
    if at(ts, "("@) {
        lemma_nc_drop(ts);
        lemma_nc_opt_expr(ts.drop_first(), tbl, ";"@);
        if let Some((_, r1, _)) = p_expr_stmt(ts.drop_first(), tbl) {
            lemma_nc_opt_expr(r1, tbl, ";"@);
            if let Some((_, r2)) = p_opt_expr(r1, tbl, ";"@) {
                lemma_nc_opt_expr(r2, tbl, ")"@);
                if let Some((_, r3)) = p_opt_expr(r2, tbl, ")"@) {
                    if r3.len() <= ts.len() {
                        lemma_nc_stmt(r3, tbl);
                    }
                }
            }
        }
    }
}

proof fn lemma_nc_while_tail(ts: Seq<Lexeme>, tbl: Locals)
    requires
        no_close(ts),
    ensures
        p_while_tail(ts, tbl) matches Some((_, r, _)) ==> no_close(r),
    decreases ts.len(), 2int,
{
    if at(ts, "("@) {
        lemma_nc_drop(ts);
        lemma_nc_closed_expr(ts.drop_first(), tbl, ")"@);
        if let Some((_, r)) = p_closed_expr(ts.drop_first(), tbl, ")"@) {
            if r.len() <= ts.len() {
                lemma_nc_stmt(r, tbl);
            }
        }
    }
}

proof fn lemma_nc_stmt(ts: Seq<Lexeme>, tbl: Locals)
    requires
        no_close(ts),
    ensures
        p_stmt(ts, tbl) matches Some((_, r, _)) ==> no_close(r),
    decreases ts.len(), 1int,
{
    if at(ts, "return"@) {
        lemma_nc_drop(ts);
        lemma_nc_closed_expr(ts.drop_first(), tbl, ";"@);
    } else if at(ts, "if"@) {
        lemma_nc_drop(ts);
        lemma_nc_if_tail(ts.drop_first(), tbl);
    } else if at(ts, "for"@) {
        lemma_nc_drop(ts);
        lemma_nc_for_tail(ts.drop_first(), tbl);
    } else if at(ts, "while"@) {
        lemma_nc_drop(ts);
        lemma_nc_while_tail(ts.drop_first(), tbl);
    } else if at(ts, "{"@) {
        lemma_nc_drop(ts);
        lemma_nc_compound(ts.drop_first(), tbl, Seq::empty());
    } else {
        lemma_nc_opt_expr(ts, tbl, ";"@);
    }
}

/// A block with no `}` after its `{` never ends.
proof fn lemma_nc_compound(ts: Seq<Lexeme>, tbl: Locals, acc: Seq<Ast>)
    requires
        no_close(ts),
    ensures
        p_compound(ts, tbl, acc) is None,
    decreases ts.len(), 2int,
{
    if ts.len() > 0 {
        assert(ts[0] != Lexeme::Reserved("}"@));
    }
    let item = if at(ts, "int"@) {
        lemma_nc_declaration(ts, tbl);
        p_declaration(ts, tbl)
    } else {
        lemma_nc_stmt(ts, tbl);
        p_stmt(ts, tbl)
    };
    if let Some((n, r, tbl2)) = item {
        if r.len() < ts.len() {
            lemma_nc_compound(r, tbl2, acc.push(n));
        }
    }
}

/// A `{` that is never closed is a syntax error: where no `}` follows it,
/// the statement that it starts does not parse, whatever locals are
/// declared.
pub proof fn lemma_unclosed_block(ts: Seq<Lexeme>, tbl: Locals)
    requires
        no_close(ts),
    ensures
        p_stmt(seq![Lexeme::Reserved("{"@)] + ts, tbl) is None,
{
    reveal_operators();
    let t = seq![Lexeme::Reserved("{"@)] + ts;
    assert(t.drop_first() =~= ts);
    lemma_nc_compound(ts, tbl, Seq::empty());
}

} // verus!
