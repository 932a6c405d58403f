use vstd::prelude::*;

use crate::errors::{ErrorKind, MyError};
use crate::tokenizer::{Lexeme, Token, TokenQueue};

verus! {

/// The type of a value: a 32-bit integer or a pointer to a value of a type.
#[derive(PartialEq, Eq, Debug)]
pub enum Type {
    I32,
    Ptr { base: Box<Type> },
}

/// A node of the syntax tree. Expression nodes carry the type of their
/// result, where it is not fixed by the kind of node.
#[derive(PartialEq, Eq, Debug)]
pub enum Node {
    Add { lhs: Box<Node>, rhs: Box<Node>, ty: Type },
    Sub { lhs: Box<Node>, rhs: Box<Node>, ty: Type },
    Mul { lhs: Box<Node>, rhs: Box<Node>, ty: Type },
    Div { lhs: Box<Node>, rhs: Box<Node>, ty: Type },
    /// Unary minus.
    Neg { lhs: Box<Node>, ty: Type },
    /// `==`; the comparisons yield an `I32`, 0 or 1.
    Eq { lhs: Box<Node>, rhs: Box<Node> },
    Ne { lhs: Box<Node>, rhs: Box<Node> },
    Lt { lhs: Box<Node>, rhs: Box<Node> },
    Le { lhs: Box<Node>, rhs: Box<Node> },
    Assign { lhs: Box<Node>, rhs: Box<Node>, ty: Type },
    /// Unary `&`.
    Addr { lhs: Box<Node>, ty: Type },
    /// Unary `*`.
    Deref { lhs: Box<Node>, ty: Type },
    Return { lhs: Option<Box<Node>> },
    If { cond: Box<Node>, then_branch: Box<Node>, else_branch: Option<Box<Node>> },
    /// `for`, and `while` as a `for` without `init` and `inc`.
    For {
        init: Option<Box<Node>>,
        cond: Option<Box<Node>>,
        inc: Option<Box<Node>>,
        body: Box<Node>,
    },
    Block { nodes: Vec<Node> },
    ExprStmt { expr: Box<Node> },
    /// A local variable.
    Var { name: String, ty: Type },
    /// An integer literal.
    Num { val: i32 },
}

/// A syntax tree as plain values: the model of `Node`.
pub enum Ast {
    Add(Box<Ast>, Box<Ast>, Type),
    Sub(Box<Ast>, Box<Ast>, Type),
    Mul(Box<Ast>, Box<Ast>, Type),
    Div(Box<Ast>, Box<Ast>, Type),
    Neg(Box<Ast>, Type),
    Eq(Box<Ast>, Box<Ast>),
    Ne(Box<Ast>, Box<Ast>),
    Lt(Box<Ast>, Box<Ast>),
    Le(Box<Ast>, Box<Ast>),
    Assign(Box<Ast>, Box<Ast>, Type),
    Addr(Box<Ast>, Type),
    Deref(Box<Ast>, Type),
    Return(Option<Box<Ast>>),
    If(Box<Ast>, Box<Ast>, Option<Box<Ast>>),
    For(Option<Box<Ast>>, Option<Box<Ast>>, Option<Box<Ast>>, Box<Ast>),
    Block(Seq<Ast>),
    ExprStmt(Box<Ast>),
    Var(Seq<char>, Type),
    Num(i32),
}

pub open spec fn ast_of(n: Node) -> Ast
    decreases n, 0int,
{
    match n {
        Node::Add { lhs, rhs, ty } => Ast::Add(Box::new(ast_of(*lhs)), Box::new(ast_of(*rhs)), ty),
        Node::Sub { lhs, rhs, ty } => Ast::Sub(Box::new(ast_of(*lhs)), Box::new(ast_of(*rhs)), ty),
        Node::Mul { lhs, rhs, ty } => Ast::Mul(Box::new(ast_of(*lhs)), Box::new(ast_of(*rhs)), ty),
        Node::Div { lhs, rhs, ty } => Ast::Div(Box::new(ast_of(*lhs)), Box::new(ast_of(*rhs)), ty),
        Node::Neg { lhs, ty } => Ast::Neg(Box::new(ast_of(*lhs)), ty),
        Node::Eq { lhs, rhs } => Ast::Eq(Box::new(ast_of(*lhs)), Box::new(ast_of(*rhs))),
        Node::Ne { lhs, rhs } => Ast::Ne(Box::new(ast_of(*lhs)), Box::new(ast_of(*rhs))),
        Node::Lt { lhs, rhs } => Ast::Lt(Box::new(ast_of(*lhs)), Box::new(ast_of(*rhs))),
        Node::Le { lhs, rhs } => Ast::Le(Box::new(ast_of(*lhs)), Box::new(ast_of(*rhs))),
        Node::Assign { lhs, rhs, ty } => Ast::Assign(
            Box::new(ast_of(*lhs)),
            Box::new(ast_of(*rhs)),
            ty,
        ),
        Node::Addr { lhs, ty } => Ast::Addr(Box::new(ast_of(*lhs)), ty),
        Node::Deref { lhs, ty } => Ast::Deref(Box::new(ast_of(*lhs)), ty),
        Node::Return { lhs } => Ast::Return(
            match lhs {
                Some(x) => Some(Box::new(ast_of(*x))),
                None => None,
            },
        ),
        Node::If { cond, then_branch, else_branch } => Ast::If(
            Box::new(ast_of(*cond)),
            Box::new(ast_of(*then_branch)),
            match else_branch {
                Some(x) => Some(Box::new(ast_of(*x))),
                None => None,
            },
        ),
        Node::For { init, cond, inc, body } => Ast::For(
            match init {
                Some(x) => Some(Box::new(ast_of(*x))),
                None => None,
            },
            match cond {
                Some(x) => Some(Box::new(ast_of(*x))),
                None => None,
            },
            match inc {
                Some(x) => Some(Box::new(ast_of(*x))),
                None => None,
            },
            Box::new(ast_of(*body)),
        ),
        Node::Block { nodes } => Ast::Block(asts_of(nodes@)),
        Node::ExprStmt { expr } => Ast::ExprStmt(Box::new(ast_of(*expr))),
        Node::Var { name, ty } => Ast::Var(name@, ty),
        Node::Num { val } => Ast::Num(val),
    }
}

pub open spec fn asts_of(s: Seq<Node>) -> Seq<Ast>
    decreases s, s.len(),
{
    if s.len() == 0 {
        Seq::empty()
    } else {
        asts_of(s.drop_last()).push(ast_of(s.last()))
    }
}

/// The model of an optional child node.
pub open spec fn opt_ast(o: Option<Box<Node>>) -> Option<Box<Ast>> {
    match o {
        Some(x) => Some(Box::new(ast_of(*x))),
        None => None,
    }
}

impl View for Node {
    type V = Ast;

    open spec fn view(&self) -> Ast {
        ast_of(*self)
    }
}

/// The symbol table as plain values: each local's name and type, in order
/// of declaration.
pub type Locals = Seq<(Seq<char>, Type)>;

/// The first position at or after `i` where `tbl` binds `name`.
pub open spec fn find_from(tbl: Locals, name: Seq<char>, i: int) -> Option<int>
    decreases tbl.len() - i,
{
    if i < 0 || i >= tbl.len() {
        None
    } else if tbl[i].0 == name {
        Some(i)
    } else {
        find_from(tbl, name, i + 1)
    }
}

/// Where `tbl` binds `name`.
pub open spec fn lookup(tbl: Locals, name: Seq<char>) -> Option<int> {
    find_from(tbl, name, 0)
}

/// `tbl` after declaring `name` with type `t`: a name declared before keeps
/// its first binding.
pub open spec fn declare(tbl: Locals, name: Seq<char>, t: Type) -> Locals {
    if lookup(tbl, name) is Some {
        tbl
    } else {
        tbl.push((name, t))
    }
}

/// The type of an expression; `None` for a statement.
pub open spec fn type_of(a: Ast) -> Option<Type> {
    match a {
        Ast::Add(_, _, t) => Some(t),
        Ast::Sub(_, _, t) => Some(t),
        Ast::Mul(_, _, t) => Some(t),
        Ast::Div(_, _, t) => Some(t),
        Ast::Neg(_, t) => Some(t),
        Ast::Eq(_, _) => Some(Type::I32),
        Ast::Ne(_, _) => Some(Type::I32),
        Ast::Lt(_, _) => Some(Type::I32),
        Ast::Le(_, _) => Some(Type::I32),
        Ast::Assign(_, _, t) => Some(t),
        Ast::Addr(_, t) => Some(t),
        Ast::Deref(_, t) => Some(t),
        Ast::Var(_, t) => Some(t),
        Ast::Num(_) => Some(Type::I32),
        _ => None,
    }
}

/// The type of an expression, `I32` for a statement.
pub open spec fn ty_of(a: Ast) -> Type {
    match type_of(a) {
        Some(t) => t,
        None => Type::I32,
    }
}

pub open spec fn is_ptr(a: Ast) -> bool {
    ty_of(a) is Ptr
}

/// The type that dereferencing a value of type `t` yields.
pub open spec fn deref_type(t: Type) -> Type {
    match t {
        Type::Ptr { base } => *base,
        Type::I32 => Type::I32,
    }
}

/// `k` pointer levels over `base`.
pub open spec fn ptr_to(base: Type, k: nat) -> Type
    decreases k,
{
    if k == 0 {
        base
    } else {
        Type::Ptr { base: Box::new(ptr_to(base, (k - 1) as nat)) }
    }
}

/// The integer operand of pointer arithmetic, scaled by the pointee size.
pub open spec fn scaled(a: Ast) -> Ast {
    Ast::Mul(Box::new(a), Box::new(Ast::Num(8)), Type::I32)
}

/// `l + r`, with the pointer operand on the left and the integer operand
/// scaled; `None` for two pointers.
pub open spec fn canon_add(l: Ast, r: Ast) -> Option<Ast> {
    if is_ptr(l) && is_ptr(r) {
        None
    } else if is_ptr(r) {
        Some(Ast::Add(Box::new(r), Box::new(scaled(l)), ty_of(r)))
    } else if is_ptr(l) {
        Some(Ast::Add(Box::new(l), Box::new(scaled(r)), ty_of(l)))
    } else {
        Some(Ast::Add(Box::new(l), Box::new(r), ty_of(l)))
    }
}

/// `l - r`: pointer minus pointer is the distance in elements, pointer minus
/// integer scales the integer; `None` for an integer minus a pointer.
pub open spec fn canon_sub(l: Ast, r: Ast) -> Option<Ast> {
    if is_ptr(r) && !is_ptr(l) {
        None
    } else if is_ptr(l) && is_ptr(r) {
        Some(
            Ast::Div(
                Box::new(Ast::Sub(Box::new(l), Box::new(r), ty_of(l))),
                Box::new(Ast::Num(8)),
                Type::I32,
            ),
        )
    } else if is_ptr(l) {
        Some(Ast::Sub(Box::new(l), Box::new(scaled(r)), ty_of(l)))
    } else {
        Some(Ast::Sub(Box::new(l), Box::new(r), ty_of(l)))
    }
}

/// Whether the next token is the punctuator or keyword `op`.
pub open spec fn at(ts: Seq<Lexeme>, op: Seq<char>) -> bool {
    ts.len() > 0 && ts[0] == Lexeme::Reserved(op)
}

/// A parsed expression and the tokens after it.
pub type Parsed = Option<(Ast, Seq<Lexeme>)>;

/// primary = "(" expr ")" | ident | num
pub open spec fn p_primary(ts: Seq<Lexeme>, tbl: Locals) -> Parsed
    decreases ts.len(), 1int,
{
    if at(ts, "("@) {
        match p_expr(ts.drop_first(), tbl) {
            Some((e, r)) => if at(r, ")"@) {
                Some((e, r.drop_first()))
            } else {
                None
            },
            None => None,
        }
    } else if ts.len() > 0 {
        match ts[0] {
            Lexeme::Ident(n) => match lookup(tbl, n) {
                Some(i) => Some((Ast::Var(n, tbl[i].1), ts.drop_first())),
                None => None,
            },
            Lexeme::Num(_, v) => Some((Ast::Num(v), ts.drop_first())),
            _ => None,
        }
    } else {
        None
    }
}

/// unary = ("+" | "-" | "*" | "&") unary | primary
pub open spec fn p_unary(ts: Seq<Lexeme>, tbl: Locals) -> Parsed
    decreases ts.len(), 2int,
{
    if at(ts, "+"@) {
        p_unary(ts.drop_first(), tbl)
    } else if at(ts, "-"@) {
        match p_unary(ts.drop_first(), tbl) {
            Some((x, r)) => Some((Ast::Neg(Box::new(x), ty_of(x)), r)),
            None => None,
        }
    } else if at(ts, "*"@) {
        match p_unary(ts.drop_first(), tbl) {
            Some((x, r)) => Some((Ast::Deref(Box::new(x), deref_type(ty_of(x))), r)),
            None => None,
        }
    } else if at(ts, "&"@) {
        match p_unary(ts.drop_first(), tbl) {
            Some((x, r)) => Some((Ast::Addr(Box::new(x), Type::Ptr { base: Box::new(ty_of(x)) }), r)),
            None => None,
        }
    } else {
        p_primary(ts, tbl)
    }
}

/// The `("*" unary | "/" unary)*` tail of `mul`, after `lhs`.
pub open spec fn p_mul_rest(lhs: Ast, ts: Seq<Lexeme>, tbl: Locals) -> Parsed
    decreases ts.len(), 3int,
{
    if at(ts, "*"@) || at(ts, "/"@) {
        match p_unary(ts.drop_first(), tbl) {
            Some((rhs, r)) => if r.len() < ts.len() {
                let node = if at(ts, "*"@) {
                    Ast::Mul(Box::new(lhs), Box::new(rhs), ty_of(lhs))
                } else {
                    Ast::Div(Box::new(lhs), Box::new(rhs), ty_of(lhs))
                };
                p_mul_rest(node, r, tbl)
            } else {
                None
            },
            None => None,
        }
    } else {
        Some((lhs, ts))
    }
}

/// mul = unary ("*" unary | "/" unary)*
pub open spec fn p_mul(ts: Seq<Lexeme>, tbl: Locals) -> Parsed
    decreases ts.len(), 4int,
{
    match p_unary(ts, tbl) {
        Some((n, r)) => if r.len() <= ts.len() {
            p_mul_rest(n, r, tbl)
        } else {
            None
        },
        None => None,
    }
}

/// The `("+" mul | "-" mul)*` tail of `add`, after `lhs`.
pub open spec fn p_add_rest(lhs: Ast, ts: Seq<Lexeme>, tbl: Locals) -> Parsed
    decreases ts.len(), 5int,
{
    if at(ts, "+"@) || at(ts, "-"@) {
        match p_mul(ts.drop_first(), tbl) {
            Some((rhs, r)) => if r.len() < ts.len() {
                let node = if at(ts, "+"@) {
                    canon_add(lhs, rhs)
                } else {
                    canon_sub(lhs, rhs)
                };
                match node {
                    Some(n) => p_add_rest(n, r, tbl),
                    None => None,
                }
            } else {
                None
            },
            None => None,
        }
    } else {
        Some((lhs, ts))
    }
}

/// add = mul ("+" mul | "-" mul)*
pub open spec fn p_add(ts: Seq<Lexeme>, tbl: Locals) -> Parsed
    decreases ts.len(), 6int,
{
    match p_mul(ts, tbl) {
        Some((n, r)) => if r.len() <= ts.len() {
            p_add_rest(n, r, tbl)
        } else {
            None
        },
        None => None,
    }
}

/// The tail of `relational` after `lhs`; `a > b` is `b < a`, and `a >= b`
/// is `b <= a`.
pub open spec fn p_rel_rest(lhs: Ast, ts: Seq<Lexeme>, tbl: Locals) -> Parsed
    decreases ts.len(), 7int,
{
    if at(ts, "<"@) || at(ts, "<="@) || at(ts, ">"@) || at(ts, ">="@) {
        match p_add(ts.drop_first(), tbl) {
            Some((rhs, r)) => if r.len() < ts.len() {
                let node = if at(ts, "<"@) {
                    Ast::Lt(Box::new(lhs), Box::new(rhs))
                } else if at(ts, "<="@) {
                    Ast::Le(Box::new(lhs), Box::new(rhs))
                } else if at(ts, ">"@) {
                    Ast::Lt(Box::new(rhs), Box::new(lhs))
                } else {
                    Ast::Le(Box::new(rhs), Box::new(lhs))
                };
                p_rel_rest(node, r, tbl)
            } else {
                None
            },
            None => None,
        }
    } else {
        Some((lhs, ts))
    }
}

/// relational = add ("<" add | "<=" add | ">" add | ">=" add)*
pub open spec fn p_relational(ts: Seq<Lexeme>, tbl: Locals) -> Parsed
    decreases ts.len(), 8int,
{
    match p_add(ts, tbl) {
        Some((n, r)) => if r.len() <= ts.len() {
            p_rel_rest(n, r, tbl)
        } else {
            None
        },
        None => None,
    }
}

/// The `("==" relational | "!=" relational)*` tail of `equality`.
pub open spec fn p_eq_rest(lhs: Ast, ts: Seq<Lexeme>, tbl: Locals) -> Parsed
    decreases ts.len(), 9int,
{
    if at(ts, "=="@) || at(ts, "!="@) {
        match p_relational(ts.drop_first(), tbl) {
            Some((rhs, r)) => if r.len() < ts.len() {
                let node = if at(ts, "=="@) {
                    Ast::Eq(Box::new(lhs), Box::new(rhs))
                } else {
                    Ast::Ne(Box::new(lhs), Box::new(rhs))
                };
                p_eq_rest(node, r, tbl)
            } else {
                None
            },
            None => None,
        }
    } else {
        Some((lhs, ts))
    }
}

/// equality = relational ("==" relational | "!=" relational)*
pub open spec fn p_equality(ts: Seq<Lexeme>, tbl: Locals) -> Parsed
    decreases ts.len(), 10int,
{
    match p_relational(ts, tbl) {
        Some((n, r)) => if r.len() <= ts.len() {
            p_eq_rest(n, r, tbl)
        } else {
            None
        },
        None => None,
    }
}

/// assign = equality ("=" assign)?
pub open spec fn p_assign(ts: Seq<Lexeme>, tbl: Locals) -> Parsed
    decreases ts.len(), 11int,
{
    match p_equality(ts, tbl) {
        Some((l, r)) => if at(r, "="@) {
            if r.len() <= ts.len() {
                match p_assign(r.drop_first(), tbl) {
                    Some((rhs, r2)) => Some((Ast::Assign(Box::new(l), Box::new(rhs), ty_of(l)), r2)),
                    None => None,
                }
            } else {
                None
            }
        } else {
            Some((l, r))
        },
        None => None,
    }
}

/// expr = assign
#[verifier::opaque]
pub open spec fn p_expr(ts: Seq<Lexeme>, tbl: Locals) -> Parsed
    decreases ts.len(), 12int,
{
    p_assign(ts, tbl)
}

/// A parsed statement, the tokens after it, and the symbol table after it.
pub type ParsedStmt = Option<(Ast, Seq<Lexeme>, Locals)>;

/// An expression closed by `close`: `expr close`.
pub open spec fn p_closed_expr(ts: Seq<Lexeme>, tbl: Locals, close: Seq<char>) -> Parsed {
    match p_expr(ts, tbl) {
        Some((e, r)) => if at(r, close) {
            Some((e, r.drop_first()))
        } else {
            None
        },
        None => None,
    }
}

/// An optional expression closed by `close`: `expr? close`.
pub open spec fn p_opt_expr(ts: Seq<Lexeme>, tbl: Locals, close: Seq<char>) -> Option<
    (Option<Ast>, Seq<Lexeme>),
> {
    if at(ts, close) {
        Some((None, ts.drop_first()))
    } else {
        match p_expr(ts, tbl) {
            Some((e, r)) => if at(r, close) {
                Some((Some(e), r.drop_first()))
            } else {
                None
            },
            None => None,
        }
    }
}

pub open spec fn boxed(o: Option<Ast>) -> Option<Box<Ast>> {
    match o {
        Some(a) => Some(Box::new(a)),
        None => None,
    }
}

/// expr-stmt = expr? ";"
pub open spec fn p_expr_stmt(ts: Seq<Lexeme>, tbl: Locals) -> ParsedStmt {
    match p_opt_expr(ts, tbl, ";"@) {
        Some((Some(e), r)) => Some((Ast::ExprStmt(Box::new(e)), r, tbl)),
        Some((None, r)) => Some((Ast::Block(Seq::empty()), r, tbl)),
        None => None,
    }
}

/// The leading run of `*`: how many, and the tokens after it.
pub open spec fn p_stars(ts: Seq<Lexeme>) -> (nat, Seq<Lexeme>)
    decreases ts.len(),
{
    if at(ts, "*"@) {
        let (k, r) = p_stars(ts.drop_first());
        (k + 1, r)
    } else {
        (0, ts)
    }
}

/// The type that `tbl` gives `name`, or `t` where it has no binding.
pub open spec fn bound_type(tbl: Locals, name: Seq<char>, t: Type) -> Type {
    match lookup(tbl, name) {
        Some(i) => tbl[i].1,
        None => t,
    }
}

/// declarator = "*"* ident
pub open spec fn p_declarator(ts: Seq<Lexeme>, tbl: Locals, base: Type) -> ParsedStmt {
    let (k, r) = p_stars(ts);
    if r.len() > 0 {
        match r[0] {
            Lexeme::Ident(n) => {
                let t = ptr_to(base, k);
                Some((Ast::Var(n, bound_type(tbl, n, t)), r.drop_first(), declare(tbl, n, t)))
            },
            _ => None,
        }
    } else {
        None
    }
}

/// The part of a declaration after `int`, with the initializers parsed so
/// far in `acc`; `head` until the first declarator.
pub open spec fn p_decl_rest(
    ts: Seq<Lexeme>,
    tbl: Locals,
    base: Type,
    head: bool,
    acc: Seq<Ast>,
) -> ParsedStmt
    decreases ts.len(),
{
    if at(ts, ";"@) {
        Some((Ast::Block(acc), ts.drop_first(), tbl))
    } else if !head && !at(ts, ","@) {
        None
    } else {
        let ts1 = if head {
            ts
        } else {
            ts.drop_first()
        };
        match p_declarator(ts1, tbl, base) {
            Some((v, r, tbl2)) => if at(r, "="@) {
                match p_expr(r.drop_first(), tbl2) {
                    Some((e, r2)) => if r2.len() < ts.len() {
                        let init = Ast::ExprStmt(
                            Box::new(Ast::Assign(Box::new(v), Box::new(e), ty_of(v))),
                        );
                        p_decl_rest(r2, tbl2, base, false, acc.push(init))
                    } else {
                        None
                    },
                    None => None,
                }
            } else if r.len() < ts.len() {
                p_decl_rest(r, tbl2, base, false, acc)
            } else {
                None
            },
            None => None,
        }
    }
}

/// declaration = "int" (declarator ("=" expr)? ("," declarator ("=" expr)?)*)? ";"
pub open spec fn p_declaration(ts: Seq<Lexeme>, tbl: Locals) -> ParsedStmt {
    if at(ts, "int"@) {
        p_decl_rest(ts.drop_first(), tbl, Type::I32, true, Seq::empty())
    } else {
        None
    }
}

/// The part of `"return" expr ";"` after `return`.
pub open spec fn p_return_tail(ts: Seq<Lexeme>, tbl: Locals) -> ParsedStmt {
    match p_closed_expr(ts, tbl, ";"@) {
        Some((e, r)) => Some((Ast::Return(Some(Box::new(e))), r, tbl)),
        None => None,
    }
}

/// The part of `"if" "(" expr ")" stmt ("else" stmt)?` after `if`.
pub open spec fn p_if_tail(ts: Seq<Lexeme>, tbl: Locals) -> ParsedStmt
    decreases ts.len(), 2int,
{
    if !at(ts, "("@) {
        None
    } else {
        match p_closed_expr(ts.drop_first(), tbl, ")"@) {
            Some((c, r)) => if r.len() <= ts.len() {
                match p_stmt(r, tbl) {
                    Some((th, r2, tbl2)) => if at(r2, "else"@) {
                        if r2.len() <= ts.len() {
                            match p_stmt(r2.drop_first(), tbl2) {
                                Some((el, r3, tbl3)) => Some(
                                    (
                                        Ast::If(Box::new(c), Box::new(th), Some(Box::new(el))),
                                        r3,
                                        tbl3,
                                    ),
                                ),
                                None => None,
                            }
                        } else {
                            None
                        }
                    } else {
                        Some((Ast::If(Box::new(c), Box::new(th), None), r2, tbl2))
                    },
                    None => None,
                }
            } else {
                None
            },
            None => None,
        }
    }
}

/// The part of `"for" "(" expr-stmt expr? ";" expr? ")" stmt` after `for`.
pub open spec fn p_for_tail(ts: Seq<Lexeme>, tbl: Locals) -> ParsedStmt
    decreases ts.len(), 2int,
{
    if !at(ts, "("@) {
        None
    } else {
        match p_expr_stmt(ts.drop_first(), tbl) {
            Some((init, r1, _)) => match p_opt_expr(r1, tbl, ";"@) {
                Some((cond, r2)) => match p_opt_expr(r2, tbl, ")"@) {
                    Some((inc, r3)) => if r3.len() <= ts.len() {
                        match p_stmt(r3, tbl) {
                            Some((body, r4, tbl4)) => Some(
                                (
                                    Ast::For(
                                        Some(Box::new(init)),
                                        boxed(cond),
                                        boxed(inc),
                                        Box::new(body),
                                    ),
                                    r4,
                                    tbl4,
                                ),
                            ),
                            None => None,
                        }
                    } else {
                        None
                    },
                    None => None,
                },
                None => None,
            },
            None => None,
        }
    }
}

/// The part of `"while" "(" expr ")" stmt` after `while`.
pub open spec fn p_while_tail(ts: Seq<Lexeme>, tbl: Locals) -> ParsedStmt
    decreases ts.len(), 2int,
{
    if !at(ts, "("@) {
        None
    } else {
        match p_closed_expr(ts.drop_first(), tbl, ")"@) {
            Some((c, r)) => if r.len() <= ts.len() {
                match p_stmt(r, tbl) {
                    Some((body, r2, tbl2)) => Some(
                        (Ast::For(None, Some(Box::new(c)), None, Box::new(body)), r2, tbl2),
                    ),
                    None => None,
                }
            } else {
                None
            },
            None => None,
        }
    }
}

/// stmt = "return" expr ";"
///      | "if" "(" expr ")" stmt ("else" stmt)?
///      | "for" "(" expr-stmt expr? ";" expr? ")" stmt
///      | "while" "(" expr ")" stmt
///      | "{" compound-stmt
///      | expr-stmt
pub open spec fn p_stmt(ts: Seq<Lexeme>, tbl: Locals) -> ParsedStmt
    decreases ts.len(), 1int,
{
    if at(ts, "return"@) {
        p_return_tail(ts.drop_first(), tbl)
    } else if at(ts, "if"@) {
        p_if_tail(ts.drop_first(), tbl)
    } else if at(ts, "for"@) {
        p_for_tail(ts.drop_first(), tbl)
    } else if at(ts, "while"@) {
        p_while_tail(ts.drop_first(), tbl)
    } else if at(ts, "{"@) {
        p_compound(ts.drop_first(), tbl, Seq::empty())
    } else {
        p_expr_stmt(ts, tbl)
    }
}

/// compound-stmt = (declaration | stmt)* "}", with the items parsed so far
/// in `acc`.
pub open spec fn p_compound(ts: Seq<Lexeme>, tbl: Locals, acc: Seq<Ast>) -> ParsedStmt
    decreases ts.len(), 2int,
{
    if at(ts, "}"@) {
        Some((Ast::Block(acc), ts.drop_first(), tbl))
    } else {
        let item = if at(ts, "int"@) {
            p_declaration(ts, tbl)
        } else {
            p_stmt(ts, tbl)
        };
        match item {
            Some((n, r, tbl2)) => if r.len() < ts.len() {
                p_compound(r, tbl2, acc.push(n))
            } else {
                None
            },
            None => None,
        }
    }
}

/// program = stmt*, up to `Eof`, with the statements parsed so far in `acc`.
pub open spec fn p_program(ts: Seq<Lexeme>, tbl: Locals, acc: Seq<Ast>) -> Option<(Seq<Ast>, Locals)>
    decreases ts.len(),
{
    if ts.len() == 0 {
        None
    } else if ts[0] == Lexeme::Eof {
        Some((acc, tbl))
    } else {
        match p_stmt(ts, tbl) {
            Some((n, r, tbl2)) => if r.len() < ts.len() {
                p_program(r, tbl2, acc.push(n))
            } else {
                None
            },
            None => None,
        }
    }
}

impl Type {
    /// A copy of the type.
    pub fn duplicate(&self) -> (r: Type)
        ensures
            r == *self,
        decreases self,
    {
        match self {
            Type::I32 => Type::I32,
            Type::Ptr { base } => Type::Ptr { base: Box::new(base.duplicate()) },
        }
    }
}

impl Node {
    pub fn is_add(&self) -> (r: bool)
        ensures
            r == (self@ is Add),
    {
        match self {
            Node::Add { .. } => true,
            _ => false,
        }
    }

    /// The type of an expression node; `None` for a statement.
    pub fn get_type(&self) -> (r: Option<Type>)
        ensures
            r == type_of(self@),
    {
        match self {
            Node::Add { ty, .. } => Some(ty.duplicate()),
            Node::Sub { ty, .. } => Some(ty.duplicate()),
            Node::Mul { ty, .. } => Some(ty.duplicate()),
            Node::Div { ty, .. } => Some(ty.duplicate()),
            Node::Neg { ty, .. } => Some(ty.duplicate()),
            Node::Assign { ty, .. } => Some(ty.duplicate()),
            Node::Addr { ty, .. } => Some(ty.duplicate()),
            Node::Deref { ty, .. } => Some(ty.duplicate()),
            Node::Var { ty, .. } => Some(ty.duplicate()),
            Node::Eq { .. } | Node::Ne { .. } | Node::Lt { .. } | Node::Le { .. } | Node::Num {
                ..
            } => Some(Type::I32),
            _ => None,
        }
    }

    /// The type of an expression node, `I32` for a statement.
    fn ty(&self) -> (r: Type)
        ensures
            r == ty_of(self@),
    {
        match self.get_type() {
            Some(t) => t,
            None => Type::I32,
        }
    }

    /// Whether the node is an expression of pointer type.
    pub fn is_ptr_node(&self) -> (r: bool)
        ensures
            r == is_ptr(self@),
    {
        match self.get_type() {
            Some(Type::Ptr { .. }) => true,
            _ => false,
        }
    }

    pub fn is_var(&self) -> (r: bool)
        ensures
            r == (self@ is Var),
    {
        match self {
            Node::Var { .. } => true,
            _ => false,
        }
    }

    pub fn is_num(&self) -> (r: bool)
        ensures
            r == (self@ is Num),
    {
        match self {
            Node::Num { .. } => true,
            _ => false,
        }
    }

    /// Types are given to nodes as they are built, so this leaves the node
    /// as it is.
    pub fn assign_type(&mut self)
        ensures
            *final(self) == *old(self),
    {
    }
}

/// A local variable: its name, its frame offset below `%rbp` (0 until
/// offsets are assigned), and its type.
#[derive(Debug)]
pub struct VarTableItem {
    pub name: String,
    pub offset: usize,
    pub ty: Type,
}

pub open spec fn table_of(v: Seq<VarTableItem>) -> Locals {
    v.map_values(|x: VarTableItem| (x.name@, x.ty))
}

/// The parser: the tokens left to read and the locals declared so far, in
/// order of declaration.
#[derive(Debug)]
pub struct Parser {
    pub locals: Vec<VarTableItem>,
    pub stack_size: usize,
    pub token_queue: TokenQueue,
}

/// What an expression parser promises: on success the node and the tokens
/// left are those of the grammar, `res`; on failure the grammar fails too.
/// Expressions declare nothing.
pub open spec fn expr_post(pre: Parser, post: Parser, r: Result<Node, MyError>, res: Parsed) -> bool {
    &&& post.locals == pre.locals
    &&& match r {
        Ok(n) => {
            &&& res == Some((n@, post.token_queue@))
            &&& post.token_queue.wf()
            &&& post.token_queue@.len() <= pre.token_queue@.len()
            &&& vars_in(n@, post.table())
        },
        Err(e) => res is None && e.kind == ErrorKind::Syntactic,
    }
}

fn pointee(t: Type) -> (r: Type)
    ensures
        r == deref_type(t),
{
    match t {
        Type::Ptr { base } => *base,
        Type::I32 => Type::I32,
    }
}

impl Parser {
    pub open spec fn table(&self) -> Locals {
        table_of(self.locals@)
    }

    pub fn new(token_queue: TokenQueue) -> (r: Parser)
        ensures
            r.token_queue == token_queue,
            r.locals@.len() == 0,
            r.stack_size == 0,
    {
        Parser { locals: Vec::new(), stack_size: 0, token_queue }
    }

    /// The type of the local `name`.
    fn find_var(&self, name: &String) -> (r: Option<Type>)
        ensures
            r == match lookup(self.table(), name@) {
                Some(i) => Some(self.table()[i].1),
                None => None,
            },
    {
        let mut i: usize = 0;
        while i < self.locals.len()
            invariant
                i <= self.locals@.len(),
                lookup(self.table(), name@) == find_from(self.table(), name@, i as int),
            decreases self.locals@.len() - i,
        {
            if self.locals[i].name.eq(name) {
                return Some(self.locals[i].ty.duplicate());
            }
            i = i + 1;
        }
        None
    }

    /// Declares `name`, unless it is declared already.
    fn push_var(&mut self, name: String, ty: Type)
        ensures
            final(self).table() == declare(old(self).table(), name@, ty),
            final(self).token_queue == old(self).token_queue,
    {
        if self.find_var(&name).is_none() {
            let ghost name_v = name@;
            let ghost t = ty;
            self.locals.push(VarTableItem { name, offset: 0, ty });
            assert(self.table() =~= old(self).table().push((name_v, t)));
        }
    }

    /// A pointer operand's integer partner, scaled by the pointee size.
    fn scale(n: Node) -> (r: Node)
        ensures
            r@ == scaled(n@),
    {
        let eight = Node::Num { val: 8 };
        assert(eight@ == Ast::Num(8));
        Node::Mul { lhs: Box::new(n), rhs: Box::new(eight), ty: Type::I32 }
    }

    // Canonicalize `num + ptr` to `ptr + num`.
    fn new_add(lhs: Node, rhs: Node) -> (r: Result<Node, MyError>)
        ensures
            match r {
                Ok(n) => canon_add(lhs@, rhs@) == Some(n@),
                Err(e) => canon_add(lhs@, rhs@) is None && e.kind == ErrorKind::Syntactic,
            },
    {
        let lp = lhs.is_ptr_node();
        let rp = rhs.is_ptr_node();
        if lp && rp {
            Err(MyError::new(ErrorKind::Syntactic, "invalid operands: pointer + pointer"))
        } else if rp {
            let t = rhs.ty();
            Ok(Node::Add { lhs: Box::new(rhs), rhs: Box::new(Self::scale(lhs)), ty: t })
        } else if lp {
            let t = lhs.ty();
            Ok(Node::Add { lhs: Box::new(lhs), rhs: Box::new(Self::scale(rhs)), ty: t })
        } else {
            let t = lhs.ty();
            Ok(Node::Add { lhs: Box::new(lhs), rhs: Box::new(rhs), ty: t })
        }
    }

    // Pointer - pointer and pointer - number.
    fn new_sub(lhs: Node, rhs: Node) -> (r: Result<Node, MyError>)
        ensures
            match r {
                Ok(n) => canon_sub(lhs@, rhs@) == Some(n@),
                Err(e) => canon_sub(lhs@, rhs@) is None && e.kind == ErrorKind::Syntactic,
            },
    {
        let lp = lhs.is_ptr_node();
        let rp = rhs.is_ptr_node();
        if rp && !lp {
            Err(MyError::new(ErrorKind::Syntactic, "invalid operands: number - pointer"))
        } else if lp && rp {
            let t = lhs.ty();
            let ghost (lv, rv) = (lhs@, rhs@);
            let diff = Node::Sub { lhs: Box::new(lhs), rhs: Box::new(rhs), ty: t };
            assert(diff@ == Ast::Sub(Box::new(lv), Box::new(rv), t));
            let eight = Node::Num { val: 8 };
            assert(eight@ == Ast::Num(8));
            Ok(Node::Div { lhs: Box::new(diff), rhs: Box::new(eight), ty: Type::I32 })
        } else if lp {
            let t = lhs.ty();
            Ok(Node::Sub { lhs: Box::new(lhs), rhs: Box::new(Self::scale(rhs)), ty: t })
        } else {
            let t = lhs.ty();
            Ok(Node::Sub { lhs: Box::new(lhs), rhs: Box::new(rhs), ty: t })
        }
    }

    // primary = "(" expr ")" | ident | num
    fn primary(&mut self) -> (r: Result<Node, MyError>)
        requires
            old(self).token_queue.wf(),
        ensures
            expr_post(*old(self), *final(self), r, p_primary(old(self).token_queue@, old(self).table())),
        decreases old(self).token_queue@.len(), 1int,
    {
        proof {
            reveal(p_expr);
        }
        if self.token_queue.consume_reserve("(")? {
            let node = self.expr()?;
            self.token_queue.expect_reserve(")")?;
            return Ok(node);
        }
        match self.token_queue.consume_ident()? {
            Some(name) => match self.find_var(&name) {
                Some(ty) => {
                    proof {
                        lemma_lookup_contains(self.table(), name@);
                    }
                    Ok(Node::Var { name, ty })
                },
                None => Err(MyError::with_detail(ErrorKind::Syntactic, "undefined variable: ", name.as_str())),
            },
            None => Ok(Node::Num { val: self.token_queue.expect_num()? }),
        }
    }

    // unary = ("+" | "-" | "*" | "&") unary
    //       | primary
    fn unary(&mut self) -> (r: Result<Node, MyError>)
        requires
            old(self).token_queue.wf(),
        ensures
            expr_post(*old(self), *final(self), r, p_unary(old(self).token_queue@, old(self).table())),
        decreases old(self).token_queue@.len(), 2int,
    {
        if self.token_queue.consume_reserve("+")? {
            return self.unary();
        }
        if self.token_queue.consume_reserve("-")? {
            let lhs = self.unary()?;
            let ty = lhs.ty();
            return Ok(Node::Neg { lhs: Box::new(lhs), ty });
        }
        if self.token_queue.consume_reserve("*")? {
            let lhs = self.unary()?;
            let ty = pointee(lhs.ty());
            return Ok(Node::Deref { lhs: Box::new(lhs), ty });
        }
        if self.token_queue.consume_reserve("&")? {
            let lhs = self.unary()?;
            let ty = Type::Ptr { base: Box::new(lhs.ty()) };
            return Ok(Node::Addr { lhs: Box::new(lhs), ty });
        }
        self.primary()
    }

    // mul = unary ("*" unary | "/" unary)*
    fn mul(&mut self) -> (r: Result<Node, MyError>)
        requires
            old(self).token_queue.wf(),
        ensures
            expr_post(*old(self), *final(self), r, p_mul(old(self).token_queue@, old(self).table())),
        decreases old(self).token_queue@.len(), 4int,
    {
        let ghost ts0 = self.token_queue@;
        let ghost tbl = self.table();
        let mut node = self.unary()?;
        loop
            invariant
                self.token_queue.wf(),
                self.locals == old(self).locals,
                tbl == self.table(),
                ts0 == old(self).token_queue@,
                tbl == old(self).table(),
                self.token_queue@.len() <= ts0.len(),
                p_mul(ts0, tbl) == p_mul_rest(node@, self.token_queue@, tbl),
                vars_in(node@, tbl),
            decreases self.token_queue@.len(),
        {
            if self.token_queue.consume_reserve("*")? {
                let rhs = self.unary()?;
                let ty = node.ty();
                node = Node::Mul { lhs: Box::new(node), rhs: Box::new(rhs), ty };
            } else if self.token_queue.consume_reserve("/")? {
                let rhs = self.unary()?;
                let ty = node.ty();
                node = Node::Div { lhs: Box::new(node), rhs: Box::new(rhs), ty };
            } else {
                return Ok(node);
            }
        }
    }

    // add = mul ("+" mul | "-" mul)*
    fn add(&mut self) -> (r: Result<Node, MyError>)
        requires
            old(self).token_queue.wf(),
        ensures
            expr_post(*old(self), *final(self), r, p_add(old(self).token_queue@, old(self).table())),
        decreases old(self).token_queue@.len(), 6int,
    {
        let ghost ts0 = self.token_queue@;
        let ghost tbl = self.table();
        let mut node = self.mul()?;
        loop
            invariant
                self.token_queue.wf(),
                self.locals == old(self).locals,
                tbl == self.table(),
                ts0 == old(self).token_queue@,
                tbl == old(self).table(),
                self.token_queue@.len() <= ts0.len(),
                p_add(ts0, tbl) == p_add_rest(node@, self.token_queue@, tbl),
                vars_in(node@, tbl),
            decreases self.token_queue@.len(),
        {
            if self.token_queue.consume_reserve("+")? {
                let rhs = self.mul()?;
                proof {
                    lemma_canon_vars(node@, rhs@, tbl);
                }
                node = Self::new_add(node, rhs)?;
            } else if self.token_queue.consume_reserve("-")? {
                let rhs = self.mul()?;
                proof {
                    lemma_canon_vars(node@, rhs@, tbl);
                }
                node = Self::new_sub(node, rhs)?;
            } else {
                return Ok(node);
            }
        }
    }

    // relational = add ("<" add | "<=" add | ">" add | ">=" add)*
    #[verifier::rlimit(40)]
    fn relational(&mut self) -> (r: Result<Node, MyError>)
        requires
            old(self).token_queue.wf(),
        ensures
            expr_post(*old(self), *final(self), r, p_relational(old(self).token_queue@, old(self).table())),
        decreases old(self).token_queue@.len(), 8int,
    {
        let ghost ts0 = self.token_queue@;
        let ghost tbl = self.table();
        let mut node = self.add()?;
        loop
            invariant
                self.token_queue.wf(),
                self.locals == old(self).locals,
                tbl == self.table(),
                ts0 == old(self).token_queue@,
                tbl == old(self).table(),
                self.token_queue@.len() <= ts0.len(),
                p_relational(ts0, tbl) == p_rel_rest(node@, self.token_queue@, tbl),
                vars_in(node@, tbl),
            decreases self.token_queue@.len(),
        {
            if self.token_queue.consume_reserve("<")? {
                let rhs = self.add()?;
                node = Node::Lt { lhs: Box::new(node), rhs: Box::new(rhs) };
            } else if self.token_queue.consume_reserve("<=")? {
                let rhs = self.add()?;
                node = Node::Le { lhs: Box::new(node), rhs: Box::new(rhs) };
            } else if self.token_queue.consume_reserve(">")? {
                let rhs = self.add()?;
                node = Node::Lt { lhs: Box::new(rhs), rhs: Box::new(node) };
            } else if self.token_queue.consume_reserve(">=")? {
                let rhs = self.add()?;
                node = Node::Le { lhs: Box::new(rhs), rhs: Box::new(node) };
            } else {
                return Ok(node);
            }
        }
    }

    // equality = relational ("==" relational | "!=" relational)*
    #[verifier::rlimit(40)]
    fn equality(&mut self) -> (r: Result<Node, MyError>)
        requires
            old(self).token_queue.wf(),
        ensures
            expr_post(*old(self), *final(self), r, p_equality(old(self).token_queue@, old(self).table())),
        decreases old(self).token_queue@.len(), 10int,
    {
        let ghost ts0 = self.token_queue@;
        let ghost tbl = self.table();
        let mut node = self.relational()?;
        loop
            invariant
                self.token_queue.wf(),
                self.locals == old(self).locals,
                tbl == self.table(),
                ts0 == old(self).token_queue@,
                tbl == old(self).table(),
                self.token_queue@.len() <= ts0.len(),
                p_equality(ts0, tbl) == p_eq_rest(node@, self.token_queue@, tbl),
                vars_in(node@, tbl),
            decreases self.token_queue@.len(),
        {
            if self.token_queue.consume_reserve("==")? {
                let rhs = self.relational()?;
                node = Node::Eq { lhs: Box::new(node), rhs: Box::new(rhs) };
            } else if self.token_queue.consume_reserve("!=")? {
                let rhs = self.relational()?;
                node = Node::Ne { lhs: Box::new(node), rhs: Box::new(rhs) };
            } else {
                return Ok(node);
            }
        }
    }

    // assign = equality ("=" assign)?
    fn assign(&mut self) -> (r: Result<Node, MyError>)
        requires
            old(self).token_queue.wf(),
        ensures
            expr_post(*old(self), *final(self), r, p_assign(old(self).token_queue@, old(self).table())),
        decreases old(self).token_queue@.len(), 11int,
    {
        let node = self.equality()?;
        if self.token_queue.consume_reserve("=")? {
            let rhs = self.assign()?;
            let ty = node.ty();
            return Ok(Node::Assign { lhs: Box::new(node), rhs: Box::new(rhs), ty });
        }
        Ok(node)
    }

    // expr = assign
    fn expr(&mut self) -> (r: Result<Node, MyError>)
        requires
            old(self).token_queue.wf(),
        ensures
            expr_post(*old(self), *final(self), r, p_expr(old(self).token_queue@, old(self).table())),
        decreases old(self).token_queue@.len(), 12int,
    {
        proof {
            reveal(p_expr);
        }
        self.assign()
    }
}

/// What a statement parser promises: on success the node, the tokens left
/// and the symbol table are those of the grammar, `res`, and at least one
/// token was read; on failure the grammar fails too.
pub open spec fn stmt_post(pre: Parser, post: Parser, r: Result<Node, MyError>, res: ParsedStmt) -> bool {
    match r {
        Ok(n) => {
            &&& res == Some((n@, post.token_queue@, post.table()))
            &&& post.token_queue.wf()
            &&& post.token_queue@.len() < pre.token_queue@.len()
            &&& vars_in(n@, post.table())
            &&& grows(pre.table(), post.table())
        },
        Err(e) => res is None && e.kind == ErrorKind::Syntactic,
    }
}

proof fn lemma_asts_push(s: Seq<Node>, n: Node)
    ensures
        asts_of(s.push(n)) == asts_of(s).push(n@),
{
    assert(s.push(n).drop_last() =~= s);
}

impl Parser {
    // declspec = "int"
    fn declspec(&mut self) -> (r: Result<Type, MyError>)
        ensures
            match r {
                Ok(t) => at(old(self).token_queue@, "int"@) && t == Type::I32
                    && final(self).token_queue@ == old(self).token_queue@.drop_first(),
                Err(e) => !at(old(self).token_queue@, "int"@) && e.kind == ErrorKind::Syntactic,
            },
            final(self).locals == old(self).locals,
            old(self).token_queue.wf() && r is Ok ==> final(self).token_queue.wf(),
    {
        self.token_queue.expect_reserve("int")?;
        Ok(Type::I32)
    }

    // declarator = "*"* ident
    fn declarator(&mut self, base_type: Type) -> (r: Result<Node, MyError>)
        requires
            old(self).token_queue.wf(),
        ensures
            stmt_post(
                *old(self),
                *final(self),
                r,
                p_declarator(old(self).token_queue@, old(self).table(), base_type),
            ),
    {
        let ghost ts0 = self.token_queue@;
        let _ = self.token_queue.0.len();
        let mut num: usize = 0;
        loop
            invariant
                self.token_queue.wf(),
                self.locals == old(self).locals,
                ts0 == old(self).token_queue@,
                ts0.len() <= usize::MAX,
                num + self.token_queue@.len() == ts0.len(),
                p_stars(ts0) == ((num + p_stars(self.token_queue@).0) as nat, p_stars(
                    self.token_queue@,
                ).1),
            ensures
                !at(self.token_queue@, "*"@),
            decreases self.token_queue@.len(),
        {
            if !self.token_queue.consume_reserve("*")? {
                break;
            }
            num = num + 1;
        }
        let ghost k = num as nat;
        let mut ty = base_type;
        let mut i: usize = 0;
        while i < num
            invariant
                i <= num,
                ty == ptr_to(base_type, i as nat),
            decreases num - i,
        {
            ty = Type::Ptr { base: Box::new(ty) };
            i = i + 1;
        }
        match self.token_queue.consume_ident()? {
            Some(name) => match self.find_var(&name) {
                Some(bound) => {
                    proof {
                        lemma_declare(self.table(), name@, ty);
                    }
                    Ok(Node::Var { name, ty: bound })
                },
                None => {
                    proof {
                        lemma_declare(self.table(), name@, ty);
                    }
                    self.push_var(name.clone(), ty.duplicate());
                    Ok(Node::Var { name, ty })
                },
            },
            None => Err(MyError::new(ErrorKind::Syntactic, "expected a variable name")),
        }
    }

    // declaration = declspec (declarator ("=" expr)? ("," declarator ("=" expr)?)*)? ";"
    fn declaration(&mut self) -> (r: Result<Node, MyError>)
        requires
            old(self).token_queue.wf(),
        ensures
            stmt_post(*old(self), *final(self), r, p_declaration(old(self).token_queue@, old(self).table())),
    {
        let ghost ts0 = self.token_queue@;
        let ghost tbl0 = self.table();
        let base_type = self.declspec()?;
        let mut head = true;
        let mut nodes: Vec<Node> = Vec::new();
        loop
            invariant
                self.token_queue.wf(),
                ts0 == old(self).token_queue@,
                tbl0 == old(self).table(),
                self.token_queue@.len() < ts0.len(),
                base_type == Type::I32,
                p_declaration(ts0, tbl0) == p_decl_rest(
                    self.token_queue@,
                    self.table(),
                    Type::I32,
                    head,
                    asts_of(nodes@),
                ),
                all_vars_in(asts_of(nodes@), self.table()),
                grows(tbl0, self.table()),
            decreases self.token_queue@.len(),
        {
            let ghost cur = self.token_queue@;
            let ghost tbl_c = self.table();
            let ghost acc = asts_of(nodes@);
            let ghost h = head;
            if self.token_queue.consume_reserve(";")? {
                return Ok(Node::Block { nodes });
            }
            let ghost ts1 = if h {
                cur
            } else {
                cur.drop_first()
            };
            if !head {
                self.token_queue.expect_reserve(",")?;
            }
            head = false;
            assert(self.token_queue@ == ts1);
            let declarator = self.declarator(base_type.duplicate())?;
            proof {
                lemma_all_vars_mono(acc, tbl_c, self.table());
            }
            if !self.token_queue.consume_reserve("=")? {
                assert(p_decl_rest(cur, tbl_c, Type::I32, h, acc) == p_decl_rest(
                    self.token_queue@,
                    self.table(),
                    Type::I32,
                    false,
                    acc,
                ));
                continue;
            }
            let ghost tbl2 = self.table();
            let ghost v = declarator@;
            let rhs = self.expr()?;
            let ghost e = rhs@;
            let ty = declarator.ty();
            let assign = Node::Assign { lhs: Box::new(declarator), rhs: Box::new(rhs), ty };
            assert(assign@ == Ast::Assign(Box::new(v), Box::new(e), ty_of(v)));
            assert(vars_in(assign@, tbl2));
            let node = Node::ExprStmt { expr: Box::new(assign) };
            proof {
                lemma_asts_push(nodes@, node);
                lemma_all_vars_push(acc, node@, tbl2);
                assert(p_decl_rest(cur, tbl_c, Type::I32, h, acc) == p_decl_rest(
                    self.token_queue@,
                    tbl2,
                    Type::I32,
                    false,
                    acc.push(node@),
                ));
            }
            nodes.push(node);
        }
    }

    // expr-stmt = expr? ";"
    fn expr_stmt(&mut self) -> (r: Result<Node, MyError>)
        requires
            old(self).token_queue.wf(),
        ensures
            stmt_post(*old(self), *final(self), r, p_expr_stmt(old(self).token_queue@, old(self).table())),
    {
        if self.token_queue.consume_reserve(";")? {
            let nodes: Vec<Node> = Vec::new();
            assert(asts_of(nodes@) =~= Seq::empty());
            assert(all_vars_in(Seq::<Ast>::empty(), self.table()));
            assert(vars_in(Ast::Block(Seq::empty()), self.table()));
            return Ok(Node::Block { nodes });
        }
        let node = self.expr()?;
        self.token_queue.expect_reserve(";")?;
        Ok(Node::ExprStmt { expr: Box::new(node) })
    }
}

impl Parser {
    // stmt = "return" expr ";"
    //      | "if" "(" expr ")" stmt ("else" stmt)?
    //      | "for" "(" expr-stmt expr? ";" expr? ")" stmt
    //      | "while" "(" expr ")" stmt
    //      | "{" compound-stmt
    //      | expr-stmt
    fn return_stmt(&mut self) -> (r: Result<Node, MyError>)
        requires
            old(self).token_queue.wf(),
        ensures
            stmt_post(*old(self), *final(self), r, p_return_tail(old(self).token_queue@, old(self).table())),
    {
        let node = Node::Return { lhs: Some(Box::new(self.expr()?)) };
        self.token_queue.expect_reserve(";")?;
        Ok(node)
    }

    fn if_stmt(&mut self) -> (r: Result<Node, MyError>)
        requires
            old(self).token_queue.wf(),
        ensures
            stmt_post(*old(self), *final(self), r, p_if_tail(old(self).token_queue@, old(self).table())),
        decreases old(self).token_queue@.len(), 2int,
    {
        let ghost t0 = self.table();
        self.token_queue.expect_reserve("(")?;
        let cond = self.expr()?;
        self.token_queue.expect_reserve(")")?;
        let then_branch = self.stmt()?;
        let ghost t2 = self.table();
        proof {
            lemma_vars_mono(cond@, t0, t2);
        }
        let mut else_branch = None;
        if self.token_queue.consume_reserve("else")? {
            else_branch = Some(Box::new(self.stmt()?));
            proof {
                lemma_vars_mono(cond@, t2, self.table());
                lemma_vars_mono(then_branch@, t2, self.table());
            }
        }
        Ok(Node::If { cond: Box::new(cond), then_branch: Box::new(then_branch), else_branch })
    }

    #[verifier::rlimit(40)]
    fn for_stmt(&mut self) -> (r: Result<Node, MyError>)
        requires
            old(self).token_queue.wf(),
        ensures
            stmt_post(*old(self), *final(self), r, p_for_tail(old(self).token_queue@, old(self).table())),
        decreases old(self).token_queue@.len(), 2int,
    {
        self.token_queue.expect_reserve("(")?;
        let init = self.expr_stmt()?;
        let cond = if self.token_queue.consume_reserve(";")? {
            None
        } else {
            let cond = self.expr()?;
            self.token_queue.expect_reserve(";")?;
            Some(Box::new(cond))
        };
        let inc = if self.token_queue.consume_reserve(")")? {
            None
        } else {
            let inc = self.expr()?;
            self.token_queue.expect_reserve(")")?;
            Some(Box::new(inc))
        };
        let ghost t0 = self.table();
        let body = self.stmt()?;
        proof {
            lemma_vars_mono(init@, t0, self.table());
            if let Some(c) = &cond {
                lemma_vars_mono(c@, t0, self.table());
            }
            if let Some(n) = &inc {
                lemma_vars_mono(n@, t0, self.table());
            }
        }
        Ok(Node::For { init: Some(Box::new(init)), cond, inc, body: Box::new(body) })
    }

    fn while_stmt(&mut self) -> (r: Result<Node, MyError>)
        requires
            old(self).token_queue.wf(),
        ensures
            stmt_post(*old(self), *final(self), r, p_while_tail(old(self).token_queue@, old(self).table())),
        decreases old(self).token_queue@.len(), 2int,
    {
        let ghost t0 = self.table();
        self.token_queue.expect_reserve("(")?;
        let cond = self.expr()?;
        self.token_queue.expect_reserve(")")?;
        let body = self.stmt()?;
        proof {
            lemma_vars_mono(cond@, t0, self.table());
        }
        Ok(Node::For { init: None, cond: Some(Box::new(cond)), inc: None, body: Box::new(body) })
    }

    // stmt = "return" expr ";"
    //      | "if" "(" expr ")" stmt ("else" stmt)?
    //      | "for" "(" expr-stmt expr? ";" expr? ")" stmt
    //      | "while" "(" expr ")" stmt
    //      | "{" compound-stmt
    //      | expr-stmt
    fn stmt(&mut self) -> (r: Result<Node, MyError>)
        requires
            old(self).token_queue.wf(),
        ensures
            stmt_post(*old(self), *final(self), r, p_stmt(old(self).token_queue@, old(self).table())),
        decreases old(self).token_queue@.len(), 1int,
    {
        if self.token_queue.consume_reserve("return")? {
            return self.return_stmt();
        }
        if self.token_queue.consume_reserve("if")? {
            return self.if_stmt();
        }
        if self.token_queue.consume_reserve("for")? {
            return self.for_stmt();
        }
        if self.token_queue.consume_reserve("while")? {
            return self.while_stmt();
        }
        if self.token_queue.consume_reserve("{")? {
            return self.compound_stmt();
        }
        self.expr_stmt()
    }

    // compound-stmt = (declaration | stmt)* "}"
    fn compound_stmt(&mut self) -> (r: Result<Node, MyError>)
        requires
            old(self).token_queue.wf(),
        ensures
            stmt_post(
                *old(self),
                *final(self),
                r,
                p_compound(old(self).token_queue@, old(self).table(), Seq::empty()),
            ),
        decreases old(self).token_queue@.len(), 2int,
    {
        let ghost ts0 = self.token_queue@;
        let ghost tbl0 = self.table();
        let mut nodes: Vec<Node> = Vec::new();
        assert(asts_of(nodes@) =~= Seq::empty());
        loop
            invariant
                self.token_queue.wf(),
                ts0 == old(self).token_queue@,
                tbl0 == old(self).table(),
                self.token_queue@.len() <= ts0.len(),
                p_compound(ts0, tbl0, Seq::empty()) == p_compound(
                    self.token_queue@,
                    self.table(),
                    asts_of(nodes@),
                ),
                all_vars_in(asts_of(nodes@), self.table()),
                grows(tbl0, self.table()),
            decreases self.token_queue@.len(),
        {
            if self.token_queue.consume_reserve("}")? {
                return Ok(Node::Block { nodes });
            }
            let ghost tbl_c = self.table();
            let node = if self.token_queue.is_reserve("int") {
                self.declaration()?
            } else {
                self.stmt()?
            };
            proof {
                lemma_asts_push(nodes@, node);
                lemma_all_vars_mono(asts_of(nodes@), tbl_c, self.table());
                lemma_all_vars_push(asts_of(nodes@), node@, self.table());
            }
            nodes.push(node);
        }
    }

    // program = stmt*
    /// Parses the whole token queue into its statements, declaring locals
    /// as it goes.
    pub fn program(&mut self) -> (r: Result<Vec<Node>, MyError>)
        ensures
            match r {
                Ok(nodes) => {
                    &&& old(self).token_queue.wf()
                    &&& p_program(old(self).token_queue@, old(self).table(), Seq::empty()) == Some(
                        (asts_of(nodes@), final(self).table()),
                    )
                    &&& all_vars_in(asts_of(nodes@), final(self).table())
                },
                Err(e) => {
                    ||| !old(self).token_queue.wf()
                    ||| p_program(old(self).token_queue@, old(self).table(), Seq::empty()) is None
                },
            },
    {
        let n = self.token_queue.0.len();
        if n == 0 {
            return Err(MyError::new(ErrorKind::Syntactic, "no token left"));
        }
        match &self.token_queue.0[n - 1] {
            Token::Eof => {},
            _ => {
                return Err(MyError::new(ErrorKind::Syntactic, "token queue does not end with Eof"));
            },
        }
        let ghost ts0 = self.token_queue@;
        let ghost tbl0 = self.table();
        let mut nodes: Vec<Node> = Vec::new();
        assert(asts_of(nodes@) =~= Seq::empty());
        while !self.token_queue.at_eof()
            invariant
                self.token_queue.wf(),
                ts0 == old(self).token_queue@,
                tbl0 == old(self).table(),
                old(self).token_queue.wf(),
                p_program(ts0, tbl0, Seq::empty()) == p_program(
                    self.token_queue@,
                    self.table(),
                    asts_of(nodes@),
                ),
                all_vars_in(asts_of(nodes@), self.table()),
            decreases self.token_queue@.len(),
        {
            let ghost tbl_c = self.table();
            let node = self.stmt()?;
            proof {
                lemma_asts_push(nodes@, node);
                lemma_all_vars_mono(asts_of(nodes@), tbl_c, self.table());
                lemma_all_vars_push(asts_of(nodes@), node@, self.table());
            }
            nodes.push(node);
        }
        Ok(nodes)
    }
}

/// `n` rounded up to a multiple of `align`.
pub open spec fn align_up(n: int, align: int) -> int {
    (n + align - 1) / align * align
}

/// The frame size for `n` locals: eight bytes each, aligned to 16.
pub open spec fn frame_size(n: int) -> int {
    align_up(8 * n, 16)
}

impl Parser {
    /// Gives the `i`-th local (from 0, in order of declaration) the offset
    /// `8 * (i + 1)`, and sets the frame size.
    pub fn assign_lvar_offset(&mut self)
        requires
            old(self).locals@.len() * 8 + 15 <= usize::MAX,
        ensures
            final(self).token_queue == old(self).token_queue,
            final(self).table() == old(self).table(),
            final(self).stack_size == frame_size(old(self).locals@.len() as int),
            forall|i: int|
                0 <= i < final(self).locals@.len() ==> #[trigger] final(self).locals@[i].offset == 8
                    * (i + 1),
    {
        let n = self.locals.len();
        self.stack_size = Self::align_to(n * 8, 16);
        let mut i: usize = 0;
        while i < n
            invariant
                n == self.locals@.len(),
                n * 8 + 15 <= usize::MAX,
                i <= n,
                self.token_queue == old(self).token_queue,
                self.stack_size == frame_size(n as int),
                self.table() == old(self).table(),
                forall|j: int| 0 <= j < i ==> #[trigger] self.locals@[j].offset == 8 * (j + 1),
            decreases n - i,
        {
            let ghost before = self.locals@;
            self.locals[i].offset = (i + 1) * 8;
            assert(self.table() =~= table_of(before));
            i = i + 1;
        }
    }

    /// `n` rounded up to a multiple of `align`.
    fn align_to(n: usize, align: usize) -> (r: usize)
        requires
            align > 0,
            n + align - 1 <= usize::MAX,
        ensures
            r == align_up(n as int, align as int),
    {
        let m = n + (align - 1);
        assert((m / align) * align <= m) by (nonlinear_arith)
            requires
                align > 0,
                m >= 0,
        ;
        m / align * align
    }
}

/// The model of a list of nodes is the list of their models.
pub proof fn lemma_asts_of(s: Seq<Node>)
    ensures
        asts_of(s).len() == s.len(),
        forall|i: int| 0 <= i < s.len() ==> #[trigger] asts_of(s)[i] == ast_of(s[i]),
    decreases s.len(),
{
    if s.len() > 0 {
        lemma_asts_of(s.drop_last());
        assert forall|i: int| 0 <= i < s.len() implies #[trigger] asts_of(s)[i] == ast_of(s[i]) by {
            if i < s.len() - 1 {
                assert(s.drop_last()[i] == s[i]);
            }
        }
    }
}

/// Every local variable that `a` reads is bound in `tbl`, with its type.
pub open spec fn vars_in(a: Ast, tbl: Locals) -> bool
    decreases a, 0int,
{
    match a {
        Ast::Var(n, t) => tbl.contains((n, t)),
        Ast::Num(_) => true,
        Ast::Add(l, r, _) => vars_in(*l, tbl) && vars_in(*r, tbl),
        Ast::Sub(l, r, _) => vars_in(*l, tbl) && vars_in(*r, tbl),
        Ast::Mul(l, r, _) => vars_in(*l, tbl) && vars_in(*r, tbl),
        Ast::Div(l, r, _) => vars_in(*l, tbl) && vars_in(*r, tbl),
        Ast::Assign(l, r, _) => vars_in(*l, tbl) && vars_in(*r, tbl),
        Ast::Eq(l, r) => vars_in(*l, tbl) && vars_in(*r, tbl),
        Ast::Ne(l, r) => vars_in(*l, tbl) && vars_in(*r, tbl),
        Ast::Lt(l, r) => vars_in(*l, tbl) && vars_in(*r, tbl),
        Ast::Le(l, r) => vars_in(*l, tbl) && vars_in(*r, tbl),
        Ast::Neg(x, _) => vars_in(*x, tbl),
        Ast::Addr(x, _) => vars_in(*x, tbl),
        Ast::Deref(x, _) => vars_in(*x, tbl),
        Ast::ExprStmt(x) => vars_in(*x, tbl),
        Ast::Return(o) => match o {
            Some(x) => vars_in(*x, tbl),
            None => true,
        },
        Ast::If(c, th, el) => vars_in(*c, tbl) && vars_in(*th, tbl) && match el {
            Some(x) => vars_in(*x, tbl),
            None => true,
        },
        Ast::For(i, c, n, b) => vars_in(*b, tbl) && match i {
            Some(x) => vars_in(*x, tbl),
            None => true,
        } && match c {
            Some(x) => vars_in(*x, tbl),
            None => true,
        } && match n {
            Some(x) => vars_in(*x, tbl),
            None => true,
        },
        Ast::Block(s) => all_vars_in(s, tbl),
    }
}

/// Every local variable that the nodes of `s` read is bound in `tbl`.
pub open spec fn all_vars_in(s: Seq<Ast>, tbl: Locals) -> bool
    decreases s, s.len(),
{
    if s.len() == 0 {
        true
    } else {
        all_vars_in(s.drop_last(), tbl) && vars_in(s.last(), tbl)
    }
}

/// `t2` binds every name that `t1` binds, to the same type.
pub open spec fn grows(t1: Locals, t2: Locals) -> bool {
    forall|x: (Seq<char>, Type)| t1.contains(x) ==> t2.contains(x)
}

proof fn lemma_all_vars_push(s: Seq<Ast>, a: Ast, tbl: Locals)
    ensures
        all_vars_in(s.push(a), tbl) == (all_vars_in(s, tbl) && vars_in(a, tbl)),
{
    assert(s.push(a).drop_last() =~= s);
}

/// A binding found by `find_from` is one for `name`.
proof fn lemma_find_from(tbl: Locals, name: Seq<char>, k: int)
    ensures
        find_from(tbl, name, k) matches Some(i) ==> 0 <= i < tbl.len() && tbl[i].0 == name,
    decreases tbl.len() - k,
{
    if 0 <= k < tbl.len() && tbl[k].0 != name {
        lemma_find_from(tbl, name, k + 1);
    }
}

/// The local that `lookup` finds is bound in the table.
proof fn lemma_lookup_contains(tbl: Locals, name: Seq<char>)
    requires
        lookup(tbl, name) is Some,
    ensures
        tbl.contains((name, tbl[lookup(tbl, name)->0].1)),
{
    lemma_find_from(tbl, name, 0);
    let i = lookup(tbl, name)->0;
    assert(tbl[i] == (name, tbl[i].1));
}

/// Declaring a name binds it, to the type that its node gets, and keeps
/// every earlier binding.
proof fn lemma_declare(tbl: Locals, name: Seq<char>, t: Type)
    ensures
        declare(tbl, name, t).contains((name, bound_type(tbl, name, t))),
        grows(tbl, declare(tbl, name, t)),
{
    if lookup(tbl, name) is Some {
        lemma_lookup_contains(tbl, name);
    } else {
        let t2 = tbl.push((name, t));
        assert(t2[tbl.len() as int] == (name, t));
        assert forall|x: (Seq<char>, Type)| tbl.contains(x) implies t2.contains(x) by {
            let i = choose|i: int| 0 <= i < tbl.len() && tbl[i] == x;
            assert(t2[i] == x);
        }
    }
}

/// What binds the variables of `a` in `t1` binds them in a larger `t2`.
proof fn lemma_vars_mono(a: Ast, t1: Locals, t2: Locals)
    requires
        vars_in(a, t1),
        grows(t1, t2),
    ensures
        vars_in(a, t2),
    decreases a, 0int,
{
    match a {
        Ast::Add(l, r, _) => {
            lemma_vars_mono(*l, t1, t2);
            lemma_vars_mono(*r, t1, t2);
        },
        Ast::Sub(l, r, _) => {
            lemma_vars_mono(*l, t1, t2);
            lemma_vars_mono(*r, t1, t2);
        },
        Ast::Mul(l, r, _) => {
            lemma_vars_mono(*l, t1, t2);
            lemma_vars_mono(*r, t1, t2);
        },
        Ast::Div(l, r, _) => {
            lemma_vars_mono(*l, t1, t2);
            lemma_vars_mono(*r, t1, t2);
        },
        Ast::Assign(l, r, _) => {
            lemma_vars_mono(*l, t1, t2);
            lemma_vars_mono(*r, t1, t2);
        },
        Ast::Eq(l, r) => {
            lemma_vars_mono(*l, t1, t2);
            lemma_vars_mono(*r, t1, t2);
        },
        Ast::Ne(l, r) => {
            lemma_vars_mono(*l, t1, t2);
            lemma_vars_mono(*r, t1, t2);
        },
        Ast::Lt(l, r) => {
            lemma_vars_mono(*l, t1, t2);
            lemma_vars_mono(*r, t1, t2);
        },
        Ast::Le(l, r) => {
            lemma_vars_mono(*l, t1, t2);
            lemma_vars_mono(*r, t1, t2);
        },
        Ast::Neg(x, _) => lemma_vars_mono(*x, t1, t2),
        Ast::Addr(x, _) => lemma_vars_mono(*x, t1, t2),
        Ast::Deref(x, _) => lemma_vars_mono(*x, t1, t2),
        Ast::ExprStmt(x) => lemma_vars_mono(*x, t1, t2),
        Ast::Return(o) => {
            if let Some(x) = o {
                lemma_vars_mono(*x, t1, t2);
            }
        },
        Ast::If(c, th, el) => {
            lemma_vars_mono(*c, t1, t2);
            lemma_vars_mono(*th, t1, t2);
            if let Some(x) = el {
                lemma_vars_mono(*x, t1, t2);
            }
        },
        Ast::For(i, c, n, b) => {
            lemma_vars_mono(*b, t1, t2);
            if let Some(x) = i {
                lemma_vars_mono(*x, t1, t2);
            }
            if let Some(x) = c {
                lemma_vars_mono(*x, t1, t2);
            }
            if let Some(x) = n {
                lemma_vars_mono(*x, t1, t2);
            }
        },
        Ast::Block(s) => lemma_all_vars_mono(s, t1, t2),
        _ => {},
    }
}

proof fn lemma_all_vars_mono(s: Seq<Ast>, t1: Locals, t2: Locals)
    requires
        all_vars_in(s, t1),
        grows(t1, t2),
    ensures
        all_vars_in(s, t2),
    decreases s, s.len(),
{
    if s.len() > 0 {
        lemma_all_vars_mono(s.drop_last(), t1, t2);
        lemma_vars_mono(s.last(), t1, t2);
    }
}

/// Pointer arithmetic reads the variables of its operands only.
proof fn lemma_canon_vars(l: Ast, r: Ast, tbl: Locals)
    requires
        vars_in(l, tbl),
        vars_in(r, tbl),
    ensures
        canon_add(l, r) matches Some(n) ==> vars_in(n, tbl),
        canon_sub(l, r) matches Some(n) ==> vars_in(n, tbl),
{
    assert(vars_in(Ast::Num(8), tbl));
    assert(vars_in(scaled(l), tbl));
    assert(vars_in(scaled(r), tbl));
    assert(vars_in(Ast::Sub(Box::new(l), Box::new(r), ty_of(l)), tbl));
}

} // verus!
