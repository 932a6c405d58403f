use vstd::prelude::*;

use crate::errors::{ErrorKind, MyError};
use crate::parser::{
    asts_of, frame_size, lemma_asts_of, lookup, opt_ast, table_of, Ast, Node, Parser, VarTableItem,
};

verus! {

/// The decimal text of a digit.
pub open spec fn digit_text(d: nat) -> Seq<char> {
    if d == 0 {
        "0"@
    } else if d == 1 {
        "1"@
    } else if d == 2 {
        "2"@
    } else if d == 3 {
        "3"@
    } else if d == 4 {
        "4"@
    } else if d == 5 {
        "5"@
    } else if d == 6 {
        "6"@
    } else if d == 7 {
        "7"@
    } else if d == 8 {
        "8"@
    } else {
        "9"@
    }
}

/// The decimal text of a natural number.
#[verifier::opaque]
pub open spec fn nat_text(n: nat) -> Seq<char>
    decreases n,
{
    if n < 10 {
        digit_text(n)
    } else {
        nat_text(n / 10) + digit_text(n % 10)
    }
}

/// The decimal text of an integer, with a leading `-` when negative.
pub open spec fn int_text(v: int) -> Seq<char> {
    if v < 0 {
        "-"@ + nat_text((-v) as nat)
    } else {
        nat_text(v as nat)
    }
}

/// Both texts, one after the other, where both are there.
pub open spec fn cat(a: Option<Seq<char>>, b: Option<Seq<char>>) -> Option<Seq<char>> {
    match (a, b) {
        (Some(x), Some(y)) => Some(x + y),
        _ => None,
    }
}

/// `lea` of the local `name`, at its offset below `%rbp`.
pub open spec fn var_addr(locals: Seq<VarTableItem>, name: Seq<char>) -> Option<Seq<char>> {
    match lookup(table_of(locals), name) {
        Some(i) => Some("  lea -"@ + nat_text(locals[i].offset as nat) + "(%rbp), %rax\n"@),
        None => None,
    }
}

/// The instructions that combine `%rax` (left) and `%rdi` (right) for a
/// binary operator node.
pub open spec fn op_text(a: Ast) -> Seq<char> {
    match a {
        Ast::Add(..) => "  add %rdi, %rax\n"@,
        Ast::Sub(..) => "  sub %rdi, %rax\n"@,
        Ast::Mul(..) => "  imul %rdi, %rax\n"@,
        Ast::Div(..) => "  cqo\n  idiv %rdi\n"@,
        Ast::Eq(..) => "  cmp %rdi, %rax\n  sete %al\n  movzb %al, %rax\n"@,
        Ast::Ne(..) => "  cmp %rdi, %rax\n  setne %al\n  movzb %al, %rax\n"@,
        Ast::Lt(..) => "  cmp %rdi, %rax\n  setl %al\n  movzb %al, %rax\n"@,
        _ => "  cmp %rdi, %rax\n  setle %al\n  movzb %al, %rax\n"@,
    }
}

/// The operands of a binary operator node.
pub open spec fn operands(a: Ast) -> Option<(Ast, Ast)> {
    match a {
        Ast::Add(l, r, _) => Some((*l, *r)),
        Ast::Sub(l, r, _) => Some((*l, *r)),
        Ast::Mul(l, r, _) => Some((*l, *r)),
        Ast::Div(l, r, _) => Some((*l, *r)),
        Ast::Eq(l, r) => Some((*l, *r)),
        Ast::Ne(l, r) => Some((*l, *r)),
        Ast::Lt(l, r) => Some((*l, *r)),
        Ast::Le(l, r) => Some((*l, *r)),
        _ => None,
    }
}

/// The code that leaves the value of expression `a` in `%rax`, with `depth`
/// values on the operand stack; `None` where `a` is no expression, names an
/// unknown local, takes the address of a non-lvalue, or would take the
/// stack depth past `usize::MAX`.
pub open spec fn expr_text(a: Ast, locals: Seq<VarTableItem>, depth: nat) -> Option<Seq<char>>
    decreases a, 1int,
{
    match a {
        Ast::Num(v) => Some("  mov $"@ + int_text(v as int) + ", %rax\n"@),
        Ast::Neg(x, _) => cat(expr_text(*x, locals, depth), Some("  neg %rax\n"@)),
        Ast::Var(n, _) => cat(var_addr(locals, n), Some("  mov (%rax), %rax\n"@)),
        Ast::Deref(x, _) => cat(expr_text(*x, locals, depth), Some("  mov (%rax), %rax\n"@)),
        Ast::Addr(x, _) => addr_text(*x, locals, depth),
        Ast::Assign(l, r, _) => if depth + 1 > usize::MAX {
            None
        } else {
            cat(
                cat(
                    cat(addr_text(*l, locals, depth), Some("  push %rax\n"@)),
                    expr_text(*r, locals, depth + 1),
                ),
                Some("  pop %rdi\n"@ + "  mov %rax, (%rdi)\n"@),
            )
        },
        Ast::Add(l, r, _) => if depth + 1 > usize::MAX {
            None
        } else {
            binary_text(expr_text(*r, locals, depth), expr_text(*l, locals, depth + 1), op_text(a))
        },
        Ast::Sub(l, r, _) => if depth + 1 > usize::MAX {
            None
        } else {
            binary_text(expr_text(*r, locals, depth), expr_text(*l, locals, depth + 1), op_text(a))
        },
        Ast::Mul(l, r, _) => if depth + 1 > usize::MAX {
            None
        } else {
            binary_text(expr_text(*r, locals, depth), expr_text(*l, locals, depth + 1), op_text(a))
        },
        Ast::Div(l, r, _) => if depth + 1 > usize::MAX {
            None
        } else {
            binary_text(expr_text(*r, locals, depth), expr_text(*l, locals, depth + 1), op_text(a))
        },
        Ast::Eq(l, r) => if depth + 1 > usize::MAX {
            None
        } else {
            binary_text(expr_text(*r, locals, depth), expr_text(*l, locals, depth + 1), op_text(a))
        },
        Ast::Ne(l, r) => if depth + 1 > usize::MAX {
            None
        } else {
            binary_text(expr_text(*r, locals, depth), expr_text(*l, locals, depth + 1), op_text(a))
        },
        Ast::Lt(l, r) => if depth + 1 > usize::MAX {
            None
        } else {
            binary_text(expr_text(*r, locals, depth), expr_text(*l, locals, depth + 1), op_text(a))
        },
        Ast::Le(l, r) => if depth + 1 > usize::MAX {
            None
        } else {
            binary_text(expr_text(*r, locals, depth), expr_text(*l, locals, depth + 1), op_text(a))
        },
        _ => None,
    }
}

/// A binary operator: the right operand's code `r`, pushed; the left
/// operand's code `l`; the right operand popped into `%rdi`; the operator's
/// instructions `op`.
pub open spec fn binary_text(r: Option<Seq<char>>, l: Option<Seq<char>>, op: Seq<char>) -> Option<
    Seq<char>,
> {
    cat(cat(cat(r, Some("  push %rax\n"@)), l), Some("  pop %rdi\n"@ + op))
}

/// The code that leaves the address of lvalue `a` in `%rax`.
pub open spec fn addr_text(a: Ast, locals: Seq<VarTableItem>, depth: nat) -> Option<Seq<char>>
    decreases a, 0int,
{
    match a {
        Ast::Var(n, _) => var_addr(locals, n),
        Ast::Deref(x, _) => expr_text(*x, locals, depth),
        _ => None,
    }
}

/// The text of a statement, with `c` control structures numbered before
/// it, and how many are numbered after it; `None` where the statement holds
/// an expression that cannot be emitted, is no statement, or where a label
/// number would pass `usize::MAX`.
#[verifier::opaque]
pub open spec fn stmt_text(a: Ast, locals: Seq<VarTableItem>, c: nat) -> Option<(Seq<char>, nat)>
    decreases a, 0int,
{
    match a {
        Ast::Return(Some(x)) => match expr_text(*x, locals, 0) {
            Some(t) => Some((t + "  jmp .L.return\n"@, c)),
            None => None,
        },
        Ast::Return(None) => Some(("  jmp .L.return\n"@, c)),
        Ast::ExprStmt(x) => match expr_text(*x, locals, 0) {
            Some(t) => Some((t, c)),
            None => None,
        },
        Ast::If(cond, th, els) => if c + 1 > usize::MAX {
            None
        } else {
            let k = nat_text((c + 1) as nat);
            match (expr_text(*cond, locals, 0), stmt_text(*th, locals, (c + 1) as nat)) {
                (Some(ct), Some((tt, c2))) => {
                    let e = match els {
                        Some(x) => stmt_text(*x, locals, c2),
                        None => Some((Seq::empty(), c2)),
                    };
                    match e {
                        Some((et, c3)) => Some(
                            (
                                ct + "  cmp $0, %rax\n  je .L.else."@ + k + "\n"@ + tt
                                    + "  jmp .L.end."@ + k + "\n.L.else."@ + k + ":\n"@ + et
                                    + ".L.end."@ + k + ":\n"@,
                                c3,
                            ),
                        ),
                        None => None,
                    }
                },
                _ => None,
            }
        },
        Ast::For(init, cond, inc, body) => if c + 1 > usize::MAX {
            None
        } else {
            match init_text(init, locals, (c + 1) as nat) {
                Some((it, c1)) => match loop_text(cond, *body, inc, locals, (c + 1) as nat, c1) {
                    Some((lt, c2)) => Some((it + lt, c2)),
                    None => None,
                },
                None => None,
            }
        },
        Ast::Block(s) => block_text(s, s.len() as int, locals, c),
        _ => None,
    }
}

/// The text of a loop's optional first statement, with `k` structures
/// numbered before it.
pub open spec fn init_text(init: Option<Box<Ast>>, locals: Seq<VarTableItem>, k: nat) -> Option<
    (Seq<char>, nat),
>
    decreases init, 0int,
{
    match init {
        Some(x) => stmt_text(*x, locals, k),
        None => Some((Seq::empty(), k)),
    }
}

/// A loop's optional condition, which leaves loop `k` when false.
pub open spec fn cond_text(cond: Option<Box<Ast>>, locals: Seq<VarTableItem>, k: nat) -> Option<
    Seq<char>,
> {
    match cond {
        Some(x) => cat(expr_text(*x, locals, 0), Some("  cmp $0, %rax\n  je .L.end."@ + nat_text(k) + "\n"@)),
        None => Some(Seq::empty()),
    }
}

/// A loop's optional increment.
pub open spec fn inc_text(inc: Option<Box<Ast>>, locals: Seq<VarTableItem>) -> Option<Seq<char>> {
    match inc {
        Some(x) => expr_text(*x, locals, 0),
        None => Some(Seq::empty()),
    }
}

/// Loop `k` after its first statement: the label at the top, the condition,
/// the body with `c` structures numbered before it, the increment, and the
/// jump back.
pub open spec fn loop_text(
    cond: Option<Box<Ast>>,
    body: Ast,
    inc: Option<Box<Ast>>,
    locals: Seq<VarTableItem>,
    k: nat,
    c: nat,
) -> Option<(Seq<char>, nat)>
    decreases body, 1int,
{
    match (cond_text(cond, locals, k), stmt_text(body, locals, c), inc_text(inc, locals)) {
        (Some(ct), Some((bt, c2)), Some(nt)) => Some(
            (
                ".L.begin."@ + nat_text(k) + ":\n"@ + ct + bt + nt + "  jmp .L.begin."@ + nat_text(k)
                    + "\n.L.end."@ + nat_text(k) + ":\n"@,
                c2,
            ),
        ),
        _ => None,
    }
}

/// The text of the first `n` statements of `s`, one after the other.
pub open spec fn block_text(s: Seq<Ast>, n: int, locals: Seq<VarTableItem>, c: nat) -> Option<
    (Seq<char>, nat),
>
    decreases s, n,
{
    if n <= 0 {
        Some((Seq::empty(), c))
    } else if n > s.len() {
        None
    } else {
        match block_text(s, n - 1, locals, c) {
            Some((t1, c1)) => match stmt_text(s[n - 1], locals, c1) {
                Some((t2, c2)) => Some((t1 + t2, c2)),
                None => None,
            },
            None => None,
        }
    }
}

/// The text of a loop.
proof fn lemma_for_text(
    init: Option<Box<Ast>>,
    cond: Option<Box<Ast>>,
    inc: Option<Box<Ast>>,
    body: Ast,
    locals: Seq<VarTableItem>,
    c: nat,
)
    ensures
        stmt_text(Ast::For(init, cond, inc, Box::new(body)), locals, c) == if c + 1 > usize::MAX {
            None
        } else {
            match init_text(init, locals, (c + 1) as nat) {
                Some((it, c1)) => match loop_text(cond, body, inc, locals, (c + 1) as nat, c1) {
                    Some((lt, c2)) => Some((it + lt, c2)),
                    None => None,
                },
                None => None,
            }
        },
{
    reveal(stmt_text);
}

/// Once a statement of a block cannot be emitted, neither can the block.
proof fn lemma_block_text_none(s: Seq<Ast>, k: int, n: int, locals: Seq<VarTableItem>, c: nat)
    requires
        0 <= k <= n <= s.len(),
        block_text(s, k, locals, c) is None,
    ensures
        block_text(s, n, locals, c) is None,
    decreases n - k,
{
    if k < n {
        lemma_block_text_none(s, k, n - 1, locals, c);
    }
}

/// The start of the program, which reserves `frame` bytes for locals.
pub open spec fn prologue_text(frame: nat) -> Seq<char> {
    ".global main\nmain:\n  push %rbp\n  mov %rsp, %rbp\n  sub $"@ + nat_text(frame) + ", %rsp\n"@
}

pub open spec fn epilogue_text() -> Seq<char> {
    ".L.return:\n  mov %rbp, %rsp\n  pop %rbp\n  ret\n"@
}

/// The whole program for the statements `s`.
pub open spec fn program_text(s: Seq<Ast>, locals: Seq<VarTableItem>, frame: nat) -> Option<Seq<char>> {
    match block_text(s, s.len() as int, locals, 0) {
        Some((body, _)) => Some(prologue_text(frame) + body + epilogue_text()),
        None => None,
    }
}

fn digit_str(d: u64) -> (r: &'static str)
    requires
        d < 10,
    ensures
        r@ == digit_text(d as nat),
{
    match d {
        0 => "0",
        1 => "1",
        2 => "2",
        3 => "3",
        4 => "4",
        5 => "5",
        6 => "6",
        7 => "7",
        8 => "8",
        _ => "9",
    }
}

/// Appends the decimal text of `n`.
fn emit_nat(out: &mut String, n: u64)
    ensures
        final(out)@ == old(out)@ + nat_text(n as nat),
    decreases n,
{
    proof {
        reveal(nat_text);
    }
    if n >= 10 {
        emit_nat(out, n / 10);
    }
    out.append(digit_str(n % 10));
    assert(out@ =~= old(out)@ + nat_text(n as nat));
}

/// Appends the decimal text of `v`.
fn emit_int(out: &mut String, v: i32)
    ensures
        final(out)@ == old(out)@ + int_text(v as int),
{
    if v < 0 {
        out.append("-");
        emit_nat(out, (-(v as i64)) as u64);
        assert(out@ =~= old(out)@ + int_text(v as int));
    } else {
        emit_nat(out, v as u64);
    }
}

/// The label at the top of loop `c`.
fn emit_loop_begin(out: &mut String, c: usize)
    ensures
        final(out)@ == old(out)@ + (".L.begin."@ + nat_text(c as nat) + ":\n"@),
{
    out.append(".L.begin.");
    emit_nat(out, c as u64);
    out.append(":\n");
    assert(out@ =~= old(out)@ + (".L.begin."@ + nat_text(c as nat) + ":\n"@));
}

/// The jump back to the top of loop `c`, and the label after it.
fn emit_loop_end(out: &mut String, c: usize)
    ensures
        final(out)@ == old(out)@ + ("  jmp .L.begin."@ + nat_text(c as nat) + "\n.L.end."@ + nat_text(
            c as nat,
        ) + ":\n"@),
{
    out.append("  jmp .L.begin.");
    emit_nat(out, c as u64);
    out.append("\n.L.end.");
    emit_nat(out, c as u64);
    out.append(":\n");
    assert(out@ =~= old(out)@ + ("  jmp .L.begin."@ + nat_text(c as nat) + "\n.L.end."@ + nat_text(
        c as nat,
    ) + ":\n"@));
}

/// The instructions of a binary operator node.
fn op_str(node: &Node) -> (r: &'static str)
    ensures
        r@ == op_text(node@),
{
    match node {
        Node::Add { .. } => "  add %rdi, %rax\n",
        Node::Sub { .. } => "  sub %rdi, %rax\n",
        Node::Mul { .. } => "  imul %rdi, %rax\n",
        Node::Div { .. } => "  cqo\n  idiv %rdi\n",
        Node::Eq { .. } => "  cmp %rdi, %rax\n  sete %al\n  movzb %al, %rax\n",
        Node::Ne { .. } => "  cmp %rdi, %rax\n  setne %al\n  movzb %al, %rax\n",
        Node::Lt { .. } => "  cmp %rdi, %rax\n  setl %al\n  movzb %al, %rax\n",
        _ => "  cmp %rdi, %rax\n  setle %al\n  movzb %al, %rax\n",
    }
}

/// The operands of a binary operator node.
fn operands_of(node: &Node) -> (r: Option<(&Node, &Node)>)
    ensures
        match r {
            Some((l, rr)) => {
                &&& operands(node@) == Some((l@, rr@))
                &&& decreases_to!(*node => *l)
                &&& decreases_to!(*node => *rr)
            },
            None => operands(node@) is None,
        },
{
    match node {
        Node::Add { lhs, rhs, .. } => Some((lhs, rhs)),
        Node::Sub { lhs, rhs, .. } => Some((lhs, rhs)),
        Node::Mul { lhs, rhs, .. } => Some((lhs, rhs)),
        Node::Div { lhs, rhs, .. } => Some((lhs, rhs)),
        Node::Eq { lhs, rhs } => Some((lhs, rhs)),
        Node::Ne { lhs, rhs } => Some((lhs, rhs)),
        Node::Lt { lhs, rhs } => Some((lhs, rhs)),
        Node::Le { lhs, rhs } => Some((lhs, rhs)),
        _ => None,
    }
}

/// The text of a binary operator node, or of a node that is not one.
proof fn lemma_binary_text(a: Ast, locals: Seq<VarTableItem>, depth: nat)
    ensures
        match operands(a) {
            Some((l, r)) => expr_text(a, locals, depth) == if depth + 1 > usize::MAX {
                None
            } else {
                binary_text(expr_text(r, locals, depth), expr_text(l, locals, depth + 1), op_text(a))
            },
            None => !(a is Num || a is Neg || a is Var || a is Deref || a is Addr || a is Assign)
                ==> expr_text(a, locals, depth) is None,
        },
{
}

/// The code generator: the parser's symbol table, the depth of the operand
/// stack, and the number of control structures labelled so far.
#[derive(Debug)]
pub struct CodeGenerator {
    pub depth: usize,
    pub parser: Parser,
    pub counter: usize,
}

fn internal(msg: &str) -> (r: MyError)
    ensures
        r.kind == ErrorKind::Internal,
{
    MyError::new(ErrorKind::Internal, msg)
}

impl CodeGenerator {
    pub fn new(parser: Parser) -> (r: CodeGenerator)
        ensures
            r.depth == 0,
            r.counter == 0,
            r.parser == parser,
    {
        CodeGenerator { depth: 0, counter: 0, parser }
    }

    /// Takes the next label number.
    fn count(&mut self) -> (r: usize)
        requires
            old(self).counter < usize::MAX,
        ensures
            r == final(self).counter,
            final(self).counter == old(self).counter + 1,
            final(self).depth == old(self).depth,
            final(self).parser == old(self).parser,
    {
        self.counter = self.counter + 1;
        self.counter
    }

    fn push(&mut self, out: &mut String)
        requires
            old(self).depth < usize::MAX,
        ensures
            final(out)@ == old(out)@ + "  push %rax\n"@,
            final(self).depth == old(self).depth + 1,
            final(self).counter == old(self).counter,
            final(self).parser == old(self).parser,
    {
        out.append("  push %rax\n");
        self.depth = self.depth + 1;
    }

    fn pop(&mut self, out: &mut String)
        requires
            old(self).depth > 0,
        ensures
            final(out)@ == old(out)@ + "  pop %rdi\n"@,
            final(self).depth == old(self).depth - 1,
            final(self).counter == old(self).counter,
            final(self).parser == old(self).parser,
    {
        out.append("  pop %rdi\n");
        self.depth = self.depth - 1;
    }

    /// The offset of the local `name`.
    fn local_offset(&self, name: &String) -> (r: Option<usize>)
        ensures
            r == match lookup(table_of(self.parser.locals@), name@) {
                Some(i) => Some(self.parser.locals@[i].offset),
                None => None,
            },
    {
        let mut i: usize = 0;
        while i < self.parser.locals.len()
            invariant
                i <= self.parser.locals@.len(),
                lookup(table_of(self.parser.locals@), name@) == crate::parser::find_from(
                    table_of(self.parser.locals@),
                    name@,
                    i as int,
                ),
            decreases self.parser.locals@.len() - i,
        {
            if self.parser.locals[i].name.eq(name) {
                return Some(self.parser.locals[i].offset);
            }
            i = i + 1;
        }
        None
    }

    /// Appends the code that leaves the address of lvalue `node` in `%rax`.
    fn gen_addr(&mut self, node: &Node, out: &mut String) -> (r: Result<(), MyError>)
        ensures
            r is Ok ==> final(self).depth == old(self).depth,
            final(self).counter == old(self).counter,
            final(self).parser == old(self).parser,
            match r {
                Ok(()) => addr_text(node@, old(self).parser.locals@, old(self).depth as nat) matches Some(t)
                    && final(out)@ == old(out)@ + t,
                Err(e) => addr_text(node@, old(self).parser.locals@, old(self).depth as nat) is None
                    && e.kind == ErrorKind::Internal,
            },
        decreases node, 0int,
    {
        match node {
            Node::Var { name, .. } => match self.local_offset(name) {
                Some(offset) => {
                    out.append("  lea -");
                    emit_nat(out, offset as u64);
                    out.append("(%rbp), %rax\n");
                    assert(out@ =~= old(out)@ + addr_text(node@, self.parser.locals@, self.depth as nat)->0);
                    Ok(())
                },
                None => Err(internal("unknown local variable")),
            },
            Node::Deref { lhs, .. } => self.gen_expr(lhs, out),
            _ => Err(internal("not an lvalue")),
        }
    }

    /// Appends the code that leaves the value of expression `node` in `%rax`.
    pub fn gen_expr(&mut self, node: &Node, out: &mut String) -> (r: Result<(), MyError>)
        ensures
            r is Ok ==> final(self).depth == old(self).depth,
            final(self).counter == old(self).counter,
            final(self).parser == old(self).parser,
            match r {
                Ok(()) => expr_text(node@, old(self).parser.locals@, old(self).depth as nat) matches Some(t)
                    && final(out)@ == old(out)@ + t,
                Err(e) => expr_text(node@, old(self).parser.locals@, old(self).depth as nat) is None
                    && e.kind == ErrorKind::Internal,
            },
        decreases node, 1int,
    {
        let ghost locals = self.parser.locals@;
        let ghost d = self.depth as nat;
        match node {
            Node::Num { val } => {
                out.append("  mov $");
                emit_int(out, *val);
                out.append(", %rax\n");
                assert(out@ =~= old(out)@ + expr_text(node@, locals, d)->0);
                return Ok(());
            },
            Node::Neg { lhs, .. } => {
                self.gen_expr(lhs, out)?;
                out.append("  neg %rax\n");
                assert(out@ =~= old(out)@ + expr_text(node@, locals, d)->0);
                return Ok(());
            },
            Node::Var { .. } => {
                self.gen_addr(node, out)?;
                out.append("  mov (%rax), %rax\n");
                assert(out@ =~= old(out)@ + expr_text(node@, locals, d)->0);
                return Ok(());
            },
            Node::Deref { lhs, .. } => {
                self.gen_expr(lhs, out)?;
                out.append("  mov (%rax), %rax\n");
                assert(out@ =~= old(out)@ + expr_text(node@, locals, d)->0);
                return Ok(());
            },
            Node::Addr { lhs, .. } => {
                return self.gen_addr(lhs, out);
            },
            Node::Assign { lhs, rhs, .. } => {
                if self.depth == usize::MAX {
                    return Err(internal("operand stack too deep"));
                }
                self.gen_addr(lhs, out)?;
                self.push(out);
                self.gen_expr(rhs, out)?;
                self.pop(out);
                out.append("  mov %rax, (%rdi)\n");
                assert(out@ =~= old(out)@ + expr_text(node@, locals, d)->0);
                return Ok(());
            },
            _ => self.gen_binary(node, out),
        }
    }

    /// The binary operator nodes.
    fn gen_binary(&mut self, node: &Node, out: &mut String) -> (r: Result<(), MyError>)
        requires
            !(node@ is Num || node@ is Neg || node@ is Var || node@ is Deref || node@ is Addr
                || node@ is Assign),
        ensures
            r is Ok ==> final(self).depth == old(self).depth,
            final(self).counter == old(self).counter,
            final(self).parser == old(self).parser,
            match r {
                Ok(()) => expr_text(node@, old(self).parser.locals@, old(self).depth as nat) matches Some(t)
                    && final(out)@ == old(out)@ + t,
                Err(e) => expr_text(node@, old(self).parser.locals@, old(self).depth as nat) is None
                    && e.kind == ErrorKind::Internal,
            },
        decreases node, 0int,
    {
        let ghost locals = self.parser.locals@;
        let ghost d = self.depth as nat;
        match operands_of(node) {
            Some((lhs, rhs)) => {
                proof {
                    lemma_binary_text(node@, locals, d);
                }
                if self.depth == usize::MAX {
                    return Err(internal("operand stack too deep"));
                }
                self.gen_expr(rhs, out)?;
                self.push(out);
                self.gen_expr(lhs, out)?;
                self.pop(out);
                out.append(op_str(node));
                assert(out@ =~= old(out)@ + expr_text(node@, locals, d)->0);
                Ok(())
            },
            None => Err(internal("invalid expression")),
        }
    }
}

/// What a statement generator promises: on success it appended the
/// statement's text, numbered its control structures after `pre.counter`,
/// and left the operand stack empty; on failure the statement cannot be
/// emitted.
pub open spec fn gen_stmt_post(
    pre: CodeGenerator,
    post: CodeGenerator,
    pre_out: Seq<char>,
    post_out: Seq<char>,
    a: Ast,
    r: Result<(), MyError>,
) -> bool {
    &&& post.parser == pre.parser
    &&& match r {
        Ok(()) => {
            &&& post.depth == 0
            &&& stmt_text(a, pre.parser.locals@, pre.counter as nat) matches Some((t, c))
            &&& post_out == pre_out + t
            &&& post.counter == c
        },
        Err(e) => stmt_text(a, pre.parser.locals@, pre.counter as nat) is None && e.kind
            == ErrorKind::Internal,
    }
}

impl CodeGenerator {
    #[verifier::rlimit(60)]
    fn gen_if(&mut self, node: &Node, out: &mut String) -> (r: Result<(), MyError>)
        requires
            old(self).depth == 0,
            node@ is If,
        ensures
            gen_stmt_post(*old(self), *final(self), old(out)@, final(out)@, node@, r),
        decreases node, 0int,
    {
        proof {
            reveal(stmt_text);
        }
        match node {
            Node::If { cond, then_branch, else_branch } => {
                if self.counter == usize::MAX {
                    return Err(internal("too many labels"));
                }
                let c = self.count();
                self.gen_expr(cond, out)?;
                out.append("  cmp $0, %rax\n  je .L.else.");
                emit_nat(out, c as u64);
                out.append("\n");
                self.gen_stmt(then_branch, out)?;
                out.append("  jmp .L.end.");
                emit_nat(out, c as u64);
                out.append("\n.L.else.");
                emit_nat(out, c as u64);
                out.append(":\n");
                match else_branch {
                    Some(e) => {
                        self.gen_stmt(e, out)?;
                    },
                    None => {
                        assert(out@ =~= out@ + Seq::<char>::empty());
                    },
                }
                out.append(".L.end.");
                emit_nat(out, c as u64);
                out.append(":\n");
                assert(out@ =~= old(out)@ + (stmt_text(
                    node@,
                    old(self).parser.locals@,
                    old(self).counter as nat,
                )->0).0);
                Ok(())
            },
            _ => Err(internal("invalid statement")),
        }
    }

    fn gen_init(&mut self, init: &Option<Box<Node>>, out: &mut String) -> (r: Result<(), MyError>)
        requires
            old(self).depth == 0,
        ensures
            final(self).parser == old(self).parser,
            match r {
                Ok(()) => {
                    &&& final(self).depth == 0
                    &&& init_text(opt_ast(*init), old(self).parser.locals@, old(self).counter as nat) matches Some((t, c))
                    &&& final(out)@ == old(out)@ + t
                    &&& final(self).counter == c
                },
                Err(e) => init_text(opt_ast(*init), old(self).parser.locals@, old(self).counter as nat) is None
                    && e.kind == ErrorKind::Internal,
            },
        decreases init, 0int,
    {
        proof {
            reveal(stmt_text);
        }
        match init {
            Some(i) => self.gen_stmt(i, out),
            None => {
                assert(out@ =~= out@ + Seq::<char>::empty());
                Ok(())
            },
        }
    }

    fn gen_cond(&mut self, cond: &Option<Box<Node>>, c: usize, out: &mut String) -> (r: Result<(), MyError>)
        requires
            old(self).depth == 0,
        ensures
            final(self).parser == old(self).parser,
            final(self).counter == old(self).counter,
            match r {
                Ok(()) => {
                    &&& final(self).depth == 0
                    &&& cond_text(opt_ast(*cond), old(self).parser.locals@, c as nat) matches Some(t)
                    &&& final(out)@ == old(out)@ + t
                },
                Err(e) => cond_text(opt_ast(*cond), old(self).parser.locals@, c as nat) is None && e.kind
                    == ErrorKind::Internal,
            },
    {
        match cond {
            Some(x) => {
                self.gen_expr(x, out)?;
                out.append("  cmp $0, %rax\n  je .L.end.");
                emit_nat(out, c as u64);
                out.append("\n");
                assert(out@ =~= old(out)@ + cond_text(opt_ast(*cond), self.parser.locals@, c as nat)->0);
                Ok(())
            },
            None => {
                assert(out@ =~= out@ + Seq::<char>::empty());
                Ok(())
            },
        }
    }

    fn gen_inc(&mut self, inc: &Option<Box<Node>>, out: &mut String) -> (r: Result<(), MyError>)
        requires
            old(self).depth == 0,
        ensures
            final(self).parser == old(self).parser,
            final(self).counter == old(self).counter,
            match r {
                Ok(()) => {
                    &&& final(self).depth == 0
                    &&& inc_text(opt_ast(*inc), old(self).parser.locals@) matches Some(t)
                    &&& final(out)@ == old(out)@ + t
                },
                Err(e) => inc_text(opt_ast(*inc), old(self).parser.locals@) is None && e.kind
                    == ErrorKind::Internal,
            },
    {
        match inc {
            Some(x) => self.gen_expr(x, out),
            None => {
                assert(out@ =~= out@ + Seq::<char>::empty());
                Ok(())
            },
        }
    }

    /// Loop `c` after its first statement.
    fn gen_loop(
        &mut self,
        cond: &Option<Box<Node>>,
        body: &Box<Node>,
        inc: &Option<Box<Node>>,
        c: usize,
        out: &mut String,
    ) -> (r: Result<(), MyError>)
        requires
            old(self).depth == 0,
        ensures
            final(self).parser == old(self).parser,
            match r {
                Ok(()) => {
                    &&& final(self).depth == 0
                    &&& loop_text(
                        opt_ast(*cond),
                        body@,
                        opt_ast(*inc),
                        old(self).parser.locals@,
                        c as nat,
                        old(self).counter as nat,
                    ) matches Some((t, c2))
                    &&& final(out)@ == old(out)@ + t
                    &&& final(self).counter == c2
                },
                Err(e) => loop_text(
                    opt_ast(*cond),
                    body@,
                    opt_ast(*inc),
                    old(self).parser.locals@,
                    c as nat,
                    old(self).counter as nat,
                ) is None && e.kind == ErrorKind::Internal,
            },
        decreases body, 2int,
    {
        proof {
            reveal(stmt_text);
        }
        let ghost locals = self.parser.locals@;
        let ghost k = nat_text(c as nat);
        emit_loop_begin(out, c);
        let ghost upto_begin = ".L.begin."@ + k + ":\n"@;
        self.gen_cond(cond, c, out)?;
        let ghost upto_cond = upto_begin + cond_text(opt_ast(*cond), locals, c as nat)->0;
        assert(out@ =~= old(out)@ + upto_cond);
        self.gen_stmt(body, out)?;
        let ghost upto_body = upto_cond + (stmt_text(body@, locals, old(self).counter as nat)->0).0;
        assert(out@ =~= old(out)@ + upto_body);
        self.gen_inc(inc, out)?;
        let ghost upto_inc = upto_body + inc_text(opt_ast(*inc), locals)->0;
        assert(out@ =~= old(out)@ + upto_inc);
        emit_loop_end(out, c);
        assert(out@ =~= old(out)@ + (upto_inc + "  jmp .L.begin."@ + k + "\n.L.end."@ + k + ":\n"@));
        Ok(())
    }

    fn gen_for(&mut self, node: &Node, out: &mut String) -> (r: Result<(), MyError>)
        requires
            old(self).depth == 0,
            node@ is For,
        ensures
            gen_stmt_post(*old(self), *final(self), old(out)@, final(out)@, node@, r),
        decreases node, 0int,
    {
        match node {
            Node::For { init, cond, inc, body } => {
                proof {
                    lemma_for_text(
                        opt_ast(*init),
                        opt_ast(*cond),
                        opt_ast(*inc),
                        body@,
                        self.parser.locals@,
                        self.counter as nat,
                    );
                }
                if self.counter == usize::MAX {
                    return Err(internal("too many labels"));
                }
                let c = self.count();
                self.gen_init(init, out)?;
                self.gen_loop(cond, body, inc, c, out)?;
                assert(out@ =~= old(out)@ + (stmt_text(
                    node@,
                    old(self).parser.locals@,
                    old(self).counter as nat,
                )->0).0);
                Ok(())
            },
            _ => Err(internal("invalid statement")),
        }
    }

    fn gen_block(&mut self, node: &Node, out: &mut String) -> (r: Result<(), MyError>)
        requires
            old(self).depth == 0,
            node@ is Block,
        ensures
            gen_stmt_post(*old(self), *final(self), old(out)@, final(out)@, node@, r),
        decreases node, 0int,
    {
        proof {
            reveal(stmt_text);
        }
        match node {
            Node::Block { nodes } => {
                let ghost s = asts_of(nodes@);
                let ghost locals = self.parser.locals@;
                let ghost c0 = self.counter as nat;
                proof {
                    lemma_asts_of(nodes@);
                    assert(old(out)@ =~= old(out)@ + Seq::<char>::empty());
                    assert forall|j: int| 0 <= j < nodes@.len() implies decreases_to!(*node => #[trigger] nodes@[j]) by {
                        vstd::std_specs::vec::axiom_vec_index_decreases(*nodes, j);
                    }
                }
                let mut i: usize = 0;
                while i < nodes.len()
                    invariant
                        i <= nodes@.len(),
                        s == asts_of(nodes@),
                        s.len() == nodes@.len(),
                        forall|j: int| 0 <= j < nodes@.len() ==> #[trigger] s[j] == nodes@[j]@,
                        forall|j: int| 0 <= j < nodes@.len() ==> decreases_to!(*node => #[trigger] nodes@[j]),
                        node@ == Ast::Block(s),
                        c0 == old(self).counter as nat,
                        self.depth == 0,
                        self.parser == old(self).parser,
                        locals == self.parser.locals@,
                        block_text(s, i as int, locals, c0) matches Some((t, c)) && out@ == old(out)@
                            + t && self.counter == c,
                    decreases nodes@.len() - i,
                {
                    proof {
                        reveal(stmt_text);
                    }
                    let r = self.gen_stmt(&nodes[i], out);
                    if r.is_err() {
                        proof {
                            lemma_block_text_none(s, i + 1, s.len() as int, locals, c0);
                        }
                        return r;
                    }
                    assert(out@ =~= old(out)@ + (block_text(s, i + 1, locals, c0)->0).0);
                    i = i + 1;
                }
                Ok(())
            },
            _ => Err(internal("invalid statement")),
        }
    }

    /// Appends the code of statement `node`.
    fn gen_stmt(&mut self, node: &Node, out: &mut String) -> (r: Result<(), MyError>)
        requires
            old(self).depth == 0,
        ensures
            gen_stmt_post(*old(self), *final(self), old(out)@, final(out)@, node@, r),
        decreases node, 1int,
    {
        proof {
            reveal(stmt_text);
        }
        match node {
            Node::Return { lhs } => {
                match lhs {
                    Some(x) => {
                        self.gen_expr(x, out)?;
                    },
                    None => {
                        assert(out@ =~= out@ + Seq::<char>::empty());
                    },
                }
                out.append("  jmp .L.return\n");
                assert(out@ =~= old(out)@ + (stmt_text(
                    node@,
                    old(self).parser.locals@,
                    old(self).counter as nat,
                )->0).0);
                Ok(())
            },
            Node::ExprStmt { expr } => self.gen_expr(expr, out),
            Node::If { .. } => self.gen_if(node, out),
            Node::For { .. } => self.gen_for(node, out),
            Node::Block { .. } => self.gen_block(node, out),
            _ => Err(internal("invalid statement")),
        }
    }

    /// Emits the whole program for the statements `nodes`: offsets are
    /// assigned to the parser's locals first.
    pub fn generate(&mut self, nodes: Vec<Node>) -> (r: Result<String, MyError>)
        ensures
            final(self).parser.table() == old(self).parser.table(),
            match r {
                Ok(text) => {
                    &&& old(self).depth == 0
                    &&& old(self).parser.locals@.len() * 8 + 15 <= usize::MAX
                    &&& forall|i: int|
                        0 <= i < final(self).parser.locals@.len()
                            ==> #[trigger] final(self).parser.locals@[i].offset == 8 * (i + 1)
                    &&& program_text(
                        asts_of(nodes@),
                        final(self).parser.locals@,
                        frame_size(old(self).parser.locals@.len() as int) as nat,
                    ) == Some(text@)
                },
                Err(e) => {
                    &&& e.kind == ErrorKind::Internal
                    &&& {
                        ||| old(self).depth != 0
                        ||| old(self).parser.locals@.len() * 8 + 15 > usize::MAX
                        ||| program_text(
                            asts_of(nodes@),
                            final(self).parser.locals@,
                            frame_size(old(self).parser.locals@.len() as int) as nat,
                        ) is None
                    }
                },
            },
    {
        if self.depth != 0 {
            return Err(internal("operand stack not empty"));
        }
        if self.parser.locals.len() > (usize::MAX - 15) / 8 {
            return Err(internal("too many locals"));
        }
        self.parser.assign_lvar_offset();
        self.counter = 0;
        let mut out = String::new();
        out.append(".global main\nmain:\n  push %rbp\n  mov %rsp, %rbp\n  sub $");
        emit_nat(&mut out, self.parser.stack_size as u64);
        out.append(", %rsp\n");
        let ghost head = out@;
        let ghost frame = self.parser.stack_size;
        assert(head =~= prologue_text(self.parser.stack_size as nat));
        let ghost s = asts_of(nodes@);
        let ghost locals = self.parser.locals@;
        proof {
            lemma_asts_of(nodes@);
            assert(head =~= head + Seq::<char>::empty());
        }
        let mut i: usize = 0;
        while i < nodes.len()
            invariant
                i <= nodes@.len(),
                s == asts_of(nodes@),
                s.len() == nodes@.len(),
                forall|j: int| 0 <= j < nodes@.len() ==> #[trigger] s[j] == nodes@[j]@,
                self.depth == 0,
                locals == self.parser.locals@,
                frame == self.parser.stack_size,
                self.parser.table() == old(self).parser.table(),
                forall|j: int|
                    0 <= j < self.parser.locals@.len() ==> #[trigger] self.parser.locals@[j].offset
                        == 8 * (j + 1),
                block_text(s, i as int, locals, 0) matches Some((t, c)) && out@ == head + t
                    && self.counter == c,
            decreases nodes@.len() - i,
        {
            proof {
                reveal(stmt_text);
            }
            let r = self.gen_stmt(&nodes[i], &mut out);
            if let Err(e) = r {
                proof {
                    lemma_block_text_none(s, i + 1, s.len() as int, locals, 0);
                }
                return Err(e);
            }
            assert(out@ =~= head + (block_text(s, i + 1, locals, 0)->0).0);
            if self.depth != 0 {
                return Err(internal("operand stack not empty"));
            }
            i = i + 1;
        }
        let ghost body = (block_text(s, s.len() as int, locals, 0)->0).0;
        assert(out@ == head + body);
        out.append(".L.return:\n  mov %rbp, %rsp\n  pop %rbp\n  ret\n");
        assert(out@ == head + body + epilogue_text());
        assert(program_text(s, locals, self.parser.stack_size as nat) == Some(
            prologue_text(self.parser.stack_size as nat) + body + epilogue_text(),
        ));
        assert(out@ =~= program_text(s, locals, self.parser.stack_size as nat)->0);
        Ok(out)
    }
}

} // verus!
