use chibicc_rust::{CodeGenerator, ErrorKind, MyError, Node, Parser, Token, TokenQueue, Type};
use std::collections::VecDeque;

fn parse(src: &str) -> Result<(Vec<Node>, Parser), MyError> {
    let tokens = TokenQueue::tokenizer(src)?;
    let mut parser = Parser::new(tokens);
    let nodes = parser.program()?;
    Ok((nodes, parser))
}

fn compile(src: &str) -> Result<String, MyError> {
    let (nodes, parser) = parse(src)?;
    let mut generator = CodeGenerator::new(parser);
    generator.generate(nodes)
}

const PROLOGUE_0: &str = ".global main\nmain:\n  push %rbp\n  mov %rsp, %rbp\n  sub $0, %rsp\n";
const PROLOGUE_16: &str = ".global main\nmain:\n  push %rbp\n  mov %rsp, %rbp\n  sub $16, %rsp\n";
const EPILOGUE: &str = ".L.return:\n  mov %rbp, %rsp\n  pop %rbp\n  ret\n";

/// The statement of a one-statement block.
fn only_stmt(src: &str) -> Node {
    let (mut nodes, _) = parse(src).expect("parse error");
    assert_eq!(nodes.len(), 1);
    match nodes.remove(0) {
        Node::Block { mut nodes } => nodes.remove(nodes.len() - 1),
        other => panic!("not a block: {:?}", other),
    }
}

fn var(name: &str, ty: Type) -> Box<Node> {
    Box::new(Node::Var { name: name.to_string(), ty })
}

fn ptr_int() -> Type {
    Type::Ptr { base: Box::new(Type::I32) }
}

#[test]
fn return_zero_program() {
    let text = compile("{ return 0; }").unwrap();
    let body = "  mov $0, %rax\n  jmp .L.return\n";
    assert_eq!(text, format!("{}{}{}", PROLOGUE_0, body, EPILOGUE));
}

#[test]
fn add_sub_program() {
    let text = compile("{ return 5+20-4; }").unwrap();
    let body = [
        "  mov $4, %rax\n",
        "  push %rax\n",
        "  mov $20, %rax\n",
        "  push %rax\n",
        "  mov $5, %rax\n",
        "  pop %rdi\n",
        "  add %rdi, %rax\n",
        "  pop %rdi\n",
        "  sub %rdi, %rax\n",
        "  jmp .L.return\n",
    ]
    .concat();
    assert_eq!(text, format!("{}{}{}", PROLOGUE_0, body, EPILOGUE));
}

#[test]
fn paren_div_program() {
    let text = compile("{ return (3+5)/2; }").unwrap();
    assert!(text.contains("  cqo\n  idiv %rdi\n"));
    assert!(text.starts_with(PROLOGUE_0));
}

#[test]
fn locals_program() {
    let text = compile("{ int a=3; int b=5; return a+b; }").unwrap();
    let body = [
        "  lea -8(%rbp), %rax\n",
        "  push %rax\n",
        "  mov $3, %rax\n",
        "  pop %rdi\n",
        "  mov %rax, (%rdi)\n",
        "  lea -16(%rbp), %rax\n",
        "  push %rax\n",
        "  mov $5, %rax\n",
        "  pop %rdi\n",
        "  mov %rax, (%rdi)\n",
        "  lea -16(%rbp), %rax\n",
        "  mov (%rax), %rax\n",
        "  push %rax\n",
        "  lea -8(%rbp), %rax\n",
        "  mov (%rax), %rax\n",
        "  pop %rdi\n",
        "  add %rdi, %rax\n",
        "  jmp .L.return\n",
    ]
    .concat();
    assert_eq!(text, format!("{}{}{}", PROLOGUE_16, body, EPILOGUE));
}

#[test]
fn for_loop_program() {
    let text = compile("{ int i=0; int s=0; for (i=1; i<=10; i=i+1) s=s+i; return s; }").unwrap();
    assert!(text.contains(".L.begin.1:\n"));
    assert!(text.contains("  setle %al\n"));
    assert!(text.contains("  cmp $0, %rax\n  je .L.end.1\n"));
    assert!(text.contains("  jmp .L.begin.1\n.L.end.1:\n"));
}

#[test]
fn pointer_program() {
    let (nodes, parser) = parse("{ int x=3; int *y=&x; return *y; }").unwrap();
    assert_eq!(parser.locals.len(), 2);
    assert_eq!(parser.locals[1].ty, ptr_int());
    let text = {
        let mut generator = CodeGenerator::new(parser);
        generator.generate(nodes).unwrap()
    };
    assert!(text.contains("  lea -8(%rbp), %rax\n  pop %rdi\n  mov %rax, (%rdi)\n"));
    assert!(text.contains("  lea -16(%rbp), %rax\n  mov (%rax), %rax\n  mov (%rax), %rax\n  jmp .L.return\n"));
}

#[test]
fn tokens_end_with_eof_and_are_nonempty() {
    let q = TokenQueue::tokenizer("{ int x = 10; if (x >= 3) return x; else return 0; }").unwrap();
    assert_eq!(q.0.back(), Some(&Token::Eof));
    for (i, t) in q.0.iter().enumerate() {
        match t {
            Token::Reserved { keyword } => assert!(!keyword.is_empty()),
            Token::Num { raw, .. } => assert!(!raw.is_empty()),
            Token::Ident { name } => assert!(!name.is_empty()),
            Token::Eof => assert_eq!(i, q.0.len() - 1),
        }
    }
}

#[test]
fn keywords_and_identifiers() {
    let q = TokenQueue::tokenizer("int interval while_ _x9").unwrap();
    assert_eq!(q[0], Token::Reserved { keyword: "int".to_string() });
    assert_eq!(q[1], Token::Ident { name: "interval".to_string() });
    assert_eq!(q[2], Token::Ident { name: "while_".to_string() });
    assert_eq!(q[3], Token::Ident { name: "_x9".to_string() });
    assert_eq!(q[4], Token::Eof);
}

#[test]
fn empty_source_is_only_eof() {
    let q = TokenQueue::tokenizer("   ").unwrap();
    assert_eq!(q.0, vec![Token::Eof]);
}

#[test]
fn largest_literal_and_overflow() {
    let q = TokenQueue::tokenizer("2147483647").unwrap();
    assert_eq!(q[0], Token::Num { raw: "2147483647".to_string(), val: i32::MAX });
    let e = TokenQueue::tokenizer("2147483648").unwrap_err();
    assert_eq!(e.kind, ErrorKind::Lexical);
}

#[test]
fn unexpected_character_is_lexical() {
    let e = TokenQueue::tokenizer("1 $ 2").unwrap_err();
    assert_eq!(e.kind, ErrorKind::Lexical);
    let e = TokenQueue::tokenizer("int a, b;").unwrap_err();
    assert_eq!(e.kind, ErrorKind::Lexical);
}

#[test]
fn comparison_nodes_have_int_type() {
    for src in ["{ 1 == 2; }", "{ 1 != 2; }", "{ 1 < 2; }", "{ 1 <= 2; }", "{ 1 > 2; }", "{ 1 >= 2; }"] {
        match only_stmt(src) {
            Node::ExprStmt { expr } => assert_eq!(expr.get_type(), Some(Type::I32)),
            other => panic!("not an expression statement: {:?}", other),
        }
    }
}

#[test]
fn greater_is_reversed_less() {
    assert_eq!(only_stmt("{ int a; int b; a > b; }"), only_stmt("{ int a; int b; b < a; }"));
    assert_eq!(only_stmt("{ int a; int b; a >= b; }"), only_stmt("{ int a; int b; b <= a; }"));
    assert_eq!(
        only_stmt("{ int a; int b; a > b; }"),
        Node::ExprStmt {
            expr: Box::new(Node::Lt { lhs: var("b", Type::I32), rhs: var("a", Type::I32) })
        }
    );
}

#[test]
fn unary_plus_is_dropped() {
    assert_eq!(only_stmt("{ int x; +++x; }"), only_stmt("{ int x; x; }"));
}

#[test]
fn pointer_addition_is_canonical() {
    let expected = Node::ExprStmt {
        expr: Box::new(Node::Add {
            lhs: var("p", ptr_int()),
            rhs: Box::new(Node::Mul {
                lhs: Box::new(Node::Num { val: 1 }),
                rhs: Box::new(Node::Num { val: 8 }),
                ty: Type::I32,
            }),
            ty: ptr_int(),
        }),
    };
    assert_eq!(only_stmt("{ int *p; p + 1; }"), expected);
    assert_eq!(only_stmt("{ int *p; 1 + p; }"), expected);
}

#[test]
fn pointer_difference_counts_elements() {
    let expected = Node::ExprStmt {
        expr: Box::new(Node::Div {
            lhs: Box::new(Node::Sub { lhs: var("p", ptr_int()), rhs: var("q", ptr_int()), ty: ptr_int() }),
            rhs: Box::new(Node::Num { val: 8 }),
            ty: Type::I32,
        }),
    };
    assert_eq!(only_stmt("{ int *p; int *q; p - q; }"), expected);
}

#[test]
fn pointer_type_errors() {
    let e = parse("{ int *p; int *q; p + q; }").unwrap_err();
    assert_eq!(e.kind, ErrorKind::Syntactic);
    let e = parse("{ int *p; 1 - p; }").unwrap_err();
    assert_eq!(e.kind, ErrorKind::Syntactic);
}

#[test]
fn undeclared_variable_is_syntactic() {
    let e = parse("{ return x; }").unwrap_err();
    assert_eq!(e.kind, ErrorKind::Syntactic);
}

#[test]
fn redeclaration_keeps_first_binding() {
    let (_, parser) = parse("{ int *a; int a; }").unwrap();
    assert_eq!(parser.locals.len(), 1);
    assert_eq!(parser.locals[0].ty, ptr_int());
}

#[test]
fn empty_block_emits_nothing() {
    let text = compile("{}").unwrap();
    assert_eq!(text, format!("{}{}", PROLOGUE_0, EPILOGUE));
}

#[test]
fn for_without_clauses() {
    let text = compile("{ for (;;) { return 0; } }").unwrap();
    assert_eq!(text.matches(".L.begin.").count(), 2);
    assert_eq!(text.matches(".L.begin.1:").count(), 1);
    assert_eq!(text.matches(".L.end.1:").count(), 1);
    assert!(!text.contains(".L.begin.2"));
    assert!(!text.contains("je .L.end.1"));
}

#[test]
fn unclosed_block_is_syntactic() {
    let e = compile("{ return 0;").unwrap_err();
    assert_eq!(e.kind, ErrorKind::Syntactic);
}

#[test]
fn frame_sizes() {
    assert!(compile("{}").unwrap().starts_with(PROLOGUE_0));
    assert!(compile("{ int a; }").unwrap().starts_with(PROLOGUE_16));
    assert!(compile("{ int a; int b; }").unwrap().starts_with(PROLOGUE_16));
    assert!(compile("{ int a; int b; int c; }").unwrap().contains("  sub $32, %rsp\n"));
}

#[test]
fn offsets_follow_declaration_order() {
    let (_, mut parser) = parse("{ int a; int b; int c; }").unwrap();
    parser.assign_lvar_offset();
    let offsets: Vec<usize> = parser.locals.iter().map(|v| v.offset).collect();
    assert_eq!(offsets, vec![8, 16, 24]);
    assert_eq!(parser.stack_size, 32);
}

#[test]
fn if_else_labels() {
    let text = compile("{ if (1) return 2; else return 3; if (0) return 4; }").unwrap();
    assert!(text.contains("  cmp $0, %rax\n  je .L.else.1\n"));
    assert!(text.contains("  jmp .L.end.1\n.L.else.1:\n"));
    assert!(text.contains(".L.end.1:\n"));
    assert!(text.contains(".L.else.2:\n.L.end.2:\n"));
}

#[test]
fn while_is_a_for_without_init() {
    match only_stmt("{ int i; while (i) i = i - 1; }") {
        Node::For { init, cond, inc, .. } => {
            assert!(init.is_none());
            assert!(cond.is_some());
            assert!(inc.is_none());
        }
        other => panic!("not a loop: {:?}", other),
    }
}

#[test]
fn non_lvalue_targets_are_internal_errors() {
    let e = compile("{ 1 = 2; }").unwrap_err();
    assert_eq!(e.kind, ErrorKind::Internal);
    let e = compile("{ &1; }").unwrap_err();
    assert_eq!(e.kind, ErrorKind::Internal);
}

#[test]
fn negative_and_comparison_code() {
    let text = compile("{ return -3 == 1 != 0; }").unwrap();
    assert!(text.contains("  mov $3, %rax\n  neg %rax\n"));
    assert!(text.contains("  sete %al\n  movzb %al, %rax\n"));
    assert!(text.contains("  setne %al\n"));
}

#[test]
fn queue_operations() {
    let mut q = TokenQueue::tokenizer("return 7;").unwrap();
    assert!(q.is_reserve("return"));
    assert!(!q.at_eof());
    assert_eq!(q.consume_reserve("if").unwrap(), false);
    assert_eq!(q.consume_reserve("return").unwrap(), true);
    assert_eq!(q.consume_ident().unwrap(), None);
    assert_eq!(q.expect_num().unwrap(), 7);
    assert!(q.expect_reserve(")").is_err());
    q.expect_reserve(";").unwrap();
    assert!(q.at_eof());
    let mut empty = TokenQueue(VecDeque::new());
    assert!(empty.consume_reserve(";").is_err());
    assert!(empty.consume_ident().is_err());
}

#[test]
fn program_rejects_queue_without_eof() {
    let mut parser = Parser::new(TokenQueue(VecDeque::new()));
    assert!(parser.program().is_err());
}

#[test]
fn node_predicates() {
    let n = Node::Add { lhs: Box::new(Node::Num { val: 1 }), rhs: Box::new(Node::Num { val: 2 }), ty: Type::I32 };
    assert!(n.is_add());
    assert!(!n.is_ptr_node());
    assert!(!n.is_var());
    assert!(Node::Num { val: 1 }.is_num());
    assert!(var("p", ptr_int()).is_ptr_node());
    assert_eq!(Node::Return { lhs: None }.get_type(), None);
    let mut m = Node::Num { val: 5 };
    m.assign_type();
    assert_eq!(m, Node::Num { val: 5 });
    let e = MyError::with_detail(ErrorKind::Syntactic, "expected ", ";");
    assert_eq!(e.description(), "expected ;");
}

#[test]
fn operand_stack_is_empty_after_expressions() {
    let (mut nodes, parser) = parse("{ int a; a = 1 + 2 * (3 - 4); }").unwrap();
    let mut generator = CodeGenerator::new(parser);
    let stmt = match nodes.remove(0) {
        Node::Block { mut nodes } => nodes.remove(1),
        other => panic!("not a block: {:?}", other),
    };
    let expr = match stmt {
        Node::ExprStmt { expr } => expr,
        other => panic!("not an expression statement: {:?}", other),
    };
    let mut out = String::new();
    generator.gen_expr(&expr, &mut out).unwrap();
    assert_eq!(generator.depth, 0);
    assert_eq!(out.matches("  push %rax\n").count(), out.matches("  pop %rdi\n").count());
}
