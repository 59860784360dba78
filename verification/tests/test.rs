use rapidus::driver::compile_program;
use rapidus::error::CompileError;
use rapidus::executer::FuncCompiler;
use rapidus::ir::{Function, Inst, Module, Value};
use rapidus::node::{number_to_i32, BinOp, FormalParameter, Node};
use rapidus::resolve::{find_ancestor_name, make_qualified_name};
use rapidus::table::find_entry;
use std::collections::HashMap;

fn ident(name: &str) -> Node {
    Node::Identifier(name.to_string())
}

fn num(x: i64) -> Node {
    Node::Number(x)
}

fn bin(op: BinOp, lhs: Node, rhs: Node) -> Node {
    Node::BinaryOp(Box::new(lhs), Box::new(rhs), op)
}

fn assign(name: &str, value: Node) -> Node {
    Node::Assign(Box::new(ident(name)), Box::new(value))
}

fn var(name: &str) -> Node {
    Node::VarDecl(name.to_string(), None)
}

fn var_init(name: &str, value: Node) -> Node {
    Node::VarDecl(name.to_string(), Some(Box::new(value)))
}

fn ret(value: Node) -> Node {
    Node::Return(Some(Box::new(value)))
}

fn call(name: &str, args: Vec<Node>) -> Node {
    Node::Call(Box::new(ident(name)), args)
}

fn func(name: &str, params: Vec<&str>, body: Vec<Node>) -> Node {
    let params = params
        .into_iter()
        .map(|p| FormalParameter { name: p.to_string() })
        .collect();
    Node::FunctionDecl(name.to_string(), params, Box::new(Node::StatementList(body)))
}

fn if_else(cond: Node, then_part: Node, else_part: Node) -> Node {
    Node::If(Box::new(cond), Box::new(then_part), Box::new(else_part))
}

fn program(body: Vec<Node>) -> Node {
    Node::StatementList(body)
}

fn compile(root: &Node) -> Module {
    match compile_program(root) {
        Ok(m) => m,
        Err(e) => panic!("failed to construct module: {:?}", e),
    }
}

fn find(module: &Module, name: &str) -> usize {
    match module.find_function_by_name(name) {
        Some(id) => id,
        None => panic!("no function {}", name),
    }
}

fn eval(v: Value, args: &[i32], results: &HashMap<(usize, usize), i32>) -> i32 {
    match v {
        Value::Nothing => 0,
        Value::Immediate(x) => x,
        Value::Argument(i) => args[i],
        Value::Instruction { block, index } => results[&(block, index)],
        Value::Function(_) => panic!("a function is no integer"),
    }
}

fn slot_of(v: Value) -> (usize, usize) {
    match v {
        Value::Instruction { block, index } => (block, index),
        other => panic!("not a stack slot: {:?}", other),
    }
}

/// Runs one function of the module on integer arguments; what the print
/// built-in receives is collected in `printed`.
fn run(module: &Module, id: usize, args: &[i32], printed: &mut Vec<i32>, depth: usize) -> i32 {
    assert!(depth < 200, "call depth");
    let f: &Function = &module.functions[id];
    let mut results: HashMap<(usize, usize), i32> = HashMap::new();
    let mut memory: HashMap<(usize, usize), i32> = HashMap::new();
    let mut block = 0usize;
    let mut index = 0usize;
    let mut steps = 0usize;
    loop {
        steps += 1;
        assert!(steps < 1_000_000, "step budget");
        assert!(index < f.blocks[block].len(), "block {} has no terminator", block);
        let here = (block, index);
        index += 1;
        match f.blocks[block][here.1] {
            Inst::Alloca => {
                memory.entry(here).or_insert(0);
            }
            Inst::Load(slot) => {
                let x = *memory.get(&slot_of(slot)).unwrap_or(&0);
                results.insert(here, x);
            }
            Inst::Store(v, slot) => {
                let x = eval(v, args, &results);
                memory.insert(slot_of(slot), x);
            }
            Inst::Binary(op, a, b) => {
                let a = eval(a, args, &results);
                let b = eval(b, args, &results);
                let x = match op {
                    BinOp::Add => a.wrapping_add(b),
                    BinOp::Sub => a.wrapping_sub(b),
                    BinOp::Mul => a.wrapping_mul(b),
                    BinOp::Rem => a.wrapping_rem(b),
                    BinOp::Eq => (a == b) as i32,
                    BinOp::Le => (a <= b) as i32,
                    other => panic!("operator {:?} is never emitted", other),
                };
                results.insert(here, x);
            }
            Inst::Br(target) => {
                block = target;
                index = 0;
            }
            Inst::CondBr(c, yes, no) => {
                block = if eval(c, args, &results) != 0 { yes } else { no };
                index = 0;
            }
            Inst::Call { callee, first_arg, arg_count } => {
                let values: Vec<i32> = f.call_args[first_arg..first_arg + arg_count]
                    .iter()
                    .map(|v| eval(*v, args, &results))
                    .collect();
                let target = match callee {
                    Value::Function(id) => id,
                    other => panic!("not a function: {:?}", other),
                };
                let x = if module.functions[target].name == "cilk.println.i32" {
                    printed.push(values[0]);
                    0
                } else {
                    run(module, target, &values, printed, depth + 1)
                };
                results.insert(here, x);
            }
            Inst::Ret(v) => return eval(v, args, &results),
        }
    }
}

fn run_main(root: &Node) -> (i32, Vec<i32>) {
    let module = compile(root);
    let main = find(&module, "main");
    let mut printed = Vec::new();
    let r = run(&module, main, &[], &mut printed, 0);
    (r, printed)
}

fn test_program(root: &Node, expected: i32) {
    let (res, _) = run_main(root);
    if res != expected {
        panic!("expected Int32({}), but {:?}", expected, res);
    }
}

fn is_terminator(inst: &Inst) -> bool {
    matches!(inst, Inst::Br(_) | Inst::CondBr(..) | Inst::Ret(_))
}

fn fibo_program() -> Node {
    // function fibo(x) { if (x <= 1) return x; else return fibo(x - 1) + fibo(x - 2); }
    // return fibo(10);
    program(vec![
        func(
            "fibo",
            vec!["x"],
            vec![if_else(
                bin(BinOp::Le, ident("x"), num(1)),
                ret(ident("x")),
                ret(bin(
                    BinOp::Add,
                    call("fibo", vec![bin(BinOp::Sub, ident("x"), num(1))]),
                    call("fibo", vec![bin(BinOp::Sub, ident("x"), num(2))]),
                )),
            )],
        ),
        ret(call("fibo", vec![num(10)])),
    ])
}

fn while_program() -> Node {
    // var i = 0; while (i <= 8) { i = i + 1; } return i;
    program(vec![
        var_init("i", num(0)),
        Node::While(
            Box::new(bin(BinOp::Le, ident("i"), num(8))),
            Box::new(Node::Block(vec![assign("i", bin(BinOp::Add, ident("i"), num(1)))])),
        ),
        ret(ident("i")),
    ])
}

fn prime_program() -> Node {
    // function prime(n) {
    //   if (n == 2) return 1;
    //   if (n % 2 == 0) return 0;
    //   for (var k = 3; k * k <= n; k = k + 2) { if (n % k == 0) return 0; }
    //   return 1;
    // }
    // var count = 0;
    // for (var i = 2; i <= 70; i = i + 1) { if (prime(i) == 1) count = count + 1; }
    // return count;
    program(vec![
        func(
            "prime",
            vec!["n"],
            vec![
                if_else(bin(BinOp::Eq, ident("n"), num(2)), ret(num(1)), Node::Nope),
                if_else(
                    bin(BinOp::Eq, bin(BinOp::Rem, ident("n"), num(2)), num(0)),
                    ret(num(0)),
                    Node::Nope,
                ),
                Node::For(
                    Box::new(var_init("k", num(3))),
                    Box::new(bin(BinOp::Le, bin(BinOp::Mul, ident("k"), ident("k")), ident("n"))),
                    Box::new(assign("k", bin(BinOp::Add, ident("k"), num(2)))),
                    Box::new(Node::Block(vec![if_else(
                        bin(BinOp::Eq, bin(BinOp::Rem, ident("n"), ident("k")), num(0)),
                        ret(num(0)),
                        Node::Nope,
                    )])),
                ),
                ret(num(1)),
            ],
        ),
        var_init("count", num(0)),
        Node::For(
            Box::new(var_init("i", num(2))),
            Box::new(bin(BinOp::Le, ident("i"), num(70))),
            Box::new(assign("i", bin(BinOp::Add, ident("i"), num(1)))),
            Box::new(Node::Block(vec![if_else(
                bin(BinOp::Eq, call("prime", vec![ident("i")]), num(1)),
                assign("count", bin(BinOp::Add, ident("count"), num(1))),
                Node::Nope,
            )])),
        ),
        ret(ident("count")),
    ])
}

#[test]
fn rapidus_fibo() {
    test_program(&fibo_program(), 55);
}

#[test]
fn rapidus_while() {
    test_program(&while_program(), 9);
}

#[test]
fn rapidus_prime() {
    test_program(&prime_program(), 19);
}

#[test]
fn assign_then_add() {
    // var x; x = 3; return x + 4;
    let root = program(vec![
        var("x"),
        assign("x", num(3)),
        ret(bin(BinOp::Add, ident("x"), num(4))),
    ]);
    test_program(&root, 7);
}

#[test]
fn call_with_argument() {
    // function f(a) { return a + 1; } return f(5);
    let root = program(vec![
        func("f", vec!["a"], vec![ret(bin(BinOp::Add, ident("a"), num(1)))]),
        ret(call("f", vec![num(5)])),
    ]);
    test_program(&root, 6);
}

#[test]
fn duplicate_variable_fails() {
    let root = program(vec![var("x"), var("x")]);
    assert_eq!(compile_program(&root).err(), Some(CompileError::DuplicateVariable));
}

#[test]
fn duplicate_variable_in_nested_block_fails() {
    // the second declaration sits in a branch of an `if` inside a loop body
    let root = program(vec![
        var("x"),
        Node::While(
            Box::new(num(0)),
            Box::new(Node::Block(vec![if_else(num(1), Node::Nope, var("x"))])),
        ),
    ]);
    assert_eq!(compile_program(&root).err(), Some(CompileError::DuplicateVariable));
}

#[test]
fn duplicate_variable_in_for_condition_fails() {
    let root = program(vec![
        var("x"),
        Node::For(
            Box::new(Node::Nope),
            Box::new(var("x")),
            Box::new(Node::Nope),
            Box::new(Node::Nope),
        ),
    ]);
    assert_eq!(compile_program(&root).err(), Some(CompileError::DuplicateVariable));
}

#[test]
fn duplicate_function_fails() {
    let root = program(vec![func("f", vec![], vec![]), func("f", vec![], vec![])]);
    assert_eq!(compile_program(&root).err(), Some(CompileError::DuplicateFunction));
}

#[test]
fn same_variable_in_two_functions_is_fine() {
    let root = program(vec![
        var("x"),
        func("f", vec![], vec![var("x"), ret(ident("x"))]),
        ret(call("f", vec![])),
    ]);
    test_program(&root, 0);
}

#[test]
fn nested_function_is_registered_under_dotted_name() {
    let root = program(vec![func(
        "f",
        vec![],
        vec![func("g", vec!["a", "b"], vec![]), ret(num(0))],
    )]);
    let module = compile(&root);
    let names: Vec<&str> = module.functions.iter().map(|f| f.name.as_str()).collect();
    assert_eq!(names, vec!["cilk.println.i32", "main", "main.f", "main.f.g"]);
    let g = &module.functions[find(&module, "main.f.g")];
    assert_eq!(g.param_count, 2);
    assert!(g.returns_value);
    let print = &module.functions[0];
    assert_eq!(print.param_count, 1);
    assert!(!print.returns_value);
    assert_eq!(module.functions[1].param_count, 0);
}

#[test]
fn function_is_callable_before_its_declaration() {
    let root = program(vec![
        ret(call("f", vec![num(5)])),
        func("f", vec!["a"], vec![ret(bin(BinOp::Add, ident("a"), num(1)))]),
    ]);
    test_program(&root, 6);
}

#[test]
fn variable_is_usable_before_its_declaration() {
    // x = 5; return x; while (0) { var x; }
    let root = program(vec![
        assign("x", num(5)),
        ret(ident("x")),
        Node::While(Box::new(num(0)), Box::new(Node::Block(vec![var("x")]))),
    ]);
    test_program(&root, 5);
}

#[test]
fn read_before_any_assignment_is_zero() {
    let root = program(vec![ret(ident("x")), var("x")]);
    test_program(&root, 0);
}

#[test]
fn fall_through_returns_zero() {
    let root = program(vec![var_init("x", num(4))]);
    test_program(&root, 0);
    let module = compile(&root);
    let main = &module.functions[1];
    assert_eq!(
        main.blocks,
        vec![vec![
            Inst::Alloca,
            Inst::Store(Value::Immediate(4), Value::Instruction { block: 0, index: 0 }),
            Inst::Ret(Value::Immediate(0)),
        ]]
    );
}

#[test]
fn compiling_twice_gives_the_same_module() {
    let root = prime_program();
    let a = compile(&root);
    let b = compile(&root);
    assert_eq!(format!("{:?}", a), format!("{:?}", b));
    assert_eq!(a.functions.len(), 3);
}

#[test]
fn if_builds_three_blocks() {
    // if (a <= 1) { x = 1 } else { x = 2 }
    let root = program(vec![
        var("x"),
        if_else(
            bin(BinOp::Le, ident("x"), num(1)),
            assign("x", num(1)),
            assign("x", num(2)),
        ),
    ]);
    let module = compile(&root);
    let main = &module.functions[1];
    let slot = Value::Instruction { block: 0, index: 0 };
    let loaded = Value::Instruction { block: 0, index: 2 };
    let cond = Value::Instruction { block: 0, index: 3 };
    assert_eq!(
        main.blocks,
        vec![
            vec![
                Inst::Alloca,
                Inst::Store(Value::Immediate(0), slot),
                Inst::Load(slot),
                Inst::Binary(BinOp::Le, loaded, Value::Immediate(1)),
                Inst::CondBr(cond, 1, 2),
            ],
            vec![Inst::Store(Value::Immediate(1), slot), Inst::Br(3)],
            vec![Inst::Store(Value::Immediate(2), slot), Inst::Br(3)],
            vec![Inst::Ret(Value::Immediate(0))],
        ]
    );
}

#[test]
fn while_builds_a_back_edge() {
    let root = program(vec![Node::While(Box::new(num(0)), Box::new(Node::Nope))]);
    let module = compile(&root);
    assert_eq!(
        module.functions[1].blocks,
        vec![
            vec![Inst::Br(1)],
            vec![Inst::CondBr(Value::Immediate(0), 2, 3)],
            vec![Inst::Br(1)],
            vec![Inst::Ret(Value::Immediate(0))],
        ]
    );
}

#[test]
fn for_builds_four_blocks() {
    let root = program(vec![Node::For(
        Box::new(Node::Nope),
        Box::new(num(0)),
        Box::new(Node::Nope),
        Box::new(Node::Nope),
    )]);
    let module = compile(&root);
    assert_eq!(
        module.functions[1].blocks,
        vec![
            vec![Inst::Br(1)],
            vec![Inst::Br(2)],
            vec![Inst::CondBr(Value::Immediate(0), 3, 4)],
            vec![Inst::Br(2)],
            vec![Inst::Ret(Value::Immediate(0))],
        ]
    );
}

#[test]
fn every_block_ends_in_a_terminator() {
    for root in [fibo_program(), while_program(), prime_program()] {
        let module = compile(&root);
        for f in module.functions.iter().skip(1) {
            assert!(!f.blocks.is_empty());
            for b in &f.blocks {
                assert!(is_terminator(b.last().unwrap()), "{:?}", f);
                for inst in b {
                    match *inst {
                        Inst::Br(t) => assert!(t < f.blocks.len()),
                        Inst::CondBr(_, t, e) => assert!(t < f.blocks.len() && e < f.blocks.len()),
                        _ => {}
                    }
                }
            }
        }
    }
}

#[test]
fn console_log_calls_the_print_function() {
    let log = Node::Call(
        Box::new(Node::Member(Box::new(ident("console")), "log".to_string())),
        vec![bin(BinOp::Mul, num(6), num(7))],
    );
    let root = program(vec![log, ret(num(1))]);
    let (r, printed) = run_main(&root);
    assert_eq!(r, 1);
    assert_eq!(printed, vec![42]);
    let module = compile(&root);
    assert_eq!(
        module.functions[1].blocks[0][1],
        Inst::Call { callee: Value::Function(0), first_arg: 0, arg_count: 1 }
    );
    assert_eq!(module.functions[1].call_args, vec![Value::Instruction { block: 0, index: 0 }]);
}

#[test]
fn other_member_callee_is_unsupported() {
    let callee = Node::Member(Box::new(ident("console")), "error".to_string());
    let root = program(vec![Node::Call(Box::new(callee), vec![])]);
    assert_eq!(compile_program(&root).err(), Some(CompileError::UnsupportedCallee));
    let callee = Node::Member(Box::new(ident("window")), "log".to_string());
    let root = program(vec![Node::Call(Box::new(callee), vec![])]);
    assert_eq!(compile_program(&root).err(), Some(CompileError::UnsupportedCallee));
    let root = program(vec![Node::Call(Box::new(num(1)), vec![])]);
    assert_eq!(compile_program(&root).err(), Some(CompileError::UnsupportedCallee));
}

#[test]
fn undefined_variable_fails() {
    let root = program(vec![ret(ident("y"))]);
    assert_eq!(compile_program(&root).err(), Some(CompileError::UndefinedVariable));
    let root = program(vec![assign("y", num(1))]);
    assert_eq!(compile_program(&root).err(), Some(CompileError::UndefinedVariable));
}

#[test]
fn outer_variable_is_not_visible_in_nested_function() {
    let root = program(vec![var("x"), func("f", vec![], vec![ret(ident("x"))])]);
    assert_eq!(compile_program(&root).err(), Some(CompileError::UndefinedVariable));
}

#[test]
fn parameter_is_not_assignable() {
    let root = program(vec![func("f", vec!["a"], vec![assign("a", num(1))])]);
    assert_eq!(compile_program(&root).err(), Some(CompileError::UndefinedVariable));
}

#[test]
fn invalid_assignment_target_fails() {
    let root = program(vec![Node::Assign(Box::new(num(1)), Box::new(num(2)))]);
    assert_eq!(compile_program(&root).err(), Some(CompileError::InvalidAssignmentTarget));
}

#[test]
fn unsupported_operator_fails() {
    let root = program(vec![bin(BinOp::Div, num(4), num(2))]);
    assert_eq!(compile_program(&root).err(), Some(CompileError::UnsupportedOperator));
    // the operator is looked at before the operands
    let root = program(vec![bin(BinOp::Lt, ident("nowhere"), num(2))]);
    assert_eq!(compile_program(&root).err(), Some(CompileError::UnsupportedOperator));
}

#[test]
fn unsupported_construct_fails() {
    let root = program(vec![Node::Text("hello".to_string())]);
    assert_eq!(compile_program(&root).err(), Some(CompileError::UnsupportedConstruct));
    let root = program(vec![Node::Boolean(true)]);
    assert_eq!(compile_program(&root).err(), Some(CompileError::UnsupportedConstruct));
    let root = program(vec![Node::Member(Box::new(ident("a")), "b".to_string())]);
    assert_eq!(compile_program(&root).err(), Some(CompileError::UnsupportedConstruct));
}

#[test]
fn unknown_function_fails() {
    let root = program(vec![call("nothing", vec![])]);
    assert_eq!(compile_program(&root).err(), Some(CompileError::UnresolvedCall));
}

#[test]
fn sibling_of_an_ancestor_is_not_resolved() {
    // function uncle() {}  function f() { function g() { return uncle(); } }
    let root = program(vec![
        func("uncle", vec![], vec![]),
        func("f", vec![], vec![func("g", vec![], vec![ret(call("uncle", vec![]))])]),
    ]);
    assert_eq!(compile_program(&root).err(), Some(CompileError::UnresolvedCall));
}

#[test]
fn entry_function_can_call_itself() {
    // if (0) return main(); return 4;
    let root = program(vec![
        if_else(num(0), ret(call("main", vec![])), Node::Nope),
        ret(num(4)),
    ]);
    test_program(&root, 4);
    let module = compile(&root);
    assert_eq!(
        module.functions[1].blocks[1][0],
        Inst::Call { callee: Value::Function(1), first_arg: 0, arg_count: 0 }
    );
}

#[test]
fn nested_function_calls_the_entry_function() {
    // function f() { function g() { if (0) return main(); return 8; } return g(); }
    // return f();
    let root = program(vec![
        func(
            "f",
            vec![],
            vec![
                func(
                    "g",
                    vec![],
                    vec![if_else(num(0), ret(call("main", vec![])), Node::Nope), ret(num(8))],
                ),
                ret(call("g", vec![])),
            ],
        ),
        ret(call("f", vec![])),
    ]);
    test_program(&root, 8);
    let module = compile(&root);
    let g = &module.functions[find(&module, "main.f.g")];
    assert_eq!(
        g.blocks[1][0],
        Inst::Call { callee: Value::Function(1), first_arg: 0, arg_count: 0 }
    );
    let mut fc = FuncCompiler::new(module, 2);
    assert_eq!(fc.find_func_name(&"main".to_string()), Ok(1));
    assert_eq!(fc.find_func_name(&"f".to_string()), Ok(2));
    assert_eq!(fc.visit(&Node::Nope), Ok(Value::Nothing));
}

#[test]
fn nested_function_calls_its_ancestor() {
    // function outer(n) { function inner(m) { return outer(m - 1); }
    //                     if (n <= 0) return 7; else return inner(n); }
    // return outer(3);
    let root = program(vec![
        func(
            "outer",
            vec!["n"],
            vec![
                func(
                    "inner",
                    vec!["m"],
                    vec![ret(call("outer", vec![bin(BinOp::Sub, ident("m"), num(1))]))],
                ),
                if_else(
                    bin(BinOp::Le, ident("n"), num(0)),
                    ret(num(7)),
                    ret(call("inner", vec![ident("n")])),
                ),
            ],
        ),
        ret(call("outer", vec![num(3)])),
    ]);
    test_program(&root, 7);
    let module = compile(&root);
    let outer = find(&module, "main.outer");
    let inner = &module.functions[find(&module, "main.outer.inner")];
    assert!(inner.blocks[0].contains(&Inst::Call {
        callee: Value::Function(outer),
        first_arg: 0,
        arg_count: 1
    }));
}

#[test]
fn arity_is_not_checked() {
    let root = program(vec![
        func("f", vec!["a"], vec![ret(num(3))]),
        ret(call("f", vec![num(1), num(2)])),
    ]);
    test_program(&root, 3);
}

#[test]
fn nested_calls_keep_their_argument_lists_apart() {
    // function add(a, b) { return a + b; } return add(add(1, 2), add(3, 4));
    let root = program(vec![
        func("add", vec!["a", "b"], vec![ret(bin(BinOp::Add, ident("a"), ident("b")))]),
        ret(call(
            "add",
            vec![call("add", vec![num(1), num(2)]), call("add", vec![num(3), num(4)])],
        )),
    ]);
    test_program(&root, 10);
}

#[test]
fn number_is_narrowed_to_32_bits() {
    assert_eq!(number_to_i32(7), 7);
    assert_eq!(number_to_i32(-7), -7);
    assert_eq!(number_to_i32(2147483647), 2147483647);
    assert_eq!(number_to_i32(2147483648), 2147483647);
    assert_eq!(number_to_i32(-2147483649), -2147483648);
    assert_eq!(number_to_i32(i64::MAX), i32::MAX);
    let root = program(vec![ret(num(30_000_000_000))]);
    test_program(&root, i32::MAX);
}

#[test]
fn ancestor_names_are_found_from_the_innermost() {
    assert_eq!(find_ancestor_name("main.outer.inner", "outer"), Some("main.outer".to_string()));
    assert_eq!(find_ancestor_name("main.outer.inner", "inner"), Some("main.outer.inner".to_string()));
    assert_eq!(find_ancestor_name("main.f.g.f", "f"), Some("main.f.g.f".to_string()));
    assert_eq!(find_ancestor_name("main.f.g", "main"), Some("main".to_string()));
    assert_eq!(find_ancestor_name("main", "main"), Some("main".to_string()));
    assert_eq!(find_ancestor_name("main.main", "main"), Some("main.main".to_string()));
    assert_eq!(find_ancestor_name("main.outer", "out"), None);
    assert_eq!(find_ancestor_name("main.outer", "uter"), None);
    assert_eq!(find_ancestor_name("main.outer", "main.outer"), None);
    assert_eq!(find_ancestor_name("", "f"), None);
    assert_eq!(find_ancestor_name("a..b", ""), Some("a.".to_string()));
}

#[test]
fn qualified_name_joins_with_a_dot() {
    let q = make_qualified_name(&"main.f".to_string(), &"g".to_string());
    assert_eq!(q, "main.f.g");
}

#[test]
fn table_lookup_finds_the_last_entry() {
    let tab = vec![("a".to_string(), 1), ("b".to_string(), 2), ("a".to_string(), 3)];
    assert_eq!(find_entry(&tab, &"a".to_string()), Some(2));
    assert_eq!(find_entry(&tab, &"b".to_string()), Some(1));
    assert_eq!(find_entry(&tab, &"c".to_string()), None);
}

#[test]
fn module_lookup_finds_the_first_function() {
    let mut module = Module::new();
    assert_eq!(module.add_function(Function::new("f".to_string(), true, 0)), 0);
    assert_eq!(module.add_function(Function::new("g".to_string(), true, 1)), 1);
    assert_eq!(module.add_function(Function::new("f".to_string(), false, 2)), 2);
    assert_eq!(module.find_function_by_name("f"), Some(0));
    assert_eq!(module.find_function_by_name("g"), Some(1));
    assert_eq!(module.find_function_by_name("h"), None);
}

#[test]
fn later_parameter_of_the_same_name_wins() {
    // function f(a, a) { return a; } return f(1, 2);
    let root = program(vec![
        func("f", vec!["a", "a"], vec![ret(ident("a"))]),
        ret(call("f", vec![num(1), num(2)])),
    ]);
    test_program(&root, 2);
}

#[test]
fn func_compiler_steps() {
    let mut module = Module::new();
    module.add_function(Function::new("cilk.println.i32".to_string(), false, 1));
    let main = module.add_function(Function::new("main".to_string(), true, 1));
    let body = program(vec![
        var("x"),
        func("f", vec!["p"], vec![]),
        assign("x", bin(BinOp::Add, ident("a"), num(2))),
    ]);
    let params = vec![FormalParameter { name: "a".to_string() }];
    let mut fc = FuncCompiler::new(module, main);
    fc.set_arguments(&params);
    assert_eq!(fc.collect_var_decl(&body), Ok(()));
    assert_eq!(fc.find_func_name(&"f".to_string()), Ok(2));
    assert_eq!(fc.find_func_name(&"h".to_string()), Err(CompileError::UnresolvedCall));
    let sum = Value::Instruction { block: 0, index: 2 };
    assert_eq!(fc.visit(&body), Ok(sum));
    assert_eq!(fc.visit(&ident("a")), Ok(Value::Argument(0)));
    assert_eq!(fc.visit(&num(5)), Ok(Value::Immediate(5)));
    assert_eq!(fc.visit(&Node::Nope), Ok(Value::Nothing));
    let module = fc.get_module();
    assert_eq!(module.functions[2].name, "main.f");
    assert_eq!(module.functions[2].param_count, 1);
    assert_eq!(
        module.functions[1].blocks,
        vec![vec![
            Inst::Alloca,
            Inst::Store(Value::Immediate(0), Value::Instruction { block: 0, index: 0 }),
            Inst::Binary(BinOp::Add, Value::Argument(0), Value::Immediate(2)),
            Inst::Store(sum, Value::Instruction { block: 0, index: 0 }),
        ]]
    );
}

#[test]
fn compile_returns_the_nested_functions() {
    let mut module = Module::new();
    let main = module.add_function(Function::new("main".to_string(), true, 0));
    let body = program(vec![func("f", vec![], vec![]), func("g", vec!["a"], vec![])]);
    let params = vec![];
    let fc = FuncCompiler::new(module, main);
    let (module, found) = match fc.compile(&params, &body) {
        Ok(r) => r,
        Err(e) => panic!("{:?}", e),
    };
    assert_eq!(found.len(), 2);
    assert_eq!(found[0].0, "f");
    assert_eq!(found[0].1.id, 1);
    assert_eq!(found[1].0, "g");
    assert_eq!(found[1].1.id, 2);
    assert_eq!(found[1].1.params.len(), 1);
    assert_eq!(module.functions[0].blocks, vec![vec![Inst::Ret(Value::Immediate(0))]]);
    assert_eq!(module.functions[2].name, "main.g");
    assert!(module.functions[2].blocks.is_empty());
}

#[test]
fn failed_declaration_changes_nothing() {
    let mut module = Module::new();
    let main = module.add_function(Function::new("main".to_string(), true, 0));
    let body = program(vec![
        var("x"),
        func("f", vec![], vec![]),
        func("f", vec![], vec![]),
        var("y"),
    ]);
    let mut fc = FuncCompiler::new(module, main);
    assert_eq!(fc.collect_var_decl(&body), Err(CompileError::DuplicateFunction));
    assert_eq!(fc.find_func_name(&"f".to_string()), Ok(1));
    assert_eq!(fc.visit(&ident("y")), Err(CompileError::UndefinedVariable));
    let again = var("x");
    assert_eq!(fc.collect_var_decl(&again), Err(CompileError::DuplicateVariable));
    let module = fc.get_module();
    let names: Vec<&str> = module.functions.iter().map(|f| f.name.as_str()).collect();
    assert_eq!(names, vec!["main", "main.f"]);
    assert_eq!(module.functions[0].blocks, vec![vec![Inst::Alloca]]);
}

#[test]
fn failed_node_emits_nothing() {
    let mut module = Module::new();
    let main = module.add_function(Function::new("main".to_string(), true, 0));
    let decl = var("x");
    let mut fc = FuncCompiler::new(module, main);
    assert_eq!(fc.collect_var_decl(&decl), Ok(()));
    assert_eq!(fc.visit(&Node::Text("t".to_string())), Err(CompileError::UnsupportedConstruct));
    assert_eq!(
        fc.visit(&Node::Assign(Box::new(num(1)), Box::new(ident("x")))),
        Err(CompileError::InvalidAssignmentTarget)
    );
    assert_eq!(fc.visit(&assign("y", num(1))), Err(CompileError::UndefinedVariable));
    assert_eq!(fc.visit(&bin(BinOp::Div, ident("x"), num(1))), Err(CompileError::UnsupportedOperator));
    assert_eq!(fc.visit(&call("nowhere", vec![ident("x")])), Err(CompileError::UnresolvedCall));
    let module = fc.get_module();
    assert_eq!(module.functions[0].blocks, vec![vec![Inst::Alloca]]);
    assert!(module.functions[0].call_args.is_empty());
}

#[test]
fn lowering_stops_where_a_part_fails() {
    // x = 1; if (x) { y = 2; }   with y undeclared: the store to x, the
    // condition and the three blocks are there, the store to y is not
    let mut module = Module::new();
    let main = module.add_function(Function::new("main".to_string(), true, 0));
    let body = program(vec![
        var("x"),
        if_else(ident("x"), assign("y", num(2)), Node::Nope),
        assign("x", num(3)),
    ]);
    let mut fc = FuncCompiler::new(module, main);
    assert_eq!(fc.collect_var_decl(&body), Ok(()));
    assert_eq!(fc.visit(&body), Err(CompileError::UndefinedVariable));
    let module = fc.get_module();
    let slot = Value::Instruction { block: 0, index: 0 };
    assert_eq!(
        module.functions[0].blocks,
        vec![
            vec![
                Inst::Alloca,
                Inst::Store(Value::Immediate(0), slot),
                Inst::Load(slot),
                Inst::CondBr(Value::Instruction { block: 0, index: 2 }, 1, 2),
            ],
            vec![],
            vec![],
            vec![],
        ]
    );
}

#[test]
fn block_count_follows_the_constructs() {
    // one block to start with, three for each if and while, four for each for
    let counts = [
        (program(vec![ret(num(1))]), 1),
        (while_program(), 1 + 3),
        (
            program(vec![
                if_else(num(1), Node::While(Box::new(num(0)), Box::new(Node::Nope)), Node::Nope),
                Node::For(
                    Box::new(Node::Nope),
                    Box::new(num(0)),
                    Box::new(Node::Nope),
                    Box::new(if_else(num(1), Node::Nope, Node::Nope)),
                ),
            ]),
            1 + 3 + 3 + 4 + 3,
        ),
    ];
    for (root, expected) in counts {
        let module = compile(&root);
        assert_eq!(module.functions[1].blocks.len(), expected);
    }
    // the blocks of a nested function are its own
    let module = compile(&prime_program());
    assert_eq!(module.functions[find(&module, "main")].blocks.len(), 1 + 4 + 3);
    assert_eq!(module.functions[find(&module, "main.prime")].blocks.len(), 1 + 3 + 3 + 4 + 3);
}

#[test]
fn order_of_declarations_does_not_change_the_tables() {
    let forward = program(vec![var("a"), func("f", vec![], vec![]), var("b")]);
    let backward = program(vec![var("b"), func("f", vec![], vec![]), var("a")]);
    for body in [&forward, &backward] {
        let mut module = Module::new();
        let main = module.add_function(Function::new("main".to_string(), true, 0));
        let mut fc = FuncCompiler::new(module, main);
        assert_eq!(fc.collect_var_decl(body), Ok(()));
        assert!(fc.visit(&ident("a")).is_ok());
        assert!(fc.visit(&ident("b")).is_ok());
        assert_eq!(fc.find_func_name(&"f".to_string()), Ok(1));
        assert_eq!(fc.visit(&ident("c")), Err(CompileError::UndefinedVariable));
        assert_eq!(fc.get_module().functions[1].name, "main.f");
    }
}
