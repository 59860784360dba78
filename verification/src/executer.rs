use crate::error::CompileError;
use crate::ir::{blocks_view, str_equal, Function, Inst, Module, Value};
use crate::lowering::{
    all_closed, all_declared, argument_slots, closed, compile_function_spec, hoist_list_outcome,
    hoist_outcome, hoisted_to, is_console, is_terminator, lemma_grown_closed, lemma_grown_start,
    lemma_grown_step, lemma_hoist_list_stopped, lemma_lower_args_stopped,
    lemma_lower_list_stopped, block_count, list_block_count, lower_args_outcome, lower_list_outcome, lowered, lowered_to,
    module_closed, supported_operator, targets_within, wired, Lowering, PendingFunction,
};
use crate::node::{number_to_i32, BinOp, FormalParameter, Node};
use crate::resolve::{find_ancestor_name, make_qualified_name};
use crate::table::find_entry;
use vstd::prelude::*;

verus! {

/// Compiles one function: holds the module, the function's symbol tables
/// and the code emitted for it so far.
#[derive(Debug)]
pub struct FuncCompiler<'a> {
    module: Module,
    function_id: usize,
    function_name: String,
    variable_map: Vec<(String, Value)>,
    arguments_map: Vec<(String, usize)>,
    function_map: Vec<(String, PendingFunction<'a>)>,
    blocks: Vec<Vec<Inst>>,
    call_args: Vec<Value>,
    insert_block: usize,
}

impl<'a> View for FuncCompiler<'a> {
    type V = Lowering<'a>;

    closed spec fn view(&self) -> Lowering<'a> {
        Lowering {
            functions: self.module@,
            function_id: self.function_id,
            function_name: self.function_name@,
            variables: self.variable_map@,
            arguments: self.arguments_map@,
            pending: self.function_map@,
            blocks: blocks_view(self.blocks@),
            call_args: self.call_args@,
            insert_block: self.insert_block,
        }
    }
}

/// Whether the node is the identifier `console`.
fn is_console_node(node: &Node) -> (r: bool)
    ensures
        r == is_console(node),
{
    match node {
        Node::Identifier(name) => str_equal(name.as_str(), "console"),
        _ => false,
    }
}

/// Whether the lowering has an instruction for the operator.
fn is_supported_operator(op: BinOp) -> (r: bool)
    ensures
        r == supported_operator(op),
{
    match op {
        BinOp::Add | BinOp::Sub | BinOp::Mul | BinOp::Rem | BinOp::Eq | BinOp::Le => true,
        _ => false,
    }
}

impl<'a> FuncCompiler<'a> {
    /// Starts compiling the function `function_id` of `module`: the tables
    /// are empty and the code is one empty entry block, which takes the
    /// first instructions.
    pub fn new(module: Module, function_id: usize) -> (c: Self)
        requires
            function_id < module@.len(),
        ensures
            c@ == Lowering::start(module@, function_id),
            c@.wf(),
    {
        let function_name = module.functions[function_id].name.clone();
        let mut blocks: Vec<Vec<Inst>> = Vec::new();
        blocks.push(Vec::new());
        let c = FuncCompiler {
            module,
            function_id,
            function_name,
            variable_map: Vec::new(),
            arguments_map: Vec::new(),
            function_map: Vec::new(),
            blocks,
            call_args: Vec::new(),
            insert_block: 0,
        };
        assert(c@.blocks =~~= seq![Seq::<Inst>::empty()]);
        assert(c@ =~= Lowering::start(module@, function_id));
        c
    }

    /// Stores the code emitted so far in the function, and hands out the
    /// module and the table of nested functions.
    fn into_parts(self) -> (r: (Module, Vec<(String, PendingFunction<'a>)>))
        requires
            self@.wf(),
        ensures
            r.0@ == self@.finish(),
            r.1@ == self@.pending,
    {
        let mut module = self.module;
        let name = self.function_name;
        let param_count = module.functions[self.function_id].param_count;
        let returns_value = module.functions[self.function_id].returns_value;
        let f = Function { name, param_count, returns_value, blocks: self.blocks, call_args: self.call_args };
        module.functions[self.function_id] = f;
        assert(module@ =~= self@.finish());
        (module, self.function_map)
    }

    /// Stores the code emitted so far in the function and gives the module
    /// back.
    pub fn get_module(self) -> (m: Module)
        requires
            self@.wf(),
        ensures
            m@ == self@.finish(),
    {
        self.into_parts().0
    }

    /// Gives each parameter its position. A name that occurs twice keeps
    /// the later position.
    pub fn set_arguments(&mut self, params: &Vec<FormalParameter>)
        ensures
            final(self)@ == old(self)@.with_arguments(params@),
    {
        let mut i: usize = 0;
        while i < params.len()
            invariant
                i <= params.len(),
                self@ == (Lowering {
                    arguments: old(self)@.arguments + argument_slots(params@).subrange(0, i as int),
                    ..old(self)@
                }),
            decreases params.len() - i,
        {
            self.arguments_map.push((params[i].name.clone(), i));
            i += 1;
            assert(self@.arguments =~= old(self)@.arguments + argument_slots(params@).subrange(
                0,
                i as int,
            ));
        }
        assert(argument_slots(params@).subrange(0, i as int) =~= argument_slots(params@));
    }

    /// Appends `inst` at the insertion point and returns its handle.
    fn emit(&mut self, inst: Inst) -> (v: Value)
        requires
            old(self)@.wf(),
        ensures
            final(self)@ == old(self)@.emit(inst),
            v == old(self)@.next_value(),
            final(self)@.wf(),
            is_terminator(inst) ==> closed(final(self)@.blocks[final(self)@.insert_block as int]),
            wired(old(self)@.blocks) && targets_within(inst, old(self)@.blocks.len()) ==> wired(
                final(self)@.blocks,
            ),
            forall|a: Lowering<'a>, waiting: Set<int>| #[trigger]
                old(self)@.grown_with(a, waiting) ==> final(self)@.grown_with(a, waiting),
    {
        let index = self.blocks[self.insert_block].len();
        self.blocks[self.insert_block].push(inst);
        assert(self@.blocks =~= old(self)@.emit(inst).blocks);
        proof {
            reveal(Lowering::grown_with);
        }
        Value::Instruction { block: self.insert_block, index }
    }

    /// Appends an empty block and returns its identity.
    fn append_basic_block(&mut self) -> (b: usize)
        requires
            old(self)@.wf(),
        ensures
            final(self)@ == old(self)@.append_block(),
            b == old(self)@.next_block(),
            b as int == old(self)@.blocks.len(),
            b < final(self)@.blocks.len(),
            wired(old(self)@.blocks) ==> wired(final(self)@.blocks),
            final(self)@.wf(),
            forall|a: Lowering<'a>, waiting: Set<int>| #[trigger]
                old(self)@.grown_with(a, waiting) ==> final(self)@.grown_with(
                    a,
                    waiting.insert(b as int),
                ),
    {
        let b = self.blocks.len();
        self.blocks.push(Vec::new());
        assert(self@.blocks =~= old(self)@.append_block().blocks);
        proof {
            reveal(Lowering::grown_with);
        }
        b
    }

    /// Moves the insertion point to the end of `block`.
    fn set_insert_point(&mut self, block: usize)
        requires
            old(self)@.wf(),
            block < old(self)@.blocks.len(),
        ensures
            final(self)@ == old(self)@.at(block),
            final(self)@.wf(),
            forall|a: Lowering<'a>, waiting: Set<int>| #[trigger]
                old(self)@.grown_with(a, waiting) && waiting.contains(block as int) && closed(
                    old(self)@.blocks[old(self)@.insert_block as int],
                ) ==> final(self)@.grown_with(a, waiting.remove(block as int)),
    {
        self.insert_block = block;
        proof {
            reveal(Lowering::grown_with);
        }
    }

    /// The slot of the local variable `name`.
    fn get_variable(&self, name: &String) -> (r: Result<Value, CompileError>)
        ensures
            r == self@.variable(name@),
    {
        match find_entry(&self.variable_map, name) {
            Some(i) => Ok(self.variable_map[i].1),
            None => Err(CompileError::UndefinedVariable),
        }
    }

    /// Resolves the name of a called function.
    pub fn find_func_name(&self, name: &String) -> (r: Result<usize, CompileError>)
        ensures
            r == self@.resolve_call(name@),
    {
        match find_entry(&self.function_map, name) {
            Some(i) => {
                return Ok(self.function_map[i].1.id);
            },
            None => {},
        }
        match find_ancestor_name(self.function_name.as_str(), name.as_str()) {
            None => Err(CompileError::UnresolvedCall),
            Some(full) => match self.module.find_function_by_name(full.as_str()) {
                Some(id) => Ok(id),
                None => Err(CompileError::UnresolvedCall),
            },
        }
    }

    /// Resolves the callee of a call.
    fn find_callee(&self, callee: &Node) -> (r: Result<usize, CompileError>)
        ensures
            r == self@.resolve_callee(callee),
    {
        match callee {
            Node::Identifier(name) => self.find_func_name(name),
            Node::Member(object, property) => {
                if is_console_node(object) && str_equal(property.as_str(), "log") {
                    match self.module.find_function_by_name("cilk.println.i32") {
                        Some(id) => Ok(id),
                        None => Err(CompileError::UnresolvedCall),
                    }
                } else {
                    Err(CompileError::UnsupportedCallee)
                }
            },
            _ => Err(CompileError::UnsupportedCallee),
        }
    }

    /// Hoisting: records the variables and the nested functions that `node`
    /// declares, before any statement is lowered. It stops at the first name
    /// declared twice: that declaration changes nothing, and what was
    /// recorded before it stays.
    pub fn collect_var_decl(&mut self, node: &'a Node) -> (r: Result<(), CompileError>)
        requires
            old(self)@.wf(),
        ensures
            hoisted_to(hoist_outcome(node, old(self)@), old(self)@, final(self)@, r),
        decreases node, 1nat,
    {
        match node {
            Node::StatementList(nodes) => self.collect_list(nodes),
            Node::Block(nodes) => self.collect_list(nodes),
            Node::VarDecl(name, _) => {
                if find_entry(&self.variable_map, name).is_some() {
                    Err(CompileError::DuplicateVariable)
                } else {
                    let slot = self.emit(Inst::Alloca);
                    self.variable_map.push((name.clone(), slot));
                    assert(self@ =~= old(self)@.declare_variable(*name));
                    Ok(())
                }
            },
            Node::If(_, then_part, else_part) => {
                match self.collect_var_decl(then_part) {
                    Err(e) => {
                        return Err(e);
                    },
                    Ok(_) => {},
                }
                self.collect_var_decl(else_part)
            },
            Node::While(_, body) => self.collect_var_decl(body),
            Node::For(init, cond, step, body) => {
                match self.collect_var_decl(init) {
                    Err(e) => {
                        return Err(e);
                    },
                    Ok(_) => {},
                }
                match self.collect_var_decl(cond) {
                    Err(e) => {
                        return Err(e);
                    },
                    Ok(_) => {},
                }
                match self.collect_var_decl(step) {
                    Err(e) => {
                        return Err(e);
                    },
                    Ok(_) => {},
                }
                self.collect_var_decl(body)
            },
            Node::FunctionDecl(name, params, body) => {
                if find_entry(&self.function_map, name).is_some() {
                    Err(CompileError::DuplicateFunction)
                } else {
                    let full = make_qualified_name(&self.function_name, name);
                    let id = self.module.add_function(Function::new(full, true, params.len()));
                    self.function_map.push((name.clone(), PendingFunction { id, params, body }));
                    assert(self@ =~= old(self)@.declare_function(*name, params, body));
                    Ok(())
                }
            },
            _ => Ok(()),
        }
    }

    /// Hoisting over the nodes of a list, in order.
    fn collect_list(&mut self, nodes: &'a Vec<Node>) -> (r: Result<(), CompileError>)
        requires
            old(self)@.wf(),
        ensures
            hoisted_to(
                hoist_list_outcome(nodes, nodes.len() as nat, old(self)@),
                old(self)@,
                final(self)@,
                r,
            ),
        decreases nodes, 0nat,
    {
        let mut i: usize = 0;
        while i < nodes.len()
            invariant
                i <= nodes.len(),
                hoist_list_outcome(nodes, i as nat, old(self)@) == (self@, None::<CompileError>),
                self@.wf(),
                old(self)@.functions.len() <= self@.functions.len(),
                self@.keeps_blocks(old(self)@),
            decreases nodes.len() - i,
        {
            match self.collect_var_decl(&nodes[i]) {
                Err(e) => {
                    proof {
                        lemma_hoist_list_stopped(nodes, (i + 1) as nat, nodes.len() as nat, old(self)@);
                    }
                    return Err(e);
                },
                Ok(_) => {},
            }
            i += 1;
        }
        Ok(())
    }

    /// Lowering: emits the code for `node` and returns the node's value.
    /// The symbol tables and the module's declarations stay as they are.
    /// Where a part of the node fails, lowering stops there: what was
    /// emitted until then stays, and the node that fails emits nothing.
    pub fn visit(&mut self, node: &Node) -> (r: Result<Value, CompileError>)
        requires
            old(self)@.wf(),
        ensures
            lowered(node, old(self)@, final(self)@, r),
        decreases node, 1nat,
    {
        proof {
            lemma_grown_start(old(self)@);
        }
        match node {
            Node::StatementList(nodes) => self.visit_list(nodes),
            Node::Block(nodes) => self.visit_list(nodes),
            Node::BinaryOp(..) => self.visit_binary(node),
            Node::Assign(..) => self.visit_assign(node),
            Node::If(..) => self.visit_if(node),
            Node::While(..) => self.visit_while(node),
            Node::For(..) => self.visit_for(node),
            Node::VarDecl(..) => self.visit_var_decl(node),
            Node::Call(..) => self.visit_call(node),
            Node::Return(..) => self.visit_return(node),
            Node::Identifier(..) => self.visit_identifier(node),
            Node::FunctionDecl(..) => Ok(Value::Nothing),
            Node::Number(x) => Ok(Value::Immediate(number_to_i32(*x))),
            Node::Nope => Ok(Value::Nothing),
            _ => Err(CompileError::UnsupportedConstruct),
        }
    }

    /// Lowers a part of a larger construct. What had grown before it, with
    /// whatever blocks waiting, has grown on.
    fn visit_child(&mut self, node: &Node) -> (r: Result<Value, CompileError>)
        requires
            old(self)@.wf(),
        ensures
            lowered(node, old(self)@, final(self)@, r),
            r is Ok ==> forall|a: Lowering<'a>, waiting: Set<int>| #[trigger]
                old(self)@.grown_with(a, waiting) ==> final(self)@.grown_with(a, waiting),
        decreases node, 2nat,
    {
        let ghost before = self@;
        let r = self.visit(node);
        proof {
            if r is Ok {
                lemma_grown_step(before, self@);
            }
        }
        r
    }

    /// Lowers a binary operation: both operands, left first, then one instruction.
    fn visit_binary(&mut self, node: &Node) -> (r: Result<Value, CompileError>)
        requires
            old(self)@.wf(),
            node is BinaryOp,
        ensures
            lowered(node, old(self)@, final(self)@, r),
        decreases node, 0nat,
    {
        proof {
            lemma_grown_start(old(self)@);
        }
        match node {
            Node::BinaryOp(lhs, rhs, op) => {
                if !is_supported_operator(*op) {
                    return Err(CompileError::UnsupportedOperator);
                }
                let left = match self.visit_child(lhs) {
                    Ok(v) => v,
                    Err(e) => {
                        return Err(e);
                    },
                };
                let right = match self.visit_child(rhs) {
                    Ok(v) => v,
                    Err(e) => {
                        return Err(e);
                    },
                };
                Ok(self.emit(Inst::Binary(*op, left, right)))
            },
            _ => Err(CompileError::UnsupportedConstruct),
        }
    }

    /// Lowers an assignment to a local variable; its value is the stored value.
    fn visit_assign(&mut self, node: &Node) -> (r: Result<Value, CompileError>)
        requires
            old(self)@.wf(),
            node is Assign,
        ensures
            lowered(node, old(self)@, final(self)@, r),
        decreases node, 0nat,
    {
        proof {
            lemma_grown_start(old(self)@);
        }
        match node {
            Node::Assign(target, value) => match &**target {
                Node::Identifier(name) => {
                    let v = match self.visit_child(value) {
                        Ok(v) => v,
                        Err(e) => {
                            return Err(e);
                        },
                    };
                    let slot = match self.get_variable(name) {
                        Ok(slot) => slot,
                        Err(e) => {
                            return Err(e);
                        },
                    };
                    self.emit(Inst::Store(v, slot));
                    Ok(v)
                },
                _ => Err(CompileError::InvalidAssignmentTarget),
            },
            _ => Err(CompileError::UnsupportedConstruct),
        }
    }

    /// Lowers an `if`: the condition, then a block for each branch and one to continue in.
    fn visit_if(&mut self, node: &Node) -> (r: Result<Value, CompileError>)
        requires
            old(self)@.wf(),
            node is If,
        ensures
            lowered(node, old(self)@, final(self)@, r),
        decreases node, 0nat,
    {
        proof {
            lemma_grown_start(old(self)@);
        }
        match node {
            Node::If(cond, then_part, else_part) => {
                let c = match self.visit_child(cond) {
                    Ok(v) => v,
                    Err(e) => {
                        return Err(e);
                    },
                };
                let then_block = self.append_basic_block();
                let else_block = self.append_basic_block();
                let cont_block = self.append_basic_block();
                self.emit(Inst::CondBr(c, then_block, else_block));
                self.set_insert_point(then_block);
                match self.visit_child(then_part) {
                    Ok(_) => {},
                    Err(e) => {
                        return Err(e);
                    },
                }
                self.emit(Inst::Br(cont_block));
                self.set_insert_point(else_block);
                match self.visit_child(else_part) {
                    Ok(_) => {},
                    Err(e) => {
                        return Err(e);
                    },
                }
                self.emit(Inst::Br(cont_block));
                assert(Set::<int>::empty().insert(then_block as int).insert(else_block as int).insert(
                    cont_block as int,
                ).remove(then_block as int).remove(else_block as int).remove(cont_block as int)
                    =~= Set::<int>::empty());
                self.set_insert_point(cont_block);
                Ok(Value::Nothing)
            },
            _ => Err(CompileError::UnsupportedConstruct),
        }
    }

    /// Lowers a `while` loop: a block for the condition, one for the body and one to continue in.
    fn visit_while(&mut self, node: &Node) -> (r: Result<Value, CompileError>)
        requires
            old(self)@.wf(),
            node is While,
        ensures
            lowered(node, old(self)@, final(self)@, r),
        decreases node, 0nat,
    {
        proof {
            lemma_grown_start(old(self)@);
        }
        match node {
            Node::While(cond, body) => {
                let cond_block = self.append_basic_block();
                let body_block = self.append_basic_block();
                let cont_block = self.append_basic_block();
                self.emit(Inst::Br(cond_block));
                self.set_insert_point(cond_block);
                let c = match self.visit_child(cond) {
                    Ok(v) => v,
                    Err(e) => {
                        return Err(e);
                    },
                };
                self.emit(Inst::CondBr(c, body_block, cont_block));
                self.set_insert_point(body_block);
                match self.visit_child(body) {
                    Ok(_) => {},
                    Err(e) => {
                        return Err(e);
                    },
                }
                self.emit(Inst::Br(cond_block));
                assert(Set::<int>::empty().insert(cond_block as int).insert(body_block as int).insert(
                    cont_block as int,
                ).remove(cond_block as int).remove(body_block as int).remove(cont_block as int)
                    =~= Set::<int>::empty());
                self.set_insert_point(cont_block);
                Ok(Value::Nothing)
            },
            _ => Err(CompileError::UnsupportedConstruct),
        }
    }

    /// Lowers a `for` loop: blocks for the init, the condition and the body, and one to continue in.
    fn visit_for(&mut self, node: &Node) -> (r: Result<Value, CompileError>)
        requires
            old(self)@.wf(),
            node is For,
        ensures
            lowered(node, old(self)@, final(self)@, r),
        decreases node, 0nat,
    {
        proof {
            lemma_grown_start(old(self)@);
        }
        match node {
            Node::For(init, cond, step, body) => {
                let init_block = self.append_basic_block();
                let cond_block = self.append_basic_block();
                let body_block = self.append_basic_block();
                let cont_block = self.append_basic_block();
                self.emit(Inst::Br(init_block));
                self.set_insert_point(init_block);
                match self.visit_child(init) {
                    Ok(_) => {},
                    Err(e) => {
                        return Err(e);
                    },
                }
                self.emit(Inst::Br(cond_block));
                self.set_insert_point(cond_block);
                let c = match self.visit_child(cond) {
                    Ok(v) => v,
                    Err(e) => {
                        return Err(e);
                    },
                };
                self.emit(Inst::CondBr(c, body_block, cont_block));
                self.set_insert_point(body_block);
                match self.visit_child(body) {
                    Ok(_) => {},
                    Err(e) => {
                        return Err(e);
                    },
                }
                match self.visit_child(step) {
                    Ok(_) => {},
                    Err(e) => {
                        return Err(e);
                    },
                }
                self.emit(Inst::Br(cond_block));
                assert(Set::<int>::empty().insert(init_block as int).insert(cond_block as int).insert(
                    body_block as int,
                ).insert(cont_block as int).remove(init_block as int).remove(cond_block as int).remove(
                    body_block as int,
                ).remove(cont_block as int) =~= Set::<int>::empty());
                self.set_insert_point(cont_block);
                Ok(Value::Nothing)
            },
            _ => Err(CompileError::UnsupportedConstruct),
        }
    }

    /// Lowers a variable declaration: stores the initial value, or zero, in the variable's slot.
    fn visit_var_decl(&mut self, node: &Node) -> (r: Result<Value, CompileError>)
        requires
            old(self)@.wf(),
            node is VarDecl,
        ensures
            lowered(node, old(self)@, final(self)@, r),
        decreases node, 0nat,
    {
        proof {
            lemma_grown_start(old(self)@);
        }
        match node {
            Node::VarDecl(name, init) => {
                let v = match init {
                    Some(value) => match self.visit_child(value) {
                        Ok(v) => v,
                        Err(e) => {
                            return Err(e);
                        },
                    },
                    None => Value::Immediate(0),
                };
                let slot = match self.get_variable(name) {
                    Ok(slot) => slot,
                    Err(e) => {
                        return Err(e);
                    },
                };
                self.emit(Inst::Store(v, slot));
                Ok(Value::Nothing)
            },
            _ => Err(CompileError::UnsupportedConstruct),
        }
    }

    /// Lowers a call: resolves the callee, lowers the arguments left to right and emits the call.
    fn visit_call(&mut self, node: &Node) -> (r: Result<Value, CompileError>)
        requires
            old(self)@.wf(),
            node is Call,
        ensures
            lowered(node, old(self)@, final(self)@, r),
        decreases node, 0nat,
    {
        proof {
            lemma_grown_start(old(self)@);
        }
        match node {
            Node::Call(callee, args) => {
                let id = match self.find_callee(callee) {
                    Ok(id) => id,
                    Err(e) => {
                        return Err(e);
                    },
                };
                let mut values = match self.visit_args(args) {
                    Ok(values) => values,
                    Err(e) => {
                        return Err(e);
                    },
                };
                let ghost mid = self@;
                let ghost args_view = values@;
                let first_arg = self.call_args.len();
                let arg_count = values.len();
                self.call_args.append(&mut values);
                proof {
                    reveal(Lowering::grown_with);
                }
                let v = self.emit(Inst::Call { callee: Value::Function(id), first_arg, arg_count });
                assert(self@ =~= mid.emit_call(id, args_view));
                Ok(v)
            },
            _ => Err(CompileError::UnsupportedConstruct),
        }
    }

    /// Lowers a `return`.
    fn visit_return(&mut self, node: &Node) -> (r: Result<Value, CompileError>)
        requires
            old(self)@.wf(),
            node is Return,
        ensures
            lowered(node, old(self)@, final(self)@, r),
        decreases node, 0nat,
    {
        proof {
            lemma_grown_start(old(self)@);
        }
        match node {
            Node::Return(value) => {
                let v = match value {
                    Some(value) => match self.visit_child(value) {
                        Ok(v) => v,
                        Err(e) => {
                            return Err(e);
                        },
                    },
                    None => Value::Nothing,
                };
                self.emit(Inst::Ret(v));
                Ok(Value::Nothing)
            },
            _ => Err(CompileError::UnsupportedConstruct),
        }
    }

    /// Lowers a name that is read: a parameter's slot, else a load from the
    /// local's slot.
    fn visit_identifier(&mut self, node: &Node) -> (r: Result<Value, CompileError>)
        requires
            old(self)@.wf(),
            node is Identifier,
        ensures
            lowered(node, old(self)@, final(self)@, r),
        decreases node, 0nat,
    {
        proof {
            lemma_grown_start(old(self)@);
        }
        match node {
            Node::Identifier(name) => {
                match find_entry(&self.arguments_map, name) {
                    Some(i) => {
                        return Ok(Value::Argument(self.arguments_map[i].1));
                    },
                    None => {},
                }
                let slot = match self.get_variable(name) {
                    Ok(slot) => slot,
                    Err(e) => {
                        return Err(e);
                    },
                };
                Ok(self.emit(Inst::Load(slot)))
            },
            _ => Err(CompileError::UnsupportedConstruct),
        }
    }

    /// Lowering of the nodes of a list, in order.
    fn visit_list(&mut self, nodes: &Vec<Node>) -> (r: Result<Value, CompileError>)
        requires
            old(self)@.wf(),
        ensures
            lowered_to(
                lower_list_outcome(nodes, nodes.len() as nat, old(self)@),
                old(self)@,
                final(self)@,
                r,
            ),
            r is Ok ==> final(self)@.blocks.len() == old(self)@.blocks.len() + list_block_count(
                nodes,
                nodes.len() as nat,
            ),
        decreases nodes, 0nat,
    {
        proof {
            lemma_grown_start(old(self)@);
        }
        let mut v = Value::Nothing;
        let mut i: usize = 0;
        while i < nodes.len()
            invariant
                i <= nodes.len(),
                lower_list_outcome(nodes, i as nat, old(self)@) == (self@, Ok::<Value, CompileError>(v)),
                self@.blocks.len() == old(self)@.blocks.len() + list_block_count(nodes, i as nat),
                self@.wf(),
                self@.continues(old(self)@),
            decreases nodes.len() - i,
        {
            match self.visit_child(&nodes[i]) {
                Err(e) => {
                    proof {
                        lemma_lower_list_stopped(nodes, (i + 1) as nat, nodes.len() as nat, old(self)@);
                    }
                    return Err(e);
                },
                Ok(value) => {
                    v = value;
                },
            }
            i += 1;
        }
        Ok(v)
    }

    /// Lowering of the arguments of a call, left to right.
    fn visit_args(&mut self, nodes: &Vec<Node>) -> (r: Result<Vec<Value>, CompileError>)
        requires
            old(self)@.wf(),
        ensures
            final(self)@ == lower_args_outcome(nodes, nodes.len() as nat, old(self)@).0,
            match lower_args_outcome(nodes, nodes.len() as nat, old(self)@).1 {
                Ok(values) => r is Ok && r.unwrap()@ == values && final(self)@.continues(old(self)@),
                Err(e) => r == Err::<Vec<Value>, CompileError>(e),
            },
            final(self)@.wf(),
            final(self)@.same_scope(old(self)@),
            old(self)@.blocks.len() <= final(self)@.blocks.len(),
            r is Ok ==> final(self)@.blocks.len() == old(self)@.blocks.len() + list_block_count(
                nodes,
                nodes.len() as nat,
            ),
        decreases nodes, 0nat,
    {
        proof {
            lemma_grown_start(old(self)@);
        }
        let mut values: Vec<Value> = Vec::new();
        let mut i: usize = 0;
        while i < nodes.len()
            invariant
                i <= nodes.len(),
                lower_args_outcome(nodes, i as nat, old(self)@) == (
                    self@,
                    Ok::<Seq<Value>, CompileError>(values@),
                ),
                self@.blocks.len() == old(self)@.blocks.len() + list_block_count(nodes, i as nat),
                self@.wf(),
                self@.continues(old(self)@),
            decreases nodes.len() - i,
        {
            match self.visit_child(&nodes[i]) {
                Err(e) => {
                    proof {
                        lemma_lower_args_stopped(nodes, (i + 1) as nat, nodes.len() as nat, old(self)@);
                    }
                    return Err(e);
                },
                Ok(value) => {
                    values.push(value);
                },
            }
            i += 1;
        }
        Ok(values)
    }

    /// Compiles the function: gives the parameters their slots, hoists and
    /// lowers the body, and closes the code with `return 0`. Returns the
    /// module, with the code stored in the function, and the nested
    /// functions found, which wait to be compiled: each of them is declared
    /// in the module. The code has the blocks it started with and those
    /// that the body's `if`, `while` and `for` nodes append. Started on a
    /// fresh compiler, every block of the code ends in a branch or a return,
    /// and every branch goes to a block of the function.
    pub fn compile(self, params: &Vec<FormalParameter>, node: &'a Node) -> (r: Result<
        (Module, Vec<(String, PendingFunction<'a>)>),
        CompileError,
    >)
        requires
            self@.wf(),
        ensures
            match compile_function_spec(self@, params@, node) {
                Ok((functions, pending)) => {
                    &&& r is Ok
                    &&& r.unwrap().0@ == functions
                    &&& r.unwrap().1@ == pending
                    &&& self@.functions.len() <= functions.len()
                    &&& all_declared(pending, functions.len())
                    &&& self@.blocks.len() == 1 ==> all_closed(
                        functions[self@.function_id as int].blocks,
                    )
                    &&& functions[self@.function_id as int].blocks.len() == self@.blocks.len()
                        + block_count(node)
                    &&& wired(self@.blocks) ==> wired(functions[self@.function_id as int].blocks)
                    &&& self@.blocks.len() == 1 && wired(self@.blocks) && module_closed(
                        self@.functions,
                    ) ==> module_closed(functions)
                },
                Err(e) => r is Err && r.unwrap_err() == e,
            },
    {
        let mut c = self;
        c.set_arguments(params);
        match c.collect_var_decl(node) {
            Ok(_) => {},
            Err(e) => {
                return Err(e);
            },
        }
        proof {
            lemma_grown_start(c@);
        }
        let ghost hoisted = c@;
        match c.visit(node) {
            Ok(_) => {},
            Err(e) => {
                return Err(e);
            },
        }
        c.emit(Inst::Ret(Value::Immediate(0)));
        proof {
            let done = c@;
            if self@.blocks.len() == 1 {
                lemma_grown_closed(done, hoisted);
                if module_closed(self@.functions) && wired(self@.blocks) {
                    assert(module_closed(done.functions));
                    assert forall|f: int| 0 <= f < done.finish().len() implies all_closed(
                        #[trigger] done.finish()[f].blocks,
                    ) by {
                        if f != done.function_id {
                            assert(done.finish()[f] == done.functions[f]);
                        }
                    }
                }
            }
        }
        Ok(c.into_parts())
    }
}

} // verus!
