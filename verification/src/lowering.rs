use crate::error::CompileError;
use crate::ir::{declared, first_named, FunctionModel, Inst, Value};
use crate::node::{clamp_i32, BinOp, FormalParameter, Node};
use crate::resolve::{ancestor_name, qualified_name};
use crate::table::last_index;
use vstd::prelude::*;

verus! {

/// A function that hoisting found and that waits to be compiled: its
/// identity in the module, its formal parameters and its body.
#[derive(Clone, Copy, Debug)]
pub struct PendingFunction<'a> {
    pub id: usize,
    pub params: &'a Vec<FormalParameter>,
    pub body: &'a Node,
}

/// The state of compiling one function, as a mathematical value: the
/// module's functions, the function being compiled, its three symbol tables,
/// and the code emitted so far.
pub struct Lowering<'a> {
    pub functions: Seq<FunctionModel>,
    pub function_id: usize,
    pub function_name: Seq<char>,
    /// Local variables, each with its stack slot.
    pub variables: Seq<(String, Value)>,
    /// Parameters, each with its position.
    pub arguments: Seq<(String, usize)>,
    /// Functions declared directly inside this one.
    pub pending: Seq<(String, PendingFunction<'a>)>,
    pub blocks: Seq<Seq<Inst>>,
    pub call_args: Seq<Value>,
    /// The block that takes the next instruction.
    pub insert_block: usize,
}

/// The name of the built-in that prints one integer.
pub open spec fn print_function_name() -> Seq<char> {
    "cilk.println.i32"@
}

/// The name of the implicit entry function.
pub open spec fn entry_function_name() -> Seq<char> {
    "main"@
}

/// Whether the lowering has an instruction for the operator.
pub open spec fn supported_operator(op: BinOp) -> bool {
    op == BinOp::Add || op == BinOp::Sub || op == BinOp::Mul || op == BinOp::Rem || op == BinOp::Eq
        || op == BinOp::Le
}

/// The argument table that `params` gives: each name with its position.
pub open spec fn argument_slots(params: Seq<FormalParameter>) -> Seq<(String, usize)> {
    Seq::new(params.len(), |i: int| (params[i].name, i as usize))
}

/// Whether the instruction ends a basic block: a branch or a return.
pub open spec fn is_terminator(inst: Inst) -> bool {
    inst is Br || inst is CondBr || inst is Ret
}

/// Whether the block ends in a branch or a return.
pub open spec fn closed(block: Seq<Inst>) -> bool {
    block.len() > 0 && is_terminator(block.last())
}

/// Whether every function of the table has an identity below `count`.
pub open spec fn all_declared<'a>(pending: Seq<(String, PendingFunction<'a>)>, count: nat) -> bool {
    forall|i: int| 0 <= i < pending.len() ==> (#[trigger] pending[i]).1.id < count
}

impl<'a> Lowering<'a> {
    /// The function being compiled is one of the module under its name, the
    /// insertion point is one of its blocks, and every waiting function is
    /// declared in the module.
    pub open spec fn wf(self) -> bool {
        &&& self.function_id < self.functions.len()
        &&& self.functions[self.function_id as int].name == self.function_name
        &&& self.insert_block < self.blocks.len()
        &&& all_declared(self.pending, self.functions.len())
    }

    /// What hoisting leaves alone from `earlier` to this state: it stays
    /// with its function, appends no block and stays in the block it was in,
    /// and it gives no function of the module any code.
    pub open spec fn keeps_blocks(self, earlier: Lowering<'a>) -> bool {
        &&& self.function_id == earlier.function_id
        &&& self.blocks.len() == earlier.blocks.len()
        &&& self.insert_block == earlier.insert_block
        &&& wired(earlier.blocks) ==> wired(self.blocks)
        &&& module_closed(earlier.functions) ==> module_closed(self.functions)
    }

    /// Whether two states have the same module, function and symbol tables,
    /// so that they differ in the emitted code at most.
    pub open spec fn same_scope(self, other: Lowering<'a>) -> bool {
        &&& self.functions == other.functions
        &&& self.function_id == other.function_id
        &&& self.function_name == other.function_name
        &&& self.variables == other.variables
        &&& self.arguments == other.arguments
        &&& self.pending == other.pending
    }

    /// Whether this state comes after `earlier` in lowering one function:
    /// the same scope, and the blocks have grown in order.
    pub open spec fn continues(self, earlier: Lowering<'a>) -> bool {
        &&& self.same_scope(earlier)
        &&& earlier.blocks.len() <= self.blocks.len()
        &&& self.grown_from(earlier)
        &&& wired(earlier.blocks) ==> wired(self.blocks)
    }

    /// How emitted code grows from an earlier state to this one, while the
    /// blocks in `waiting` are appended and not yet entered. No block goes,
    /// and the blocks that were there stay as they were, but for the one
    /// that was being filled. That one is still being filled, or ends in a
    /// terminator. Every block that came new ends in a terminator, but for
    /// the one that is being filled now and those that wait.
    #[verifier::opaque]
    pub open spec fn grown_with(self, earlier: Lowering<'a>, waiting: Set<int>) -> bool {
        &&& earlier.blocks.len() <= self.blocks.len()
        &&& earlier.insert_block < earlier.blocks.len()
        &&& self.insert_block < self.blocks.len()
        &&& forall|b: int|
            0 <= b < earlier.blocks.len() && b != earlier.insert_block ==> #[trigger] self.blocks[b]
                == earlier.blocks[b]
        &&& self.insert_block == earlier.insert_block || (self.insert_block >= earlier.blocks.len()
            && closed(self.blocks[earlier.insert_block as int]))
        &&& forall|b: int|
            earlier.blocks.len() <= b < self.blocks.len() && b != self.insert_block
                && !waiting.contains(b) ==> closed(#[trigger] self.blocks[b])
        &&& forall|b: int| #[trigger]
            waiting.contains(b) ==> earlier.blocks.len() <= b < self.blocks.len() && b
                != self.insert_block
    }

    /// How emitted code grows from an earlier state to this one, when no
    /// block waits: every block that came new ends in a terminator, but for
    /// the one that is being filled now.
    pub open spec fn grown_from(self, earlier: Lowering<'a>) -> bool {
        self.grown_with(earlier, Set::empty())
    }

    /// Where compiling the function `function_id` of `functions` starts:
    /// empty tables, and one empty entry block to insert into.
    pub open spec fn start(functions: Seq<FunctionModel>, function_id: usize) -> Lowering<'a> {
        Lowering {
            functions,
            function_id,
            function_name: functions[function_id as int].name,
            variables: Seq::empty(),
            arguments: Seq::empty(),
            pending: Seq::empty(),
            blocks: seq![Seq::<Inst>::empty()],
            call_args: Seq::empty(),
            insert_block: 0,
        }
    }

    /// The handle of the instruction that is emitted next.
    pub open spec fn next_value(self) -> Value {
        Value::Instruction {
            block: self.insert_block,
            index: self.blocks[self.insert_block as int].len() as usize,
        }
    }

    /// Appends `inst` to the block at the insertion point.
    pub open spec fn emit(self, inst: Inst) -> Lowering<'a> {
        Lowering {
            blocks: self.blocks.update(
                self.insert_block as int,
                self.blocks[self.insert_block as int].push(inst),
            ),
            ..self
        }
    }

    /// The identity of the block that is appended next.
    pub open spec fn next_block(self) -> usize {
        self.blocks.len() as usize
    }

    /// Appends an empty block.
    pub open spec fn append_block(self) -> Lowering<'a> {
        Lowering { blocks: self.blocks.push(Seq::empty()), ..self }
    }

    /// Moves the insertion point to the end of `block`.
    pub open spec fn at(self, block: usize) -> Lowering<'a> {
        Lowering { insert_block: block, ..self }
    }

    /// Gives the parameters their slots.
    pub open spec fn with_arguments(self, params: Seq<FormalParameter>) -> Lowering<'a> {
        Lowering { arguments: self.arguments + argument_slots(params), ..self }
    }

    /// Reserves a stack slot at the insertion point and records it under
    /// `name`.
    pub open spec fn declare_variable(self, name: String) -> Lowering<'a> {
        Lowering { variables: self.variables.push((name, self.next_value())), ..self.emit(Inst::Alloca) }
    }

    /// Declares a nested function in the module, under its qualified name
    /// and with one integer per parameter and an integer result, and records
    /// it under its simple name as waiting.
    pub open spec fn declare_function(
        self,
        name: String,
        params: &'a Vec<FormalParameter>,
        body: &'a Node,
    ) -> Lowering<'a> {
        Lowering {
            functions: self.functions.push(
                declared(qualified_name(self.function_name, name@), params.len(), true),
            ),
            pending: self.pending.push(
                (name, PendingFunction { id: self.functions.len() as usize, params, body }),
            ),
            ..self
        }
    }

    /// Emits a call of the function `callee` on `args`, which are added to
    /// the function's list of call arguments.
    pub open spec fn emit_call(self, callee: usize, args: Seq<Value>) -> Lowering<'a> {
        Lowering { call_args: self.call_args + args, ..self }.emit(
            Inst::Call {
                callee: Value::Function(callee),
                first_arg: self.call_args.len() as usize,
                arg_count: args.len() as usize,
            },
        )
    }

    /// The module once the emitted code is stored in the function that was
    /// compiled.
    pub open spec fn finish(self) -> Seq<FunctionModel> {
        self.functions.update(
            self.function_id as int,
            FunctionModel {
                blocks: self.blocks,
                call_args: self.call_args,
                ..self.functions[self.function_id as int]
            },
        )
    }

    /// The function that a call of `name` from here goes to: one declared
    /// directly inside this function, else the innermost enclosing function
    /// (this one included) that is itself called `name`, looked up in the
    /// module by its qualified name.
    pub open spec fn resolve_call(self, name: Seq<char>) -> Result<usize, CompileError> {
        let local = last_index(self.pending, name);
        if local >= 0 {
            Ok(self.pending[local].1.id)
        } else {
            match ancestor_name(self.function_name, name) {
                None => Err(CompileError::UnresolvedCall),
                Some(full) => {
                    let id = first_named(self.functions, full);
                    if id >= 0 {
                        Ok(id as usize)
                    } else {
                        Err(CompileError::UnresolvedCall)
                    }
                },
            }
        }
    }

    /// The function that the callee of a call stands for: an identifier is
    /// resolved as a name; `console.log` is the print built-in; nothing else
    /// can be called.
    pub open spec fn resolve_callee(self, callee: &Node) -> Result<usize, CompileError> {
        match callee {
            Node::Identifier(name) => self.resolve_call(name@),
            Node::Member(object, property) => {
                if is_console(object) && property@ == "log"@ {
                    let id = first_named(self.functions, print_function_name());
                    if id >= 0 {
                        Ok(id as usize)
                    } else {
                        Err(CompileError::UnresolvedCall)
                    }
                } else {
                    Err(CompileError::UnsupportedCallee)
                }
            },
            _ => Err(CompileError::UnsupportedCallee),
        }
    }

    /// The slot of the local variable `name`.
    pub open spec fn variable(self, name: Seq<char>) -> Result<Value, CompileError> {
        let i = last_index(self.variables, name);
        if i >= 0 {
            Ok(self.variables[i].1)
        } else {
            Err(CompileError::UndefinedVariable)
        }
    }
}

/// Whether the node is the identifier `console`.
pub open spec fn is_console(node: &Node) -> bool {
    match node {
        Node::Identifier(name) => name@ == "console"@,
        _ => false,
    }
}

/// Hoisting: records every variable and every nested function that `node`
/// declares outside nested function bodies. It goes through statement lists,
/// blocks, the branches of `if`, the body of `while` and the four parts of
/// `for`, and stops at the first name declared twice. The outcome is the
/// state reached and, where it stopped, the error: the declaration that
/// fails leaves the state as it found it.
pub open spec fn hoist_outcome<'a>(node: &'a Node, st: Lowering<'a>) -> (
    Lowering<'a>,
    Option<CompileError>,
)
    decreases node, 0nat,
{
    match node {
        Node::StatementList(nodes) => hoist_list_outcome(nodes, nodes.len() as nat, st),
        Node::Block(nodes) => hoist_list_outcome(nodes, nodes.len() as nat, st),
        Node::VarDecl(name, _) => {
            if last_index(st.variables, name@) >= 0 {
                (st, Some(CompileError::DuplicateVariable))
            } else {
                (st.declare_variable(*name), None)
            }
        },
        Node::If(_, then_part, else_part) => match hoist_outcome(then_part, st) {
            (s1, None) => hoist_outcome(else_part, s1),
            stopped => stopped,
        },
        Node::While(_, body) => hoist_outcome(body, st),
        Node::For(init, cond, step, body) => match hoist_outcome(init, st) {
            (s1, None) => match hoist_outcome(cond, s1) {
                (s2, None) => match hoist_outcome(step, s2) {
                    (s3, None) => hoist_outcome(body, s3),
                    stopped => stopped,
                },
                stopped => stopped,
            },
            stopped => stopped,
        },
        Node::FunctionDecl(name, params, body) => {
            if last_index(st.pending, name@) >= 0 {
                (st, Some(CompileError::DuplicateFunction))
            } else {
                (st.declare_function(*name, params, body), None)
            }
        },
        _ => (st, None),
    }
}

/// Hoisting over the first `n` nodes of a list, in order: it stops at the
/// first node that fails, in the state that this node left.
pub open spec fn hoist_list_outcome<'a>(nodes: &'a Vec<Node>, n: nat, st: Lowering<'a>) -> (
    Lowering<'a>,
    Option<CompileError>,
)
    decreases nodes, n,
{
    if n == 0 || n > nodes.len() {
        (st, None)
    } else {
        match hoist_list_outcome(nodes, (n - 1) as nat, st) {
            (s1, None) => hoist_outcome(&nodes[n - 1], s1),
            stopped => stopped,
        }
    }
}

/// The outcome of hoisting as a result: the state where all went well, else
/// the error.
pub open spec fn hoisted<'a>(outcome: (Lowering<'a>, Option<CompileError>)) -> Result<
    Lowering<'a>,
    CompileError,
> {
    match outcome.1 {
        None => Ok(outcome.0),
        Some(e) => Err(e),
    }
}

/// Hoisting of `node`: the state with every declaration recorded, or the
/// duplicate error.
pub open spec fn hoist_spec<'a>(node: &'a Node, st: Lowering<'a>) -> Result<Lowering<'a>, CompileError> {
    hoisted(hoist_outcome(node, st))
}

/// Hoisting of the first `n` nodes of a list.
pub open spec fn hoist_list_spec<'a>(nodes: &'a Vec<Node>, n: nat, st: Lowering<'a>) -> Result<
    Lowering<'a>,
    CompileError,
> {
    hoisted(hoist_list_outcome(nodes, n, st))
}

/// Lowering: the state after the code for `node` is emitted, and the value
/// of the node. Where a part of the node fails, lowering stops there: the
/// outcome is the state reached, with what was emitted until then, and the
/// error. A node that fails by itself emits nothing.
pub open spec fn lower_outcome<'a>(node: &Node, st: Lowering<'a>) -> (
    Lowering<'a>,
    Result<Value, CompileError>,
)
    decreases node, 0nat,
{
    match node {
        Node::StatementList(nodes) => lower_list_outcome(nodes, nodes.len() as nat, st),
        Node::Block(nodes) => lower_list_outcome(nodes, nodes.len() as nat, st),
        Node::BinaryOp(lhs, rhs, op) => {
            if !supported_operator(*op) {
                (st, Err(CompileError::UnsupportedOperator))
            } else {
                match lower_outcome(lhs, st) {
                    (s1, Err(e)) => (s1, Err(e)),
                    (s1, Ok(left)) => match lower_outcome(rhs, s1) {
                        (s2, Err(e)) => (s2, Err(e)),
                        (s2, Ok(right)) => (
                            s2.emit(Inst::Binary(*op, left, right)),
                            Ok(s2.next_value()),
                        ),
                    },
                }
            }
        },
        Node::Assign(target, value) => match &**target {
            Node::Identifier(name) => match lower_outcome(value, st) {
                (s1, Err(e)) => (s1, Err(e)),
                (s1, Ok(v)) => store_outcome(s1, name@, v, v),
            },
            _ => (st, Err(CompileError::InvalidAssignmentTarget)),
        },
        Node::If(cond, then_part, else_part) => match lower_outcome(cond, st) {
            (s1, Err(e)) => (s1, Err(e)),
            (s1, Ok(c)) => {
                let then_block = s1.next_block();
                let s2 = s1.append_block();
                let else_block = s2.next_block();
                let s3 = s2.append_block();
                let cont_block = s3.next_block();
                let s4 = s3.append_block().emit(Inst::CondBr(c, then_block, else_block)).at(
                    then_block,
                );
                match lower_outcome(then_part, s4) {
                    (s5, Err(e)) => (s5, Err(e)),
                    (s5, Ok(_)) => match lower_outcome(
                        else_part,
                        s5.emit(Inst::Br(cont_block)).at(else_block),
                    ) {
                        (s6, Err(e)) => (s6, Err(e)),
                        (s6, Ok(_)) => (
                            s6.emit(Inst::Br(cont_block)).at(cont_block),
                            Ok(Value::Nothing),
                        ),
                    },
                }
            },
        },
        Node::While(cond, body) => {
            let cond_block = st.next_block();
            let s1 = st.append_block();
            let body_block = s1.next_block();
            let s2 = s1.append_block();
            let cont_block = s2.next_block();
            let s3 = s2.append_block().emit(Inst::Br(cond_block)).at(cond_block);
            match lower_outcome(cond, s3) {
                (s4, Err(e)) => (s4, Err(e)),
                (s4, Ok(c)) => match lower_outcome(
                    body,
                    s4.emit(Inst::CondBr(c, body_block, cont_block)).at(body_block),
                ) {
                    (s5, Err(e)) => (s5, Err(e)),
                    (s5, Ok(_)) => (
                        s5.emit(Inst::Br(cond_block)).at(cont_block),
                        Ok(Value::Nothing),
                    ),
                },
            }
        },
        Node::For(init, cond, step, body) => {
            let init_block = st.next_block();
            let s1 = st.append_block();
            let cond_block = s1.next_block();
            let s2 = s1.append_block();
            let body_block = s2.next_block();
            let s3 = s2.append_block();
            let cont_block = s3.next_block();
            let s4 = s3.append_block().emit(Inst::Br(init_block)).at(init_block);
            match lower_outcome(init, s4) {
                (s5, Err(e)) => (s5, Err(e)),
                (s5, Ok(_)) => match lower_outcome(
                    cond,
                    s5.emit(Inst::Br(cond_block)).at(cond_block),
                ) {
                    (s6, Err(e)) => (s6, Err(e)),
                    (s6, Ok(c)) => match lower_outcome(
                        body,
                        s6.emit(Inst::CondBr(c, body_block, cont_block)).at(body_block),
                    ) {
                        (s7, Err(e)) => (s7, Err(e)),
                        (s7, Ok(_)) => match lower_outcome(step, s7) {
                            (s8, Err(e)) => (s8, Err(e)),
                            (s8, Ok(_)) => (
                                s8.emit(Inst::Br(cond_block)).at(cont_block),
                                Ok(Value::Nothing),
                            ),
                        },
                    },
                },
            }
        },
        Node::VarDecl(name, init) => {
            let initial = match init {
                Some(value) => lower_outcome(value, st),
                None => (st, Ok(Value::Immediate(0))),
            };
            match initial {
                (s1, Err(e)) => (s1, Err(e)),
                (s1, Ok(v)) => store_outcome(s1, name@, v, Value::Nothing),
            }
        },
        Node::FunctionDecl(_, _, _) => (st, Ok(Value::Nothing)),
        Node::Call(callee, args) => match st.resolve_callee(callee) {
            Err(e) => (st, Err(e)),
            Ok(id) => match lower_args_outcome(args, args.len() as nat, st) {
                (s1, Err(e)) => (s1, Err(e)),
                (s1, Ok(values)) => (s1.emit_call(id, values), Ok(s1.next_value())),
            },
        },
        Node::Return(value) => {
            let returned = match value {
                Some(value) => lower_outcome(value, st),
                None => (st, Ok(Value::Nothing)),
            };
            match returned {
                (s1, Err(e)) => (s1, Err(e)),
                (s1, Ok(v)) => (s1.emit(Inst::Ret(v)), Ok(Value::Nothing)),
            }
        },
        Node::Identifier(name) => {
            let a = last_index(st.arguments, name@);
            if a >= 0 {
                (st, Ok(Value::Argument(st.arguments[a].1)))
            } else {
                match st.variable(name@) {
                    Err(e) => (st, Err(e)),
                    Ok(slot) => (st.emit(Inst::Load(slot)), Ok(st.next_value())),
                }
            }
        },
        Node::Number(x) => (st, Ok(Value::Immediate(clamp_i32(*x)))),
        Node::Nope => (st, Ok(Value::Nothing)),
        _ => (st, Err(CompileError::UnsupportedConstruct)),
    }
}

/// Storing `v` in the local variable `name`: one store instruction, and
/// `value` as the value of the node; for a name that is no local variable,
/// the error and no instruction.
pub open spec fn store_outcome<'a>(st: Lowering<'a>, name: Seq<char>, v: Value, value: Value) -> (
    Lowering<'a>,
    Result<Value, CompileError>,
) {
    match st.variable(name) {
        Err(e) => (st, Err(e)),
        Ok(slot) => (st.emit(Inst::Store(v, slot)), Ok(value)),
    }
}

/// Lowering of the first `n` nodes of a list, in order; the value is that of
/// the last one, or nothing for none. It stops at the first node that
/// fails.
pub open spec fn lower_list_outcome<'a>(nodes: &Vec<Node>, n: nat, st: Lowering<'a>) -> (
    Lowering<'a>,
    Result<Value, CompileError>,
)
    decreases nodes, n,
{
    if n == 0 || n > nodes.len() {
        (st, Ok(Value::Nothing))
    } else {
        match lower_list_outcome(nodes, (n - 1) as nat, st) {
            (s1, Ok(_)) => lower_outcome(&nodes[n - 1], s1),
            stopped => stopped,
        }
    }
}

/// Lowering of the first `n` arguments of a call, left to right, into the
/// list of their values. It stops at the first argument that fails.
pub open spec fn lower_args_outcome<'a>(nodes: &Vec<Node>, n: nat, st: Lowering<'a>) -> (
    Lowering<'a>,
    Result<Seq<Value>, CompileError>,
)
    decreases nodes, n,
{
    if n == 0 || n > nodes.len() {
        (st, Ok(Seq::empty()))
    } else {
        match lower_args_outcome(nodes, (n - 1) as nat, st) {
            (s1, Ok(values)) => match lower_outcome(&nodes[n - 1], s1) {
                (s2, Ok(v)) => (s2, Ok(values.push(v))),
                (s2, Err(e)) => (s2, Err(e)),
            },
            stopped => stopped,
        }
    }
}

/// Lowering of `node` as a result: the state and the value where all went
/// well, else the error.
pub open spec fn lower_spec<'a>(node: &Node, st: Lowering<'a>) -> Result<(Lowering<'a>, Value), CompileError> {
    match lower_outcome(node, st) {
        (s1, Ok(v)) => Ok((s1, v)),
        (_, Err(e)) => Err(e),
    }
}

/// Every block ends in a branch or a return.
pub open spec fn all_closed(blocks: Seq<Seq<Inst>>) -> bool {
    forall|b: int| 0 <= b < blocks.len() ==> closed(#[trigger] blocks[b])
}

/// Whether a branch goes to one of the first `count` blocks; other
/// instructions go nowhere.
pub open spec fn targets_within(inst: Inst, count: nat) -> bool {
    match inst {
        Inst::Br(target) => target < count,
        Inst::CondBr(_, yes, no) => yes < count && no < count,
        _ => true,
    }
}

/// Every branch goes to a block that exists.
pub open spec fn wired(blocks: Seq<Seq<Inst>>) -> bool {
    forall|b: int, i: int|
        0 <= b < blocks.len() && 0 <= i < blocks[b].len() ==> targets_within(
            #[trigger] blocks[b][i],
            blocks.len(),
        )
}

/// Every block of every function ends in a branch or a return, and every
/// branch goes to a block of its function. (A function that is declared and
/// not compiled has no block.)
pub open spec fn module_closed(functions: Seq<FunctionModel>) -> bool {
    forall|f: int|
        0 <= f < functions.len() ==> all_closed(#[trigger] functions[f].blocks) && wired(
            functions[f].blocks,
        )
}

/// A state has grown from itself.
pub proof fn lemma_grown_start<'a>(st: Lowering<'a>)
    requires
        st.insert_block < st.blocks.len(),
    ensures
        st.grown_from(st),
{
    reveal(Lowering::grown_with);
}

/// Code that has grown from a single block, and whose current block ends
/// in a terminator, has no block without one.
pub proof fn lemma_grown_closed<'a>(st: Lowering<'a>, earlier: Lowering<'a>)
    requires
        st.grown_from(earlier),
        earlier.blocks.len() == 1,
        closed(st.blocks[st.insert_block as int]),
    ensures
        all_closed(st.blocks),
{
    reveal(Lowering::grown_with);
}

/// Growth composes: what has grown from `a` to `b`, with some blocks
/// waiting, and then from `b` to `c`, has grown from `a` to `c` with the
/// same blocks waiting.
pub proof fn lemma_grown_step<'a>(b: Lowering<'a>, c: Lowering<'a>)
    requires
        c.grown_from(b),
    ensures
        forall|a: Lowering<'a>, waiting: Set<int>| #[trigger]
            b.grown_with(a, waiting) ==> c.grown_with(a, waiting),
{
    reveal(Lowering::grown_with);
    assert forall|a: Lowering<'a>, waiting: Set<int>| #[trigger]
        b.grown_with(a, waiting) implies c.grown_with(a, waiting) by {
        assert forall|k: int| 0 <= k < a.blocks.len() && k != a.insert_block implies #[trigger] c.blocks[k]
            == a.blocks[k] by {
            assert(b.blocks[k] == a.blocks[k]);
        }
        if c.insert_block != a.insert_block {
            if b.insert_block != a.insert_block {
                assert(c.blocks[a.insert_block as int] == b.blocks[a.insert_block as int]);
            }
        }
        assert forall|k: int|
            a.blocks.len() <= k < c.blocks.len() && k != c.insert_block && !waiting.contains(
                k,
            ) implies closed(#[trigger] c.blocks[k]) by {
            if k < b.blocks.len() && k != b.insert_block {
                assert(c.blocks[k] == b.blocks[k]);
            }
        }
    }
}

/// The number of blocks that lowering `node` appends: three for each `if`
/// and each `while`, four for each `for`, wherever lowering comes by one. It
/// does not enter the body of a nested function.
pub open spec fn block_count(node: &Node) -> nat
    decreases node, 0nat,
{
    match node {
        Node::StatementList(nodes) => list_block_count(nodes, nodes.len() as nat),
        Node::Block(nodes) => list_block_count(nodes, nodes.len() as nat),
        Node::BinaryOp(lhs, rhs, _) => block_count(lhs) + block_count(rhs),
        Node::Assign(_, value) => block_count(value),
        Node::If(cond, then_part, else_part) => 3 + block_count(cond) + block_count(then_part)
            + block_count(else_part),
        Node::While(cond, body) => 3 + block_count(cond) + block_count(body),
        Node::For(init, cond, step, body) => 4 + block_count(init) + block_count(cond)
            + block_count(step) + block_count(body),
        Node::VarDecl(_, init) => match init {
            Some(value) => block_count(value),
            None => 0,
        },
        Node::Call(_, args) => list_block_count(args, args.len() as nat),
        Node::Return(value) => match value {
            Some(value) => block_count(value),
            None => 0,
        },
        _ => 0,
    }
}

/// The blocks that lowering the first `n` nodes of a list appends.
pub open spec fn list_block_count(nodes: &Vec<Node>, n: nat) -> nat
    decreases nodes, n,
{
    if n == 0 || n > nodes.len() {
        0
    } else {
        list_block_count(nodes, (n - 1) as nat) + block_count(&nodes[n - 1])
    }
}

/// What a lowering function owes for an outcome: the state `after` and the
/// result `r` are that outcome. The state is well-formed and in the same
/// scope as `before`, and no block has gone, whether lowering succeeded or
/// stopped at an error; where it succeeded, the blocks have grown in order.
pub open spec fn lowered_to<'a>(
    outcome: (Lowering<'a>, Result<Value, CompileError>),
    before: Lowering<'a>,
    after: Lowering<'a>,
    r: Result<Value, CompileError>,
) -> bool {
    &&& (after, r) == outcome
    &&& after.wf()
    &&& after.same_scope(before)
    &&& before.blocks.len() <= after.blocks.len()
    &&& r is Ok ==> after.continues(before)
}

/// What lowering `node` owes: the outcome of `lower_outcome`; and where it
/// succeeds, the node has appended as many blocks as `block_count` says.
pub open spec fn lowered<'a>(
    node: &Node,
    before: Lowering<'a>,
    after: Lowering<'a>,
    r: Result<Value, CompileError>,
) -> bool {
    &&& lowered_to(lower_outcome(node, before), before, after, r)
    &&& r is Ok ==> after.blocks.len() == before.blocks.len() + block_count(node)
}

/// What a hoisting function owes for an outcome: the state `after` is the
/// state of the outcome, and `r` is its error or success. Whether hoisting
/// succeeded or stopped, the state is well-formed, the module has lost no
/// function, and no block was appended.
pub open spec fn hoisted_to<'a>(
    outcome: (Lowering<'a>, Option<CompileError>),
    before: Lowering<'a>,
    after: Lowering<'a>,
    r: Result<(), CompileError>,
) -> bool {
    &&& after == outcome.0
    &&& match outcome.1 {
        None => r is Ok,
        Some(e) => r == Err::<(), CompileError>(e),
    }
    &&& after.wf()
    &&& before.functions.len() <= after.functions.len()
    &&& after.keeps_blocks(before)
}

/// Once a prefix of a list has stopped hoisting, every longer prefix has
/// the same outcome.
pub proof fn lemma_hoist_list_stopped<'a>(nodes: &'a Vec<Node>, m: nat, n: nat, st: Lowering<'a>)
    requires
        m <= n <= nodes.len(),
        hoist_list_outcome(nodes, m, st).1 is Some,
    ensures
        hoist_list_outcome(nodes, n, st) == hoist_list_outcome(nodes, m, st),
    decreases n,
{
    if m < n {
        lemma_hoist_list_stopped(nodes, m, (n - 1) as nat, st);
    }
}

/// Once a prefix of a list has stopped lowering, every longer prefix has
/// the same outcome.
pub proof fn lemma_lower_list_stopped<'a>(nodes: &Vec<Node>, m: nat, n: nat, st: Lowering<'a>)
    requires
        m <= n <= nodes.len(),
        lower_list_outcome(nodes, m, st).1 is Err,
    ensures
        lower_list_outcome(nodes, n, st) == lower_list_outcome(nodes, m, st),
    decreases n,
{
    if m < n {
        lemma_lower_list_stopped(nodes, m, (n - 1) as nat, st);
    }
}

/// Once a prefix of an argument list has stopped lowering, every longer
/// prefix has the same outcome.
pub proof fn lemma_lower_args_stopped<'a>(nodes: &Vec<Node>, m: nat, n: nat, st: Lowering<'a>)
    requires
        m <= n <= nodes.len(),
        lower_args_outcome(nodes, m, st).1 is Err,
    ensures
        lower_args_outcome(nodes, n, st) == lower_args_outcome(nodes, m, st),
    decreases n,
{
    if m < n {
        lemma_lower_args_stopped(nodes, m, (n - 1) as nat, st);
    }
}

/// Compiling one function: the parameters get their slots, the body is
/// hoisted and then lowered, and a final `return 0` closes the code. The
/// result is the module with the code stored, and the nested functions that
/// hoisting found.
pub open spec fn compile_function_spec<'a>(
    start: Lowering<'a>,
    params: Seq<FormalParameter>,
    body: &'a Node,
) -> Result<(Seq<FunctionModel>, Seq<(String, PendingFunction<'a>)>), CompileError> {
    match hoist_spec(body, start.with_arguments(params)) {
        Err(e) => Err(e),
        Ok(hoisted) => match lower_spec(body, hoisted) {
            Err(e) => Err(e),
            Ok((lowered, _)) => Ok(
                (lowered.emit(Inst::Ret(Value::Immediate(0))).finish(), hoisted.pending),
            ),
        },
    }
}

} // verus!
