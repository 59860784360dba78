use crate::node::BinOp;
use vstd::prelude::*;
use vstd::string::StringExecFns;

verus! {

/// What an instruction takes as an operand or yields.
#[derive(Clone, Copy, Debug, PartialEq, Eq, Structural)]
pub enum Value {
    /// No value: what a statement yields.
    Nothing,
    /// An integer constant.
    Immediate(i32),
    /// A declared function, by its identity in the module.
    Function(usize),
    /// The incoming parameter in the given slot of the current function.
    Argument(usize),
    /// The result of the instruction at `index` of block `block` of the
    /// current function.
    Instruction { block: usize, index: usize },
}

/// One instruction of a basic block.
#[derive(Clone, Copy, Debug, PartialEq, Eq, Structural)]
pub enum Inst {
    /// Reserves one integer stack slot; its result is the slot.
    Alloca,
    /// Reads the slot.
    Load(Value),
    /// Writes the first value into the slot given second.
    Store(Value, Value),
    /// An integer operation or comparison on two values.
    Binary(BinOp, Value, Value),
    /// Jumps to a block.
    Br(usize),
    /// Jumps to the first block where the value is nonzero, else to the
    /// second.
    CondBr(Value, usize, usize),
    /// Calls `callee` with the `arg_count` values that start at `first_arg`
    /// in the function's list of call arguments.
    Call { callee: Value, first_arg: usize, arg_count: usize },
    /// Returns the value from the function.
    Ret(Value),
}

/// A function of the module: its declaration and, once compiled, its code.
#[derive(Debug)]
pub struct Function {
    pub name: String,
    pub param_count: usize,
    /// Whether the function returns an integer (else nothing).
    pub returns_value: bool,
    pub blocks: Vec<Vec<Inst>>,
    /// The argument lists of all call instructions, one after another.
    pub call_args: Vec<Value>,
}

/// The mathematical value of a [`Function`].
pub struct FunctionModel {
    pub name: Seq<char>,
    pub param_count: usize,
    pub returns_value: bool,
    pub blocks: Seq<Seq<Inst>>,
    pub call_args: Seq<Value>,
}

/// The instruction sequences of a list of blocks.
pub open spec fn blocks_view(blocks: Seq<Vec<Inst>>) -> Seq<Seq<Inst>> {
    Seq::new(blocks.len(), |i: int| blocks[i]@)
}

/// The values of a list of functions.
pub open spec fn functions_view(functions: Seq<Function>) -> Seq<FunctionModel> {
    Seq::new(functions.len(), |i: int| functions[i]@)
}

/// A function that is declared and has no code yet.
pub open spec fn declared(name: Seq<char>, param_count: usize, returns_value: bool) -> FunctionModel {
    FunctionModel {
        name,
        param_count,
        returns_value,
        blocks: Seq::empty(),
        call_args: Seq::empty(),
    }
}

/// The identity of the first function from `from` on whose name is `name`,
/// or -1.
pub open spec fn first_named_from(functions: Seq<FunctionModel>, name: Seq<char>, from: int) -> int
    decreases functions.len() - from,
{
    if from < 0 || from >= functions.len() {
        -1
    } else if functions[from].name == name {
        from
    } else {
        first_named_from(functions, name, from + 1)
    }
}

/// The identity of the first function named `name`, or -1.
pub open spec fn first_named(functions: Seq<FunctionModel>, name: Seq<char>) -> int {
    first_named_from(functions, name, 0)
}

/// A function named `name` at `at` or behind `from` is found, at `at` or
/// before it, and what is found has that name.
pub proof fn lemma_first_named_finds(functions: Seq<FunctionModel>, name: Seq<char>, from: int, at: int)
    requires
        0 <= from <= at < functions.len(),
        functions[at].name == name,
    ensures
        from <= first_named_from(functions, name, from) <= at,
        functions[first_named_from(functions, name, from)].name == name,
    decreases at - from,
{
    if functions[from].name != name {
        lemma_first_named_finds(functions, name, from + 1, at);
    }
}

impl View for Function {
    type V = FunctionModel;

    open spec fn view(&self) -> FunctionModel {
        FunctionModel {
            name: self.name@,
            param_count: self.param_count,
            returns_value: self.returns_value,
            blocks: blocks_view(self.blocks@),
            call_args: self.call_args@,
        }
    }
}

impl Function {
    /// A declaration without code.
    pub fn new(name: String, returns_value: bool, param_count: usize) -> (f: Function)
        ensures
            f@ == declared(name@, param_count, returns_value),
    {
        let f = Function { name, param_count, returns_value, blocks: Vec::new(), call_args: Vec::new() };
        assert(f@.blocks =~= Seq::empty());
        f
    }
}

/// The module under construction: its functions, each known by its index,
/// which is its identity.
#[derive(Debug)]
pub struct Module {
    pub functions: Vec<Function>,
}

impl View for Module {
    type V = Seq<FunctionModel>;

    open spec fn view(&self) -> Seq<FunctionModel> {
        functions_view(self.functions@)
    }
}

impl Module {
    /// A module without functions.
    pub fn new() -> (m: Module)
        ensures
            m@ == Seq::<FunctionModel>::empty(),
    {
        let m = Module { functions: Vec::new() };
        assert(m@ =~= Seq::<FunctionModel>::empty());
        m
    }

    /// Adds `f` at the end and returns its identity.
    pub fn add_function(&mut self, f: Function) -> (id: usize)
        ensures
            id == old(self)@.len(),
            final(self)@ == old(self)@.push(f@),
    {
        let id = self.functions.len();
        self.functions.push(f);
        assert(self@ =~= old(self)@.push(f@));
        id
    }

    /// The identity of the first function with exactly this name.
    pub fn find_function_by_name(&self, name: &str) -> (r: Option<usize>)
        ensures
            r.is_some() <==> first_named(self@, name@) >= 0,
            r.is_some() ==> r.unwrap() as int == first_named(self@, name@),
    {
        let mut i: usize = 0;
        while i < self.functions.len()
            invariant
                i <= self.functions.len(),
                first_named(self@, name@) == first_named_from(self@, name@, i as int),
            decreases self.functions.len() - i,
        {
            if str_equal(self.functions[i].name.as_str(), name) {
                return Some(i);
            }
            i += 1;
        }
        None
    }
}

/// Whether two strings hold the same characters.
pub fn str_equal(a: &str, b: &str) -> (r: bool)
    ensures
        r == (a@ == b@),
{
    let x = String::from_str(a);
    let y = String::from_str(b);
    x == y
}

} // verus!
