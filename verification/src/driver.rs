use crate::error::CompileError;
use crate::executer::FuncCompiler;
use crate::ir::{declared, Function, FunctionModel, Module};
use crate::lowering::{
    compile_function_spec, entry_function_name, hoist_list_spec, hoist_spec, module_closed,
    print_function_name, Lowering, PendingFunction,
};
use crate::node::{list_size, node_size, FormalParameter, Node};
use vstd::prelude::*;
use vstd::string::StringExecFns;

verus! {

/// A function that waits in the worklist, as a mathematical value.
pub struct Job<'a> {
    pub id: usize,
    pub params: Seq<FormalParameter>,
    pub body: &'a Node,
}

/// The job that compiles a waiting function.
pub open spec fn job_of<'a>(p: PendingFunction<'a>) -> Job<'a> {
    Job { id: p.id, params: p.params@, body: p.body }
}

/// The jobs of a table of nested functions, in the order of declaration.
pub open spec fn jobs_of<'a>(pending: Seq<(String, PendingFunction<'a>)>) -> Seq<Job<'a>> {
    Seq::new(pending.len(), |i: int| job_of(pending[i].1))
}

/// The worklist as a sequence of jobs; the last one is compiled next.
pub open spec fn queue_view<'a>(queue: Seq<PendingFunction<'a>>) -> Seq<Job<'a>> {
    Seq::new(queue.len(), |i: int| job_of(queue[i]))
}

/// The sizes of the bodies that wait in the worklist, added up. Each step
/// of the driver makes it smaller.
pub open spec fn queue_weight<'a>(queue: Seq<Job<'a>>) -> nat
    decreases queue.len(),
{
    if queue.len() == 0 {
        0
    } else {
        queue_weight(queue.drop_last()) + node_size(queue.last().body)
    }
}

/// The module before anything is compiled: the print built-in, which takes
/// one integer and returns nothing, and the entry function, which takes
/// nothing and returns an integer.
pub open spec fn initial_module() -> Seq<FunctionModel> {
    seq![declared(print_function_name(), 1, false), declared(entry_function_name(), 0, true)]
}

/// The worklist after its last job is done and the functions it found are
/// added.
pub open spec fn next_queue<'a>(queue: Seq<Job<'a>>, found: Seq<(String, PendingFunction<'a>)>) -> Seq<
    Job<'a>,
> {
    queue.drop_last() + jobs_of(found)
}

/// Runs the worklist: compiles the last job, adds the functions it found,
/// and goes on until none is left or one fails. The worklist gets lighter
/// with each step, so this ends.
pub open spec fn drive_spec<'a>(functions: Seq<FunctionModel>, queue: Seq<Job<'a>>) -> Result<
    Seq<FunctionModel>,
    CompileError,
>
    decreases queue_weight(queue),
{
    if queue.len() == 0 {
        Ok(functions)
    } else {
        let job = queue.last();
        match compile_function_spec(Lowering::start(functions, job.id), job.params, job.body) {
            Err(e) => Err(e),
            Ok((compiled, found)) => {
                proof {
                    lemma_worklist_shrinks(functions, queue);
                }
                drive_spec(compiled, next_queue(queue, found))
            },
        }
    }
}

/// The module that the program with the top-level body `root` compiles to,
/// or the error that stops it.
pub open spec fn program_spec<'a>(root: &'a Node) -> Result<Seq<FunctionModel>, CompileError> {
    drive_spec(initial_module(), seq![Job { id: 1, params: Seq::empty(), body: root }])
}

/// The weight of two worklists joined is the sum of their weights.
pub proof fn lemma_queue_weight_concat<'a>(a: Seq<Job<'a>>, b: Seq<Job<'a>>)
    ensures
        queue_weight(a + b) == queue_weight(a) + queue_weight(b),
    decreases b.len(),
{
    if b.len() == 0 {
        assert(a + b =~= a);
    } else {
        lemma_queue_weight_concat(a, b.drop_last());
        assert((a + b).drop_last() =~= a + b.drop_last());
        assert((a + b).last() == b.last());
    }
}

/// Hoisting a node lets the waiting bodies grow by less than the node's
/// size.
pub proof fn lemma_hoist_weight<'a>(node: &'a Node, st: Lowering<'a>)
    ensures
        match hoist_spec(node, st) {
            Ok(s2) => queue_weight(jobs_of(s2.pending)) + 1 <= queue_weight(jobs_of(st.pending))
                + node_size(node),
            Err(_) => true,
        },
    decreases node, 0nat,
{
    match node {
        Node::StatementList(nodes) => {
            lemma_hoist_list_weight(nodes, nodes.len() as nat, st);
        },
        Node::Block(nodes) => {
            lemma_hoist_list_weight(nodes, nodes.len() as nat, st);
        },
        Node::If(_, then_part, else_part) => {
            lemma_hoist_weight(then_part, st);
            if let Ok(s1) = hoist_spec(then_part, st) {
                lemma_hoist_weight(else_part, s1);
            }
        },
        Node::While(_, body) => {
            lemma_hoist_weight(body, st);
        },
        Node::For(init, cond, step, body) => {
            lemma_hoist_weight(init, st);
            if let Ok(s1) = hoist_spec(init, st) {
                lemma_hoist_weight(cond, s1);
                if let Ok(s2) = hoist_spec(cond, s1) {
                    lemma_hoist_weight(step, s2);
                    if let Ok(s3) = hoist_spec(step, s2) {
                        lemma_hoist_weight(body, s3);
                    }
                }
            }
        },
        Node::FunctionDecl(name, params, body) => {
            if let Ok(s2) = hoist_spec(node, st) {
                let job = job_of(PendingFunction { id: st.functions.len() as usize, params, body });
                assert(jobs_of(s2.pending) =~= jobs_of(st.pending).push(job));
                assert(jobs_of(s2.pending).drop_last() =~= jobs_of(st.pending));
            }
        },
        _ => {},
    }
}

/// Hoisting the first `n` nodes of a list lets the waiting bodies grow by
/// no more than the sizes of those nodes.
pub proof fn lemma_hoist_list_weight<'a>(nodes: &'a Vec<Node>, n: nat, st: Lowering<'a>)
    ensures
        match hoist_list_spec(nodes, n, st) {
            Ok(s2) => queue_weight(jobs_of(s2.pending)) <= queue_weight(jobs_of(st.pending))
                + list_size(nodes, n),
            Err(_) => true,
        },
    decreases nodes, n,
{
    if n == 0 || n > nodes.len() {
    } else {
        lemma_hoist_list_weight(nodes, (n - 1) as nat, st);
        if let Ok(s1) = hoist_list_spec(nodes, (n - 1) as nat, st) {
            lemma_hoist_weight(&nodes[n - 1], s1);
        }
    }
}

/// Each step of the driver makes the worklist lighter: the functions that
/// compiling a job finds weigh less than the job's own body.
pub proof fn lemma_worklist_shrinks<'a>(functions: Seq<FunctionModel>, queue: Seq<Job<'a>>)
    requires
        queue.len() > 0,
    ensures
        match compile_function_spec(
            Lowering::start(functions, queue.last().id),
            queue.last().params,
            queue.last().body,
        ) {
            Ok((_, found)) => queue_weight(next_queue(queue, found)) < queue_weight(queue),
            Err(_) => true,
        },
{
    let job = queue.last();
    let start = Lowering::start(functions, job.id).with_arguments(job.params);
    lemma_hoist_weight(job.body, start);
    if let Ok(hoisted) = hoist_spec(job.body, start) {
        assert(jobs_of(start.pending) =~= Seq::empty());
        lemma_queue_weight_concat(queue.drop_last(), jobs_of(hoisted.pending));
    }
}

/// What compiling the program `root` owes: the module of `program_spec`,
/// or its error.
pub open spec fn compiles_to(root: &Node, r: Result<Module, CompileError>) -> bool {
    match program_spec(root) {
        Ok(functions) => r is Ok && r.unwrap()@ == functions,
        Err(e) => r is Err && r.unwrap_err() == e,
    }
}

/// Compiling is deterministic: two compilations of one tree both succeed
/// with modules of the same value (the same functions, blocks,
/// instructions and branch targets), or both fail with the same error.
pub proof fn lemma_compile_deterministic(
    root: &Node,
    first: Result<Module, CompileError>,
    second: Result<Module, CompileError>,
)
    requires
        compiles_to(root, first),
        compiles_to(root, second),
    ensures
        first is Ok <==> second is Ok,
        first is Ok ==> first.unwrap()@ == second.unwrap()@,
        first is Err ==> first.unwrap_err() == second.unwrap_err(),
{
}

/// Compiles a program: the top-level body becomes the entry function
/// `main`, and every function declared in it, at any depth, is compiled
/// once. The module also declares the print built-in.
pub fn compile_program(root: &Node) -> (r: Result<Module, CompileError>)
    ensures
        compiles_to(root, r),
        r is Ok ==> module_closed(r.unwrap()@),
{
    let mut module = Module::new();
    module.add_function(Function::new(String::from_str("cilk.println.i32"), false, 1));
    let main = module.add_function(Function::new(String::from_str("main"), true, 0));
    let no_params: Vec<FormalParameter> = Vec::new();
    let mut queue: Vec<PendingFunction> = Vec::new();
    queue.push(PendingFunction { id: main, params: &no_params, body: root });
    assert(module@ =~= initial_module());
    assert(queue_view(queue@) =~= seq![Job { id: 1, params: Seq::empty(), body: root }]);
    while queue.len() > 0
        invariant
            program_spec(root) == drive_spec(module@, queue_view(queue@)),
            forall|i: int| 0 <= i < queue.len() ==> (#[trigger] queue[i]).id < module@.len(),
            module_closed(module@),
        decreases queue_weight(queue_view(queue@)),
    {
        let ghost jobs = queue_view(queue@);
        proof {
            lemma_worklist_shrinks(module@, jobs);
        }
        let job = queue.pop().unwrap();
        assert(queue_view(queue@) =~= jobs.drop_last());
        assert(jobs.last() == job_of(job));
        let compiler = FuncCompiler::new(module, job.id);
        match compiler.compile(job.params, job.body) {
            Err(e) => {
                return Err(e);
            },
            Ok((compiled, found)) => {
                module = compiled;
                let ghost rest = jobs.drop_last();
                let mut j: usize = 0;
                while j < found.len()
                    invariant
                        j <= found.len(),
                        queue_view(queue@) == rest + jobs_of(found@).subrange(0, j as int),
                        forall|i: int|
                            0 <= i < queue.len() ==> (#[trigger] queue[i]).id < module@.len(),
                        forall|i: int|
                            0 <= i < found.len() ==> (#[trigger] found[i]).1.id < module@.len(),
                    decreases found.len() - j,
                {
                    let ghost earlier = queue_view(queue@);
                    let ghost added = job_of(found@[j as int].1);
                    queue.push(found[j].1);
                    j += 1;
                    assert(queue_view(queue@) =~= earlier.push(added));
                    assert(jobs_of(found@).subrange(0, j as int) =~= jobs_of(found@).subrange(
                        0,
                        j - 1,
                    ).push(added));
                    assert(queue_view(queue@) =~= rest + jobs_of(found@).subrange(0, j as int));
                }
                assert(jobs_of(found@).subrange(0, j as int) =~= jobs_of(found@));
            },
        }
    }
    Ok(module)
}

} // verus!
