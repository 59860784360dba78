use crate::error::CompileError;
use crate::lowering::{hoist_list_spec, hoist_spec, lower_spec, Lowering};
use crate::node::Node;
use crate::ir::{first_named, lemma_first_named_finds};
use crate::resolve::{
    ancestor_name, ancestor_name_below, lemma_segment_start, qualified_name, segment_start,
};
use crate::table::{last_index, lemma_last_index_bounds, lemma_last_index_push};
use vstd::prelude::*;

verus! {

/// Whether `node` declares the variable `name` in a place that hoisting
/// reaches: anywhere but inside a nested function.
pub open spec fn declares_variable(node: &Node, name: Seq<char>) -> bool
    decreases node, 0nat,
{
    match node {
        Node::StatementList(nodes) => list_declares_variable(nodes, nodes.len() as nat, name),
        Node::Block(nodes) => list_declares_variable(nodes, nodes.len() as nat, name),
        Node::VarDecl(declared, _) => declared@ == name,
        Node::If(_, then_part, else_part) => declares_variable(then_part, name) || declares_variable(
            else_part,
            name,
        ),
        Node::While(_, body) => declares_variable(body, name),
        Node::For(init, cond, step, body) => declares_variable(init, name) || declares_variable(
            cond,
            name,
        ) || declares_variable(step, name) || declares_variable(body, name),
        _ => false,
    }
}

/// Whether one of the first `n` nodes declares the variable `name`.
pub open spec fn list_declares_variable(nodes: &Vec<Node>, n: nat, name: Seq<char>) -> bool
    decreases nodes, n,
{
    if n == 0 || n > nodes.len() {
        false
    } else {
        list_declares_variable(nodes, (n - 1) as nat, name) || declares_variable(&nodes[n - 1], name)
    }
}

/// Whether `node` declares the function `name` directly in the enclosing
/// function: anywhere but inside a nested function.
pub open spec fn declares_function(node: &Node, name: Seq<char>) -> bool
    decreases node, 0nat,
{
    match node {
        Node::StatementList(nodes) => list_declares_function(nodes, nodes.len() as nat, name),
        Node::Block(nodes) => list_declares_function(nodes, nodes.len() as nat, name),
        Node::FunctionDecl(declared, _, _) => declared@ == name,
        Node::If(_, then_part, else_part) => declares_function(then_part, name) || declares_function(
            else_part,
            name,
        ),
        Node::While(_, body) => declares_function(body, name),
        Node::For(init, cond, step, body) => declares_function(init, name) || declares_function(
            cond,
            name,
        ) || declares_function(step, name) || declares_function(body, name),
        _ => false,
    }
}

/// Whether one of the first `n` nodes declares the function `name`.
pub open spec fn list_declares_function(nodes: &Vec<Node>, n: nat, name: Seq<char>) -> bool
    decreases nodes, n,
{
    if n == 0 || n > nodes.len() {
        false
    } else {
        list_declares_function(nodes, (n - 1) as nat, name) || declares_function(&nodes[n - 1], name)
    }
}

/// Whether the variable table of `st` holds `name`.
pub open spec fn has_variable<'a>(st: Lowering<'a>, name: Seq<char>) -> bool {
    last_index(st.variables, name) >= 0
}

/// Whether the table of nested functions of `st` holds `name`.
pub open spec fn has_function<'a>(st: Lowering<'a>, name: Seq<char>) -> bool {
    last_index(st.pending, name) >= 0
}

/// Every nested function in the table is declared in the module under the
/// name of the enclosing function, a dot, and its own name. (This speaks of
/// modules that a machine can hold: identities are machine integers.)
pub open spec fn pending_named<'a>(st: Lowering<'a>) -> bool {
    st.functions.len() <= usize::MAX ==> forall|i: int|
        0 <= i < st.pending.len() ==> {
            &&& (#[trigger] st.pending[i]).1.id < st.functions.len()
            &&& st.functions[st.pending[i].1.id as int].name == qualified_name(
                st.function_name,
                st.pending[i].0@,
            )
        }
}

/// What hoisting keeps and adds, from the state `st` to the state `s2`, as
/// far as the name `name` goes.
pub open spec fn hoisted_from<'a>(st: Lowering<'a>, s2: Lowering<'a>, name: Seq<char>) -> bool {
    &&& pending_named(s2)
    &&& s2.function_name == st.function_name
    &&& s2.function_id == st.function_id
    &&& s2.arguments == st.arguments
    &&& st.functions.len() <= s2.functions.len()
    &&& forall|i: int| 0 <= i < st.functions.len() ==> s2.functions[i] == st.functions[i]
    &&& has_variable(st, name) ==> has_variable(s2, name)
    &&& has_function(st, name) ==> has_function(s2, name)
}

/// Hoisting `node` keeps every name of the tables, adds every name that
/// `node` declares, and registers nested functions under their qualified
/// names. It fails only for a duplicate, and it does fail where `node`
/// declares a name that the table already holds.
pub proof fn lemma_hoist_tables<'a>(node: &'a Node, st: Lowering<'a>, name: Seq<char>)
    requires
        pending_named(st),
    ensures
        match hoist_spec(node, st) {
            Ok(s2) => {
                &&& hoisted_from(st, s2, name)
                &&& declares_variable(node, name) ==> has_variable(s2, name) && !has_variable(
                    st,
                    name,
                )
                &&& declares_function(node, name) ==> has_function(s2, name) && !has_function(
                    st,
                    name,
                )
                &&& has_variable(s2, name) ==> has_variable(st, name) || declares_variable(
                    node,
                    name,
                )
                &&& has_function(s2, name) ==> has_function(st, name) || declares_function(
                    node,
                    name,
                )
            },
            Err(e) => e == CompileError::DuplicateVariable || e == CompileError::DuplicateFunction,
        },
    decreases node, 0nat,
{
    match node {
        Node::StatementList(nodes) => {
            lemma_hoist_list_tables(nodes, nodes.len() as nat, st, name);
        },
        Node::Block(nodes) => {
            lemma_hoist_list_tables(nodes, nodes.len() as nat, st, name);
        },
        Node::VarDecl(declared, _) => {
            if last_index(st.variables, declared@) < 0 {
                let s2 = st.declare_variable(*declared);
                lemma_last_index_push(st.variables, (*declared, st.next_value()), name);
                assert(s2.pending == st.pending);
            }
        },
        Node::If(_, then_part, else_part) => {
            lemma_hoist_tables(then_part, st, name);
            if let Ok(s1) = hoist_spec(then_part, st) {
                lemma_hoist_tables(else_part, s1, name);
            }
        },
        Node::While(_, body) => {
            lemma_hoist_tables(body, st, name);
        },
        Node::For(init, cond, step, body) => {
            lemma_hoist_tables(init, st, name);
            if let Ok(s1) = hoist_spec(init, st) {
                lemma_hoist_tables(cond, s1, name);
                if let Ok(s2) = hoist_spec(cond, s1) {
                    lemma_hoist_tables(step, s2, name);
                    if let Ok(s3) = hoist_spec(step, s2) {
                        lemma_hoist_tables(body, s3, name);
                    }
                }
            }
        },
        Node::FunctionDecl(declared, params, body) => {
            if last_index(st.pending, declared@) < 0 {
                let s2 = st.declare_function(*declared, params, body);
                lemma_last_index_push(st.pending, s2.pending.last(), name);
                assert(s2.pending =~= st.pending.push(s2.pending.last()));
                if s2.functions.len() <= usize::MAX {
                    assert forall|i: int| 0 <= i < s2.pending.len() implies {
                        &&& (#[trigger] s2.pending[i]).1.id < s2.functions.len()
                        &&& s2.functions[s2.pending[i].1.id as int].name == qualified_name(
                            s2.function_name,
                            s2.pending[i].0@,
                        )
                    } by {
                        if i < st.pending.len() {
                            assert(s2.pending[i] == st.pending[i]);
                        }
                    }
                }
            }
        },
        _ => {},
    }
}

/// The same, for the first `n` nodes of a list.
pub proof fn lemma_hoist_list_tables<'a>(nodes: &'a Vec<Node>, n: nat, st: Lowering<'a>, name: Seq<char>)
    requires
        pending_named(st),
    ensures
        match hoist_list_spec(nodes, n, st) {
            Ok(s2) => {
                &&& hoisted_from(st, s2, name)
                &&& list_declares_variable(nodes, n, name) ==> has_variable(s2, name)
                    && !has_variable(st, name)
                &&& list_declares_function(nodes, n, name) ==> has_function(s2, name)
                    && !has_function(st, name)
                &&& has_variable(s2, name) ==> has_variable(st, name) || list_declares_variable(
                    nodes,
                    n,
                    name,
                )
                &&& has_function(s2, name) ==> has_function(st, name) || list_declares_function(
                    nodes,
                    n,
                    name,
                )
            },
            Err(e) => e == CompileError::DuplicateVariable || e == CompileError::DuplicateFunction,
        },
    decreases nodes, n,
{
    if n == 0 || n > nodes.len() {
    } else {
        lemma_hoist_list_tables(nodes, (n - 1) as nat, st, name);
        if let Ok(s1) = hoist_list_spec(nodes, (n - 1) as nat, st) {
            lemma_hoist_tables(&nodes[n - 1], s1, name);
        }
    }
}

/// Hoisting makes declaration order irrelevant: once the body of a function
/// is hoisted, a variable that the body declares anywhere can be read and
/// assigned in every state of lowering that body, and a function that the
/// body declares anywhere can be called there. The call goes to the
/// function that the module holds under the qualified name.
pub proof fn lemma_declared_names_resolve<'a>(
    body: &'a Node,
    start: Lowering<'a>,
    at: Lowering<'a>,
    name: String,
)
    requires
        pending_named(start),
        hoist_spec(body, start) is Ok,
        at.same_scope(hoist_spec(body, start).unwrap()),
        at.functions.len() <= usize::MAX,
    ensures
        declares_variable(body, name@) ==> lower_spec(&Node::Identifier(name), at) is Ok
            && at.variable(name@) is Ok,
        declares_function(body, name@) ==> {
            &&& at.resolve_call(name@) is Ok
            &&& at.resolve_call(name@).unwrap() < at.functions.len()
            &&& at.functions[at.resolve_call(name@).unwrap() as int].name == qualified_name(
                start.function_name,
                name@,
            )
            &&& first_named(at.functions, qualified_name(start.function_name, name@)) >= 0
        },
{
    lemma_hoist_tables(body, start, name@);
    let hoisted = hoist_spec(body, start).unwrap();
    if declares_function(body, name@) {
        lemma_last_index_bounds(at.pending, name@, at.pending.len() as int);
        let i = last_index(at.pending, name@);
        assert(at.pending[i] == hoisted.pending[i]);
        lemma_first_named_finds(
            at.functions,
            qualified_name(start.function_name, name@),
            0,
            at.pending[i].1.id as int,
        );
    }
}

/// A function can call itself: in a function whose qualified name is
/// `name`, or ends in a dot and `name`, a call of `name` that no nested
/// function takes goes to the function registered under that qualified
/// name. So the entry function can call itself too. (`name` holds no dot.)
pub proof fn lemma_self_call_resolves<'a>(st: Lowering<'a>, enclosing: Seq<char>, name: Seq<char>)
    requires
        st.function_name == name || st.function_name == qualified_name(enclosing, name),
        forall|i: int| 0 <= i < name.len() ==> name[i] != '.',
        !has_function(st, name),
    ensures
        ancestor_name(st.function_name, name) == Some(st.function_name),
        st.wf() && st.functions.len() <= usize::MAX ==> st.resolve_call(name) is Ok
            && st.functions[st.resolve_call(name).unwrap() as int].name == st.function_name,
{
    let q = st.function_name;
    if q == name {
        lemma_first_segment(q, q.len() as int);
        assert(q.subrange(0, q.len() as int) =~= q);
    } else {
        let start: int = enclosing.len() as int + 1;
        lemma_suffix_segment(q, start, q.len() as int);
        assert(q.subrange(start, q.len() as int) =~= name);
        assert(q.subrange(0, q.len() as int) =~= q);
    }
    if st.wf() && st.functions.len() <= usize::MAX {
        lemma_first_named_finds(st.functions, q, 0, st.function_id as int);
    }
}

/// A call of the entry function from a function nested in it, at any
/// depth, goes to the entry function: where the first segment of the
/// qualified name reads `name` and no later segment does, the ancestor's
/// name is that first segment.
pub proof fn lemma_outermost_call_resolves(q: Seq<char>, name: Seq<char>, end: int)
    requires
        name.len() <= end <= q.len(),
        end == q.len() || q[end] == '.',
        q.subrange(0, name.len() as int) == name,
        name.len() == q.len() || q[name.len() as int] == '.',
        forall|i: int| 0 <= i < name.len() ==> name[i] != '.',
        forall|s: int, e: int|
            name.len() < s <= e <= q.len() && q[s - 1] == '.' && (e == q.len() || q[e] == '.')
                ==> #[trigger] q.subrange(s, e) != name,
    ensures
        ancestor_name_below(q, name, end) == Some(name),
    decreases end,
{
    lemma_segment_start(q, end);
    let start = segment_start(q, end);
    assert forall|i: int| 0 <= i < name.len() implies q[i] != '.' by {
        assert(q.subrange(0, name.len() as int)[i] == q[i]);
    }
    if start == 0 {
        assert(end == name.len());
    } else {
        assert(q.subrange(start, end) != name);
        lemma_outermost_call_resolves(q, name, start - 1);
    }
}

/// A stretch of `q` without a dot from its start on is the first segment.
pub proof fn lemma_first_segment(q: Seq<char>, end: int)
    requires
        0 <= end <= q.len(),
        forall|i: int| 0 <= i < end ==> q[i] != '.',
    ensures
        segment_start(q, end) == 0,
    decreases end,
{
    if end > 0 {
        lemma_first_segment(q, end - 1);
    }
}

/// A stretch of `q` without a dot, behind a dot, is one segment.
pub proof fn lemma_suffix_segment(q: Seq<char>, start: int, end: int)
    requires
        0 < start <= end <= q.len(),
        q[start - 1] == '.',
        forall|i: int| start <= i < end ==> q[i] != '.',
    ensures
        segment_start(q, end) == start,
    decreases end - start,
{
    if start < end {
        lemma_suffix_segment(q, start, end - 1);
    }
}

/// A name is never silently declared twice: hoisting a node that declares
/// a variable which the table already holds fails, and so for a function.
pub proof fn lemma_redeclaration_fails<'a>(node: &'a Node, st: Lowering<'a>, name: Seq<char>)
    requires
        pending_named(st),
        (declares_variable(node, name) && has_variable(st, name)) || (declares_function(node, name)
            && has_function(st, name)),
    ensures
        hoist_spec(node, st) == Err::<Lowering<'a>, CompileError>(CompileError::DuplicateVariable)
            || hoist_spec(node, st) == Err::<Lowering<'a>, CompileError>(
            CompileError::DuplicateFunction,
        ),
{
    lemma_hoist_tables(node, st, name);
}

/// Two nodes of one statement list that declare the same variable, or the
/// same function, make hoisting the list fail with a duplicate error.
pub proof fn lemma_duplicate_in_list_fails<'a>(
    nodes: &'a Vec<Node>,
    i: int,
    j: int,
    st: Lowering<'a>,
    name: Seq<char>,
)
    requires
        pending_named(st),
        0 <= i < j < nodes.len(),
        (declares_variable(&nodes[i], name) && declares_variable(&nodes[j], name)) || (
        declares_function(&nodes[i], name) && declares_function(&nodes[j], name)),
    ensures
        hoist_list_spec(nodes, nodes.len() as nat, st) is Err,
        hoist_spec(&Node::StatementList(*nodes), st) is Err,
{
    lemma_hoist_list_tables(nodes, (i + 1) as nat, st, name);
    lemma_hoist_list_tables(nodes, j as nat, st, name);
    lemma_list_declares_later(nodes, (i + 1) as nat, j as nat, name);
    if let Ok(s1) = hoist_list_spec(nodes, j as nat, st) {
        lemma_hoist_tables(&nodes[j], s1, name);
        assert(hoist_list_spec(nodes, (j + 1) as nat, st) is Err);
    }
    lemma_hoist_list_stays_failed(nodes, if hoist_list_spec(nodes, j as nat, st) is Err {
        j as nat
    } else {
        (j + 1) as nat
    }, nodes.len() as nat, st);
}

/// A list declares a name exactly where one of its nodes does.
pub proof fn lemma_list_declares_member(nodes: &Vec<Node>, n: nat, name: Seq<char>)
    requires
        n <= nodes.len(),
    ensures
        list_declares_variable(nodes, n, name) <==> exists|i: int|
            0 <= i < n && declares_variable(#[trigger] &nodes[i], name),
        list_declares_function(nodes, n, name) <==> exists|i: int|
            0 <= i < n && declares_function(#[trigger] &nodes[i], name),
    decreases n,
{
    if n > 0 {
        lemma_list_declares_member(nodes, (n - 1) as nat, name);
        if declares_variable(&nodes[n - 1], name) {
            assert(0 <= n - 1 < n && declares_variable(&nodes[n - 1], name));
        }
        if declares_function(&nodes[n - 1], name) {
            assert(0 <= n - 1 < n && declares_function(&nodes[n - 1], name));
        }
    }
}

/// The order of the statements of a list does not matter to what hoisting
/// records: two lists that hold the same nodes, in any order, hoisted from
/// states that know the same names, end with the same names in the variable
/// table and the same names in the table of nested functions.
pub proof fn lemma_hoisting_order_irrelevant<'a>(
    first: &'a Vec<Node>,
    second: &'a Vec<Node>,
    st1: Lowering<'a>,
    st2: Lowering<'a>,
    name: Seq<char>,
)
    requires
        pending_named(st1),
        pending_named(st2),
        forall|i: int|
            0 <= i < first.len() ==> exists|j: int|
                0 <= j < second.len() && #[trigger] first[i] == #[trigger] second[j],
        forall|j: int|
            0 <= j < second.len() ==> exists|i: int|
                0 <= i < first.len() && #[trigger] second[j] == #[trigger] first[i],
        has_variable(st1, name) <==> has_variable(st2, name),
        has_function(st1, name) <==> has_function(st2, name),
        hoist_list_spec(first, first.len() as nat, st1) is Ok,
        hoist_list_spec(second, second.len() as nat, st2) is Ok,
    ensures
        has_variable(hoist_list_spec(first, first.len() as nat, st1).unwrap(), name)
            <==> has_variable(hoist_list_spec(second, second.len() as nat, st2).unwrap(), name),
        has_function(hoist_list_spec(first, first.len() as nat, st1).unwrap(), name)
            <==> has_function(hoist_list_spec(second, second.len() as nat, st2).unwrap(), name),
{
    lemma_hoist_list_tables(first, first.len() as nat, st1, name);
    lemma_hoist_list_tables(second, second.len() as nat, st2, name);
    lemma_same_nodes_declare(first, second, name);
    lemma_same_nodes_declare(second, first, name);
}

/// What a node of one list declares, a list that holds the same node
/// declares too.
pub proof fn lemma_same_nodes_declare(first: &Vec<Node>, second: &Vec<Node>, name: Seq<char>)
    requires
        forall|i: int|
            0 <= i < first.len() ==> exists|j: int|
                0 <= j < second.len() && #[trigger] first[i] == #[trigger] second[j],
    ensures
        list_declares_variable(first, first.len() as nat, name) ==> list_declares_variable(
            second,
            second.len() as nat,
            name,
        ),
        list_declares_function(first, first.len() as nat, name) ==> list_declares_function(
            second,
            second.len() as nat,
            name,
        ),
{
    lemma_list_declares_member(first, first.len() as nat, name);
    lemma_list_declares_member(second, second.len() as nat, name);
    if list_declares_variable(first, first.len() as nat, name) {
        let i = choose|i: int| 0 <= i < first.len() && declares_variable(#[trigger] &first[i], name);
        let j = choose|j: int| 0 <= j < second.len() && #[trigger] first[i] == #[trigger] second[j];
        assert(0 <= j < second.len() && declares_variable(&second[j], name));
    }
    if list_declares_function(first, first.len() as nat, name) {
        let i = choose|i: int| 0 <= i < first.len() && declares_function(#[trigger] &first[i], name);
        let j = choose|j: int| 0 <= j < second.len() && #[trigger] first[i] == #[trigger] second[j];
        assert(0 <= j < second.len() && declares_function(&second[j], name));
    }
}

/// What a shorter prefix of a list declares, a longer one declares too.
pub proof fn lemma_list_declares_later(nodes: &Vec<Node>, m: nat, n: nat, name: Seq<char>)
    requires
        m <= n <= nodes.len(),
    ensures
        list_declares_variable(nodes, m, name) ==> list_declares_variable(nodes, n, name),
        list_declares_function(nodes, m, name) ==> list_declares_function(nodes, n, name),
    decreases n,
{
    if m < n {
        lemma_list_declares_later(nodes, m, (n - 1) as nat, name);
    }
}

/// Once a prefix of a list fails to hoist, every longer prefix fails with
/// the same error.
pub proof fn lemma_hoist_list_stays_failed<'a>(nodes: &'a Vec<Node>, m: nat, n: nat, st: Lowering<'a>)
    requires
        m <= n <= nodes.len(),
        hoist_list_spec(nodes, m, st) is Err,
    ensures
        hoist_list_spec(nodes, n, st) == hoist_list_spec(nodes, m, st),
    decreases n,
{
    if m < n {
        lemma_hoist_list_stays_failed(nodes, m, (n - 1) as nat, st);
    }
}

/// A function `g` declared inside a function `f` that is itself declared
/// inside the entry function is registered as `main.f.g`.
pub proof fn lemma_nested_function_name(f: Seq<char>, g: Seq<char>)
    ensures
        qualified_name(qualified_name("main"@, f), g) == "main"@ + seq!['.'] + f + seq!['.'] + g,
        qualified_name("main"@, f) == "main"@ + seq!['.'] + f,
{
}

} // verus!
