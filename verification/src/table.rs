use vstd::prelude::*;

verus! {

/// The index of the last entry among the first `n` of `tab` whose name reads
/// `name`, or -1 where there is none.
pub open spec fn last_index_below<V>(tab: Seq<(String, V)>, name: Seq<char>, n: int) -> int
    decreases n,
{
    if n <= 0 || n > tab.len() {
        -1
    } else if tab[n - 1].0@ == name {
        n - 1
    } else {
        last_index_below(tab, name, n - 1)
    }
}

/// The index of the last entry of `tab` under `name`, or -1: a later entry
/// under the same name replaces an earlier one.
pub open spec fn last_index<V>(tab: Seq<(String, V)>, name: Seq<char>) -> int {
    last_index_below(tab, name, tab.len() as int)
}

/// Looks `name` up in a symbol table.
pub fn find_entry<V>(tab: &Vec<(String, V)>, name: &String) -> (r: Option<usize>)
    ensures
        r.is_some() <==> last_index(tab@, name@) >= 0,
        r.is_some() ==> r.unwrap() as int == last_index(tab@, name@),
        r.is_some() ==> r.unwrap() < tab.len() && tab[r.unwrap() as int].0@ == name@,
{
    let mut i: usize = tab.len();
    while i > 0
        invariant
            i <= tab.len(),
            last_index(tab@, name@) == last_index_below(tab@, name@, i as int),
        decreases i,
    {
        if tab[i - 1].0 == *name {
            return Some(i - 1);
        }
        i -= 1;
    }
    None
}

/// An index that `last_index_below` returns lies below `n` and names an
/// entry under `name`.
pub proof fn lemma_last_index_bounds<V>(tab: Seq<(String, V)>, name: Seq<char>, n: int)
    ensures
        -1 <= last_index_below(tab, name, n) < tab.len(),
        last_index_below(tab, name, n) < n || n <= 0,
        last_index_below(tab, name, n) >= 0 ==> tab[last_index_below(tab, name, n)].0@ == name,
    decreases n,
{
    if n <= 0 || n > tab.len() {
    } else if tab[n - 1].0@ == name {
    } else {
        lemma_last_index_bounds(tab, name, n - 1);
    }
}

/// Adding an entry at the end keeps every name that was found findable, and
/// makes the added name findable.
pub proof fn lemma_last_index_push<V>(tab: Seq<(String, V)>, entry: (String, V), name: Seq<char>)
    ensures
        last_index(tab, name) >= 0 ==> last_index(tab.push(entry), name) >= 0,
        last_index(tab.push(entry), entry.0@) == tab.len(),
        entry.0@ != name ==> last_index(tab.push(entry), name) == last_index(tab, name),
{
    let t2 = tab.push(entry);
    assert(t2[t2.len() - 1] == entry);
    if entry.0@ != name {
        lemma_last_index_prefix(tab, t2, name, tab.len() as int);
    }
}

/// Two tables that agree on their first `n` entries give the same answer
/// there.
pub proof fn lemma_last_index_prefix<V>(a: Seq<(String, V)>, b: Seq<(String, V)>, name: Seq<char>, n: int)
    requires
        n <= a.len(),
        n <= b.len(),
        forall|i: int| 0 <= i < n ==> a[i] == b[i],
    ensures
        last_index_below(a, name, n) == last_index_below(b, name, n),
    decreases n,
{
    if n > 0 {
        if a[n - 1].0@ != name {
            lemma_last_index_prefix(a, b, name, n - 1);
        }
    }
}

} // verus!
