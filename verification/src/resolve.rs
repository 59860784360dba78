use vstd::prelude::*;
use vstd::string::StrSliceExecFns;
use vstd::string::StringExecFns;

verus! {

/// The name under which a function called `name` that is declared directly
/// inside the function `enclosing` is known to the module: the two joined
/// by a dot.
pub open spec fn qualified_name(enclosing: Seq<char>, name: Seq<char>) -> Seq<char> {
    enclosing + seq!['.'] + name
}

/// Joins the name of the enclosing function and a simple name by a dot.
pub fn make_qualified_name(enclosing: &String, name: &String) -> (r: String)
    ensures
        r@ == qualified_name(enclosing@, name@),
{
    proof {
        reveal_strlit(".");
    }
    let r = enclosing.clone().concat(".").concat(name.as_str());
    assert("."@ =~= seq!['.']);
    r
}

/// Where the dot-separated segment of `q` that ends before position `end`
/// starts: behind the last dot before `end`, or at 0.
pub open spec fn segment_start(q: Seq<char>, end: int) -> int
    decreases end,
{
    if end <= 0 || end > q.len() {
        0
    } else if q[end - 1] == '.' {
        end
    } else {
        segment_start(q, end - 1)
    }
}

/// Walks the segments of `q[0..end]` from the last one back and stops at the
/// first that reads `name`. The result is the qualified name of that
/// ancestor: `q` up to the end of that segment. `None` where no segment
/// reads `name`.
pub open spec fn ancestor_name_below(q: Seq<char>, name: Seq<char>, end: int) -> Option<Seq<char>>
    decreases end,
{
    let start = segment_start(q, end);
    if end < 0 || end > q.len() || start < 0 || start > end {
        None
    } else if q.subrange(start, end) == name {
        Some(q.subrange(0, end))
    } else if start == 0 {
        None
    } else {
        ancestor_name_below(q, name, start - 1)
    }
}

/// The qualified name of the innermost function on the path `q` whose own
/// name is `name`, as the call resolver forms it.
pub open spec fn ancestor_name(q: Seq<char>, name: Seq<char>) -> Option<Seq<char>> {
    ancestor_name_below(q, name, q.len() as int)
}

/// The start of a segment lies between 0 and its end, behind a dot or at 0,
/// and the segment holds no dot.
pub proof fn lemma_segment_start(q: Seq<char>, end: int)
    requires
        0 <= end <= q.len(),
    ensures
        0 <= segment_start(q, end) <= end,
        segment_start(q, end) == 0 || q[segment_start(q, end) - 1] == '.',
        forall|i: int| segment_start(q, end) <= i < end ==> q[i] != '.',
    decreases end,
{
    if end > 0 && q[end - 1] != '.' {
        lemma_segment_start(q, end - 1);
    }
}

/// Whether `q[start..end]` reads `name`.
fn segment_equals(q: &str, start: usize, end: usize, name: &str) -> (r: bool)
    requires
        start <= end <= q@.len(),
    ensures
        r == (q@.subrange(start as int, end as int) == name@),
{
    let seg = q.substring_char(start, end);
    let a = String::from_str(seg);
    let b = String::from_str(name);
    a == b
}

/// Finds the innermost function on the dotted path `q` that is itself
/// called `name`, and forms its qualified name.
pub fn find_ancestor_name(q: &str, name: &str) -> (r: Option<String>)
    ensures
        r.is_some() <==> ancestor_name(q@, name@).is_some(),
        r.is_some() ==> r.unwrap()@ == ancestor_name(q@, name@).unwrap(),
{
    let len = q.unicode_len();
    let mut end: usize = len;
    loop
        invariant
            len == q@.len(),
            end <= len,
            ancestor_name(q@, name@) == ancestor_name_below(q@, name@, end as int),
        decreases end,
    {
        let mut start: usize = end;
        while start > 0 && q.get_char(start - 1) != '.'
            invariant
                start <= end <= q@.len(),
                segment_start(q@, end as int) == segment_start(q@, start as int),
            decreases start,
        {
            start -= 1;
        }
        proof {
            lemma_segment_start(q@, end as int);
        }
        assert(segment_start(q@, end as int) == start);
        if segment_equals(q, start, end, name) {
            let full = String::from_str(q.substring_char(0, end));
            return Some(full);
        }
        if start == 0 {
            return None;
        }
        end = start - 1;
    }
}

} // verus!
