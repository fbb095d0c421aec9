//! Joining lines of generated code.
use vstd::prelude::*;

verus! {

/// The items of `list` with `sep` between each two of them.
pub open spec fn spec_join(list: Seq<Seq<char>>, sep: Seq<char>) -> Seq<char>
    decreases list.len(),
{
    if list.len() == 0 {
        Seq::empty()
    } else if list.len() == 1 {
        list[0]
    } else {
        spec_join(list.drop_last(), sep) + sep + list.last()
    }
}

/// `list.join(sep)`.
pub fn join_lines(list: &Vec<String>, sep: &str) -> (r: String)
    ensures
        r@ == spec_join(list@.map_values(|s: String| s@), sep@),
{
    let ghost views = list@.map_values(|s: String| s@);
    let mut r = String::new();
    let n = list.len();
    let mut i: usize = 0;
    while i < n
        invariant
            n == list.len(),
            0 <= i <= n,
            views == list@.map_values(|s: String| s@),
            r@ == spec_join(views.take(i as int), sep@),
        decreases n - i,
    {
        proof {
            assert(views.take((i + 1) as int).drop_last() =~= views.take(i as int));
        }
        if i > 0 {
            r.append(sep);
        } else {
            assert(r@ =~= Seq::<char>::empty());
        }
        r.append(list[i].as_str());
        proof {
            if i == 0 {
                assert(r@ =~= views.take(1)[0]);
            }
        }
        i = i + 1;
    }
    proof {
        assert(views.take(n as int) =~= views);
    }
    r
}

/// Law: joining nothing gives the empty text, joining one item gives that
/// item, and joining a list with one more item `x` gives the join of the
/// list, the separator and `x`, for lists of any length.  So every item
/// appears, in order, with exactly one separator between two neighbours.
pub proof fn lemma_join_items(list: Seq<Seq<char>>, x: Seq<char>, sep: Seq<char>)
    ensures
        spec_join(Seq::empty(), sep) == Seq::<char>::empty(),
        spec_join(seq![x], sep) == x,
        list.len() >= 1 ==> spec_join(list.push(x), sep) == spec_join(list, sep) + sep + x,
{
    assert(list.push(x).drop_last() =~= list);
}

/// Law: the length of a join is the sum of the items' lengths plus one
/// separator between each two neighbours.
pub proof fn lemma_join_len(list: Seq<Seq<char>>, sep: Seq<char>)
    ensures
        spec_join(list, sep).len() == total_len(list) + (if list.len() == 0 {
            0
        } else {
            (list.len() - 1) * sep.len()
        }),
    decreases list.len(),
{
    if list.len() > 1 {
        lemma_join_len(list.drop_last(), sep);
        assert((list.len() - 1) * sep.len() == (list.len() - 2) * sep.len() + sep.len())
            by (nonlinear_arith);
    } else if list.len() == 1 {
        assert(list.drop_last() =~= Seq::<Seq<char>>::empty());
        assert(total_len(list.drop_last()) == 0);
        assert(list.last() == list[0]);
    }
}

/// The sum of the lengths of the items.
pub open spec fn total_len(list: Seq<Seq<char>>) -> int
    decreases list.len(),
{
    if list.len() == 0 {
        0
    } else {
        total_len(list.drop_last()) + list.last().len()
    }
}

} // verus!
