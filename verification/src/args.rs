//! Building command-line arguments and their text pieces.

use vstd::prelude::*;

verus! {

/// The texts of a list of arguments.
pub open spec fn texts(v: Seq<String>) -> Seq<Seq<char>> {
    v.map_values(|s: String| s@)
}

/// Appends the argument `s`.
pub fn push_arg(args: &mut Vec<String>, s: &str)
    ensures
        texts(final(args)@) == texts(old(args)@).push(s@),
{
    args.push(String::from_str(s));
    assert(texts(args@) =~= texts(old(args)@).push(s@));
}

/// Appends the argument `s`, taking it over.
pub fn push_owned(args: &mut Vec<String>, s: String)
    ensures
        texts(final(args)@) == texts(old(args)@).push(s@),
{
    let ghost v = s@;
    args.push(s);
    assert(texts(args@) =~= texts(old(args)@).push(v));
}

/// Appends all arguments of `more`.
pub fn push_all(args: &mut Vec<String>, more: &Vec<String>)
    ensures
        texts(final(args)@) == texts(old(args)@) + texts(more@),
{
    let ghost start = texts(args@);
    for i in 0..more.len()
        invariant
            texts(args@) == start + texts(more@.take(i as int)),
    {
        let ghost before = texts(args@);
        args.push(more[i].clone());
        assert(texts(more@.take(i + 1)) =~= texts(more@.take(i as int)).push(more@[i as int]@));
        assert(texts(args@) =~= before.push(more@[i as int]@));
    }
    assert(more@.take(more@.len() as int) =~= more@);
}

} // verus!
