//! String assembly for diagnostics: concatenation and joining, with exact results.
use vstd::prelude::*;

use vstd::string::StringExecFns;

verus! {

/// `a`, then `b`.
pub fn cat2(a: &str, b: &str) -> (r: String)
    ensures
        r@ == a@ + b@,
{
    let mut s = a.to_owned();
    s.append(b);
    s
}

/// `a`, `b`, then `c`.
pub fn cat3(a: &str, b: &str, c: &str) -> (r: String)
    ensures
        r@ == a@ + b@ + c@,
{
    let mut s = a.to_owned();
    s.append(b);
    s.append(c);
    s
}

/// `a` through `e`, in order.
pub fn cat5(a: &str, b: &str, c: &str, d: &str, e: &str) -> (r: String)
    ensures
        r@ == a@ + b@ + c@ + d@ + e@,
{
    let mut s = a.to_owned();
    s.append(b);
    s.append(c);
    s.append(d);
    s.append(e);
    s
}

/// `a` through `g`, in order.
pub fn cat7(a: &str, b: &str, c: &str, d: &str, e: &str, f: &str, g: &str) -> (r: String)
    ensures
        r@ == a@ + b@ + c@ + d@ + e@ + f@ + g@,
{
    let mut s = a.to_owned();
    s.append(b);
    s.append(c);
    s.append(d);
    s.append(e);
    s.append(f);
    s.append(g);
    s
}

/// The parts separated by `sep`.
pub open spec fn joined(parts: Seq<Seq<char>>, sep: Seq<char>) -> Seq<char>
    decreases parts.len(),
{
    if parts.len() == 0 {
        Seq::empty()
    } else if parts.len() == 1 {
        parts[0]
    } else {
        joined(parts.drop_last(), sep) + sep + parts.last()
    }
}

/// Views of a list of strings.
pub open spec fn string_views(v: Seq<String>) -> Seq<Seq<char>> {
    v.map_values(|s: String| s@)
}

/// The strings of `parts` separated by `sep`.
pub fn join(parts: &Vec<String>, sep: &str) -> (r: String)
    ensures
        r@ == joined(string_views(parts@), sep@),
{
    let mut s = String::new();
    let mut i: usize = 0;
    while i < parts.len()
        invariant
            i <= parts@.len(),
            s@ == joined(string_views(parts@).take(i as int), sep@),
        decreases parts@.len() - i,
    {
        let ghost before = string_views(parts@).take(i as int);
        if i > 0 {
            s.append(sep);
        }
        s.append(parts[i].as_str());
        proof {
            let next = string_views(parts@).take(i + 1);
            assert(next.drop_last() =~= before);
            assert(next.last() == parts@[i as int]@);
            if i == 0 {
                assert(before =~= Seq::<Seq<char>>::empty());
                assert(next.len() == 1);
            }
        }
        i = i + 1;
    }
    proof {
        assert(string_views(parts@).take(parts@.len() as int) =~= string_views(parts@));
    }
    s
}

/// Whether two strings hold the same characters.
pub fn same_text(a: &str, b: &str) -> (r: bool)
    ensures
        r == (a@ == b@),
{
    let sa = a.to_owned();
    let sb = b.to_owned();
    sa == sb
}

} // verus!
