use vstd::prelude::*;
use vstd::std_specs::iter::IteratorSpec;

verus! {

broadcast use vstd::string::group_string_axioms;

/// Relies on String::push: appends one character at the end.
#[verifier::external_body]
pub(crate) fn empujar(s: &mut String, c: char)
    ensures
        final(s)@ == old(s)@.push(c),
{
    s.push(c)
}

/// The characters of a string, in order.
pub fn caracteres(s: &str) -> (r: Vec<char>)
    ensures
        r@ == s@,
{
    let mut it = s.chars();
    let mut v: Vec<char> = Vec::new();
    loop
        invariant
            v@ + it.remaining() == s@,
            it.obeys_prophetic_iter_laws(),
            it.decrease() is Some,
        ensures
            v@ == s@,
        decreases it.decrease()->0,
    {
        match it.next() {
            Some(c) => {
                v.push(c);
            },
            None => {
                assert(v@ =~= s@);
                break ;
            },
        }
    }
    v
}

/// The string made of the characters `v[desde..hasta]`.
pub fn texto_de(v: &Vec<char>, desde: usize, hasta: usize) -> (r: String)
    requires
        desde <= hasta <= v.len(),
    ensures
        r@ == v@.subrange(desde as int, hasta as int),
{
    let mut s = String::new();
    let mut i: usize = desde;
    while i < hasta
        invariant
            desde <= i <= hasta <= v.len(),
            s@ == v@.subrange(desde as int, i as int),
        decreases hasta - i,
    {
        empujar(&mut s, v[i]);
        assert(v@.subrange(desde as int, i + 1) == v@.subrange(desde as int, i as int).push(
            v@[i as int],
        ));
        i += 1;
    }
    s
}

} // verus!
