use vstd::prelude::*;

verus! {

/// What the console is sent for the text `s`: the code of each of its characters, in order.
pub fn console_putstr(s: &str) -> (r: Vec<usize>)
    ensures
        r@ == s@.map_values(|c: char| c as usize),
{
    let mut r: Vec<usize> = Vec::new();
    let len: usize = s.unicode_len();
    let mut i: usize = 0;
    while i < len
        invariant
            i <= len,
            len == s@.len(),
            r@ == s@.take(i as int).map_values(|c: char| c as usize),
        decreases len - i,
    {
        let c = s.get_char(i);
        r.push(c as usize);
        proof {
            assert(r@ =~= s@.take(i + 1).map_values(|c: char| c as usize));
        }
        i = i + 1;
    }
    proof {
        assert(s@.take(len as int) =~= s@);
    }
    r
}

} // verus!
