use vstd::prelude::*;

verus! {

/// The indices of the bits set to 1 among the first `n` entries, in
/// increasing order.
pub open spec fn selected_indices_to(bits: Seq<u8>, n: int) -> Seq<usize>
    decreases n,
{
    if n <= 0 {
        Seq::empty()
    } else {
        let rest = selected_indices_to(bits, n - 1);
        if bits[n - 1] == 1 {
            rest.push((n - 1) as usize)
        } else {
            rest
        }
    }
}

/// Linear-regression feature selector: maps a selection bitstring to the
/// dataset columns it keeps. Training and scoring of the regression itself
/// happen outside this crate.
pub struct LinReg;

impl LinReg {
    /// A fresh feature selector.
    pub fn new() -> (r: Self)
        ensures
            r == (LinReg {}),
    {
        LinReg
    }

    /// The column indices a selection bitstring keeps: exactly the positions
    /// holding 1, in increasing order.
    pub fn column_indices(&self, bitstring: &Vec<u8>) -> (r: Vec<usize>)
        ensures
            r@ == selected_indices_to(bitstring@, bitstring@.len() as int),
    {
        let n = bitstring.len();
        let mut indices: Vec<usize> = Vec::new();
        let mut i: usize = 0;
        while i < n
            invariant
                i <= n,
                n == bitstring@.len(),
                indices@ == selected_indices_to(bitstring@, i as int),
            decreases n - i,
        {
            if bitstring[i] == 1 {
                indices.push(i);
            }
            i = i + 1;
        }
        indices
    }
}

} // verus!
