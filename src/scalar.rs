//! The sequential recurrence, one word at a time: the reference that every
//! other path is proved equal to.

use vstd::prelude::*;
use crate::block::BlockWord;
use crate::model::{fletcher_fold, fletcher_step};

verus! {

/// One step of the recurrence: `a += e`, then `b += a`, both wrapping.
pub fn scalar_step<B: BlockWord>(a: B, b: B, e: B) -> (r: (B, B))
    ensures
        (r.0.val(), r.1.val()) == fletcher_step(B::modulus(), (a.val(), b.val()), e.val()),
{
    let na = a.add_wrap(e);
    let nb = b.add_wrap(na);
    (na, nb)
}

/// The recurrence from `(a, b)` over the words of `data`, in order.
pub fn update_fletcher_scalar<B: BlockWord>(a: B, b: B, data: &[B]) -> (r: (B, B))
    ensures
        (r.0.val(), r.1.val()) == fletcher_fold((a.val(), b.val()), data@),
{
    let mut sa = a;
    let mut sb = b;
    let mut i: usize = 0;
    while i < data.len()
        invariant
            i <= data@.len(),
            (sa.val(), sb.val()) == fletcher_fold((a.val(), b.val()), data@.take(i as int)),
        decreases data@.len() - i,
    {
        let (na, nb) = scalar_step(sa, sb, data[i]);
        proof {
            assert(data@.take(i + 1).drop_last() =~= data@.take(i as int));
        }
        sa = na;
        sb = nb;
        i = i + 1;
    }
    proof {
        assert(data@.take(i as int) =~= data@);
    }
    (sa, sb)
}

} // verus!
