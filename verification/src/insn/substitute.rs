//! Replacing several operands at once.

use crate::insn::mnemonic::{Mnemonic, Shape};
use crate::value::LocalValueId;
use vstd::prelude::*;

verus! {

/// What `value` becomes: the second part of the first pair that begins with
/// it, or itself where there is none.
pub open spec fn image(pairs: Seq<(LocalValueId, LocalValueId)>, value: LocalValueId) -> LocalValueId
    decreases pairs.len(),
{
    if pairs.len() == 0 {
        value
    } else if pairs[0].0 == value {
        pairs[0].1
    } else {
        image(pairs.skip(1), value)
    }
}

/// `shape` with its result slot replaced like an operand.
pub open spec fn with_slot_image(
    shape: Shape,
    pairs: Seq<(LocalValueId, LocalValueId)>,
) -> Shape {
    match shape {
        Shape::PCodeOp { id, args, dst } => Shape::PCodeOp {
            id,
            args,
            dst: match dst {
                Some(value) => Some(image(pairs, value)),
                None => None,
            },
        },
        _ => shape,
    }
}

/// What `value` becomes.
pub fn image_of(pairs: &Vec<(LocalValueId, LocalValueId)>, value: LocalValueId) -> (result:
    LocalValueId)
    ensures
        result == image(pairs@, value),
{
    let mut i: usize = 0;
    proof {
        assert(pairs@.skip(0) =~= pairs@);
    }
    while i < pairs.len()
        invariant
            i <= pairs.len(),
            image(pairs@, value) == image(pairs@.skip(i as int), value),
        decreases pairs.len() - i,
    {
        proof {
            assert(pairs@.skip(i as int)[0] == pairs@[i as int]);
            assert(pairs@.skip(i as int).skip(1) =~= pairs@.skip(i + 1));
        }
        if pairs[i].0 == value {
            return pairs[i].1;
        }
        i = i + 1;
    }
    value
}

/// Replaces the operands that begin a pair, and the result slot, all at once:
/// what one pair puts in, no other takes out.
pub fn substitute_operands(mnemonic: &mut Mnemonic, pairs: &Vec<(LocalValueId, LocalValueId)>)
    requires
        old(mnemonic).operands().len() <= usize::MAX,
    ensures
        final(mnemonic).operands() == old(mnemonic).operands().map_values(
            |v: LocalValueId| image(pairs@, v),
        ),
        final(mnemonic).shape() == with_slot_image(old(mnemonic).shape(), pairs@),
{
    let n: usize = mnemonic.operand_count();
    let ghost given = mnemonic.operands();
    let ghost shape = mnemonic.shape();
    let mut k: usize = 0;
    while k < n
        invariant
            k <= n,
            n == given.len(),
            mnemonic.shape() == shape,
            mnemonic.operands().len() == n,
            forall|j: int|
                0 <= j < n ==> #[trigger] mnemonic.operands()[j] == (if j < k {
                    image(pairs@, given[j])
                } else {
                    given[j]
                }),
        decreases n - k,
    {
        if let Some(value) = mnemonic.operand(k) {
            mnemonic.set_operand(k, image_of(pairs, value));
        }
        k = k + 1;
    }
    let ghost replaced = mnemonic.operands();
    if let Mnemonic::PCodeOp(op) = mnemonic {
        if let Some(dst) = op.dst {
            op.dst = Some(image_of(pairs, dst));
        }
    }
    proof {
        assert(mnemonic.operands() == replaced);
        assert(mnemonic.operands() =~= given.map_values(|v: LocalValueId| image(pairs@, v)));
    }
}

} // verus!
