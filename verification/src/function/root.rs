//! Addresses, and the entry blocks of functions.

use crate::block::BasicBlock;
use crate::body::cfg::{edges_untouched, lemma_kept_trans, lemma_untouched_kept, lists_kept};
use crate::body::compose::operands_issued;
use crate::body::create::{empty_block, ticked};
use crate::body::edit::with_block_address;
use crate::body::{BlockView, BodyView};
use crate::context::Context;
use crate::error::Error;
use crate::function::edit::{next_tick, other_function_at, FunctionMutRef};
use crate::function::interface::FunctionInterface;
use crate::ids::{BlockId, FunctionId, LocalBlockId};
use crate::value::LocalValueId;
use vstd::prelude::*;

verus! {

/// `b` is `a` with another body of `id`, which is `body`; its blocks say where
/// its instructions are.
pub open spec fn body_changed(a: Context, b: Context, id: FunctionId, body: BodyView) -> bool {
    &&& b.shared == a.shared
    &&& b.same_functions(&a)
    &&& b.bodies@.len() == a.bodies@.len()
    &&& b.body_of(id)@ == body
    &&& b.body_of(id).places_known()
    &&& forall|g: int|
        0 <= g < a.bodies@.len() && g != id.0 ==> #[trigger] b.bodies@[g] == a.bodies@[g]
}

/// `b` is `a` with another body of `id`, which is `body`; its blocks list the
/// edges that are still there in the order they did.
pub open spec fn body_replaced(a: Context, b: Context, id: FunctionId, body: BodyView) -> bool {
    body_changed(a, b, id, body) && lists_kept(a.body_of(id), b.body_of(id))
}

/// `b` is `a` with another body of `id`, which is `body`. Its blocks list the
/// edges that are still there in the order they did. Where every operand
/// had its use recorded, it still has, and no more are recorded than were;
/// where operands named only what was issued, they still do.
pub open spec fn body_set(a: Context, b: Context, id: FunctionId, body: BodyView) -> bool {
    body_rewired(a, b, id, body) && lists_kept(a.body_of(id), b.body_of(id))
}

/// `b` is `a` with another body of `id`, which is `body`. Where every operand
/// had its use recorded, it still has, and no more are recorded than were;
/// where operands named only what was issued, they still do.
pub open spec fn body_rewired(a: Context, b: Context, id: FunctionId, body: BodyView) -> bool {
    &&& body_changed(a, b, id, body)
    &&& a.body_of(id).uses_complete() ==> b.body_of(id).uses_complete()
    &&& operands_issued(a.body_of(id)@) ==> operands_issued(b.body_of(id)@)
    &&& b.body_of(id).uses@.len() <= a.body_of(id).uses@.len()
}

/// `b` is `a` with another body of `id`, which is `body` and has the new value
/// `new`. Where every operand had its use recorded, and none named `new` yet,
/// it still has, and no more are recorded than were.
pub open spec fn body_grown(
    a: Context,
    b: Context,
    id: FunctionId,
    body: BodyView,
    new: LocalValueId,
) -> bool {
    &&& body_replaced(a, b, id, body)
    &&& a.body_of(id).uses_complete() && a.body_of(id).unmentioned(new)
        ==> b.body_of(id).uses_complete()
    &&& operands_issued(a.body_of(id)@) ==> a.body_of(id).unmentioned(new) && operands_issued(
        b.body_of(id)@,
    )
    &&& b.body_of(id).uses@.len() <= a.body_of(id).uses@.len()
}

/// Whether a block is at `address`, or covers it.
pub open spec fn covers(block: BlockView, address: u64) -> bool {
    block.address == Some(address) || block.extra_addresses.contains(address)
}

/// Whether the block `local` of `func` is not `id`, and at `address`.
pub open spec fn other_block_is(
    c: Context,
    id: BlockId,
    address: u64,
    func: int,
    local: u32,
) -> bool {
    &&& 0 <= func < c.bodies@.len()
    &&& c.bodies@[func]@.blocks.contains_key(LocalBlockId(local))
    &&& !(func == id.func.0 && local == id.local.0)
    &&& covers(c.bodies@[func]@.blocks[LocalBlockId(local)], address)
}

/// Whether a block other than `id` is at `address`, or covers it.
pub open spec fn other_block_at(c: Context, id: BlockId, address: u64) -> bool {
    exists|func: int, local: u32| #[trigger] other_block_is(c, id, address, func, local)
}

/// A module stays sound where a body changes to a sound one.
pub(crate) proof fn lemma_body_set(a: Context, b: Context, id: FunctionId)
    requires
        a.wf(),
        a.has_function(id),
        b.shared == a.shared,
        b.same_functions(&a),
        b.bodies@.len() == a.bodies@.len(),
        forall|g: int|
            0 <= g < a.bodies@.len() && g != id.0 ==> #[trigger] b.bodies@[g] == a.bodies@[g],
        b.body_of(id).wf(),
        b.body_of(id).id == Some(id),
    ensures
        b.wf(),
        b.body_of(id).places_known(),
        edges_untouched(a.body_of(id), b.body_of(id)) && b.body_of(id)@.edges == a.body_of(
            id,
        )@.edges ==> lists_kept(a.body_of(id), b.body_of(id)),
{
    b.body_of(id).law_places_are_known();
    if edges_untouched(a.body_of(id), b.body_of(id)) && b.body_of(id)@.edges == a.body_of(
        id,
    )@.edges {
        assert(a.body_ok(id.0 as int));
        lemma_untouched_kept(a.body_of(id), b.body_of(id));
    }
    assert forall|f: int| 0 <= f < b.bodies@.len() implies #[trigger] b.body_ok(f) by {
        assert(a.body_ok(f));
        if f != id.0 {
            assert(b.bodies@[f] == a.bodies@[f]);
        }
    }
}

impl BasicBlock {
    fn covers_address(&self, address: u64) -> (b: bool)
        ensures
            b == covers(self@, address),
    {
        if let Some(a) = self.address {
            if a == address {
                return true;
            }
        }
        let mut k: usize = 0;
        while k < self.extra_addresses.len()
            invariant
                k <= self.extra_addresses.len(),
                forall|j: int| 0 <= j < k ==> self.extra_addresses@[j] != address,
            decreases self.extra_addresses.len() - k,
        {
            if self.extra_addresses[k] == address {
                proof {
                    assert(self.extra_addresses@[k as int] == address);
                }
                return true;
            }
            k = k + 1;
        }
        false
    }
}

impl Context {
    /// Whether a block other than `id` is at `address`, or covers it.
    fn is_other_block_at(&self, id: BlockId, address: u64) -> (b: bool)
        requires
            self.wf(),
        ensures
            b == other_block_at(*self, id, address),
    {
        let mut f: usize = 0;
        while f < self.bodies.len()
            invariant
                self.wf(),
                f <= self.bodies.len(),
                forall|g: int, local: u32|
                    g < f ==> !#[trigger] other_block_is(*self, id, address, g, local),
            decreases self.bodies.len() - f,
        {
            proof {
                assert(self.body_ok(f as int));
            }
            let blocks = &self.bodies[f].blocks;
            let n: u32 = blocks.issued() as u32;
            let mut k: u32 = 0;
            while k < n
                invariant
                    self.wf(),
                    f < self.bodies.len(),
                    *blocks == self.bodies@[f as int].blocks,
                    n == blocks@.len(),
                    k <= n,
                    forall|local: u32|
                        local < k ==> !#[trigger] other_block_is(
                            *self,
                            id,
                            address,
                            f as int,
                            local,
                        ),
                decreases n - k,
            {
                if blocks.contains(k) && !(f == id.func.0 as usize && k == id.local.0)
                    && blocks.get(k).covers_address(address) {
                    proof {
                        assert(other_block_is(*self, id, address, f as int, k));
                    }
                    return true;
                }
                k = k + 1;
            }
            proof {
                assert forall|g: int, local: u32| g < f + 1 implies !#[trigger] other_block_is(
                    *self,
                    id,
                    address,
                    g,
                    local,
                ) by {
                    if g == f && local >= n {
                        assert(!self.bodies@[f as int].has_block(LocalBlockId(local)));
                    }
                }
            }
            f = f + 1;
        }
        false
    }

    /// Sets the address of the block `id`, unless another block is there. A
    /// block without a name is labelled with its address. The change is
    /// counted in either case.
    pub fn set_block_address(&mut self, id: BlockId, address: u64) -> (result: Result<(), Error>)
        requires
            old(self).wf(),
            old(self).has_block(id),
        ensures
            final(self).wf(),
            result is Err <==> other_block_at(*old(self), id, address),
            match result {
                Ok(_) => body_set(
                    *old(self),
                    *final(self),
                    id.func,
                    with_block_address(old(self).body_of(id.func)@, id.local, address),
                ),
                Err(e) => (e matches Error::DuplicateAddress(a) && a == address) && body_set(
                    *old(self),
                    *final(self),
                    id.func,
                    ticked(old(self).body_of(id.func)@),
                ),
            },
    {
        let ghost before = *self;
        let f: usize = id.func.0 as usize;
        proof {
            assert(before.body_ok(f as int));
        }
        if self.is_other_block_at(id, address) {
            self.bodies[f].touch_shape();
            proof {
                lemma_body_set(before, *self, id.func);
            }
            return Err(Error::DuplicateAddress(address));
        }
        self.bodies[f].set_block_address(id.local, address);
        proof {
            lemma_body_set(before, *self, id.func);
        }
        Ok(())
    }
}

/// `b` is `a` with the function `id` at `address`, and the change counted.
pub open spec fn function_moved(a: Context, b: Context, id: FunctionId, address: Option<u64>) -> bool {
    &&& b.shared == a.shared
    &&& b.bodies == a.bodies
    &&& b.shape_ticks == next_tick(a.shape_ticks)
    &&& b.interfaces@ == a.interfaces@.update(
        id.0 as int,
        FunctionInterface { address, ..a.interface_of(id) },
    )
}

/// `body` with `block` on its roster and as its entry block.
pub open spec fn rooted(body: BodyView, block: LocalBlockId) -> BodyView {
    BodyView {
        roster: if body.roster.contains(block) {
            body.roster
        } else {
            body.roster.push(block)
        },
        root: Some(block),
        ..body
    }
}

/// Whether a block can be the entry block of its function: they do not have
/// different addresses, and where only one of them has an address nothing else
/// of the other's kind is there.
pub open spec fn rootable(c: Context, id: BlockId) -> bool {
    match (c.interface_of(id.func).address, c.body_of(id.func)@.blocks[id.local].address) {
        (Some(x), Some(y)) => x == y,
        (None, Some(y)) => !other_function_at(c, id.func, y),
        (Some(x), None) => !other_block_at(c, id, x),
        (None, None) => true,
    }
}

/// Whether `b` is `a` with the block `block` made the entry block of `id`: a
/// block and a function of which one has an address are then both there.
pub open spec fn root_set(
    a: Context,
    b: Context,
    id: FunctionId,
    block: LocalBlockId,
    result: Result<(), Error>,
) -> bool {
    let fn_addr = a.interface_of(id).address;
    let block_addr = a.body_of(id)@.blocks[block].address;
    let body = rooted(a.body_of(id)@, block);
    match (fn_addr, block_addr) {
        (None, Some(y)) => result is Ok && exists|mid: Context|
            #[trigger] body_set(a, mid, id, body) && function_moved(mid, b, id, Some(y)),
        (Some(x), None) => result is Ok && body_set(a, b, id, with_block_address(body, block, x)),
        _ => result is Ok && body_set(a, b, id, body),
    }
}

impl<'a> FunctionMutRef<'a> {
    /// Moves the function to `address`, unless another function is there. The
    /// change is counted in either case.
    pub fn set_address(&mut self, address: u64) -> (result: Result<(), Error>)
        requires
            old(self).wf(),
        ensures
            final(self).wf(),
            final(self).id == old(self).id,
            *final(final(self).ctx) == *final(old(self).ctx),
            result is Err <==> other_function_at(old(self).now(), old(self).id, address),
            match result {
                Ok(_) => function_moved(
                    old(self).now(),
                    final(self).now(),
                    old(self).id,
                    Some(address),
                ),
                Err(e) => (e matches Error::DuplicateAddress(a) && a == address) && function_moved(
                    old(self).now(),
                    final(self).now(),
                    old(self).id,
                    old(self).face().address,
                ),
            },
    {
        let ghost before = *self.ctx;
        let f: usize = self.id.0 as usize;
        let taken = self.ctx.is_other_function_at(self.id, address);
        self.ctx.shape_ticks = self.ctx.shape_ticks.wrapping_add(1);
        if taken {
            proof {
                crate::function::edit::lemma_interface_set(before, *self.ctx, self.id);
                assert(self.ctx.interfaces@ =~= before.interfaces@.update(
                    f as int,
                    FunctionInterface {
                        address: before.interface_of(self.id).address,
                        ..before.interface_of(self.id)
                    },
                ));
            }
            return Err(Error::DuplicateAddress(address));
        }
        self.ctx.interfaces[f].address = Some(address);
        proof {
            crate::function::edit::lemma_interface_set(before, *self.ctx, self.id);
        }
        Ok(())
    }

    /// Puts a block of the function at the end of its roster, unless it is on
    /// it.
    pub fn add_block(&mut self, id: BlockId)
        requires
            old(self).wf(),
            id.func == old(self).id,
            old(self).now().has_block(id),
        ensures
            final(self).wf(),
            final(self).id == old(self).id,
            *final(final(self).ctx) == *final(old(self).ctx),
            body_set(
                old(self).now(),
                final(self).now(),
                old(self).id,
                (BodyView {
                    roster: if old(self).body()@.roster.contains(id.local) {
                        old(self).body()@.roster
                    } else {
                        old(self).body()@.roster.push(id.local)
                    },
                    ..old(self).body()@
                }),
            ),
    {
        let ghost before = *self.ctx;
        let f: usize = self.id.0 as usize;
        proof {
            assert(before.body_ok(f as int));
        }
        self.ctx.bodies[f].add_block(id.local);
        proof {
            lemma_body_set(before, *self.ctx, self.id);
        }
    }

    /// Records the address of a machine instruction lifted into the function.
    pub fn add_instruction_addr(&mut self, address: u64)
        requires
            old(self).wf(),
        ensures
            final(self).wf(),
            final(self).id == old(self).id,
            *final(final(self).ctx) == *final(old(self).ctx),
            body_set(
                old(self).now(),
                final(self).now(),
                old(self).id,
                (BodyView {
                    instruction_addrs: old(self).body()@.instruction_addrs.insert(address),
                    ..old(self).body()@
                }),
            ),
    {
        let ghost before = *self.ctx;
        let f: usize = self.id.0 as usize;
        proof {
            assert(before.body_ok(f as int));
        }
        self.ctx.bodies[f].add_instruction_addr(address);
        proof {
            assert(self.ctx.body_of(self.id)@.id == before.body_of(self.id)@.id);
            lemma_body_set(before, *self.ctx, self.id);
        }
    }

    /// Makes a block the entry block, and puts it on the roster. Where only
    /// one of block and function has an address the other moves there; they
    /// may not have different ones.
    pub fn set_root(&mut self, id: BlockId) -> (result: Result<(), Error>)
        requires
            old(self).wf(),
            id.func == old(self).id,
            old(self).now().has_block(id),
            rootable(old(self).now(), id),
        ensures
            final(self).wf(),
            final(self).id == old(self).id,
            *final(final(self).ctx) == *final(old(self).ctx),
            root_set(old(self).now(), final(self).now(), old(self).id, id.local, result),
    {
        let ghost before = *self.ctx;
        let f: usize = self.id.0 as usize;
        proof {
            assert(before.body_ok(f as int));
        }
        self.ctx.bodies[f].add_block(id.local);
        self.ctx.bodies[f].set_root_id(Some(id.local));
        proof {
            assert(self.ctx.body_of(self.id)@.id == before.body_of(self.id)@.id);
            lemma_body_set(before, *self.ctx, self.id);
            assert(before.body_of(self.id)@.blocks.contains_key(id.local));
            assert(self.ctx.body_of(self.id)@.blocks.contains_key(id.local));
            assert(self.ctx.body_of(self.id).has_block(id.local));
        }
        let ghost mid = *self.ctx;
        let block_addr = self.ctx.bodies[f].blocks.get(id.local.0).address;
        let fn_addr = self.ctx.interfaces[f].address;
        proof {
            assert(before.body_of(self.id)@.blocks.contains_key(id.local));
            assert(mid.body_of(self.id)@.blocks[id.local] == before.body_of(
                self.id,
            )@.blocks[id.local]);
        }
        match (fn_addr, block_addr) {
            (None, Some(addr)) => {
                proof {
                    assert(!other_function_at(mid, self.id, addr)) by {
                        if other_function_at(mid, self.id, addr) {
                            let g = choose|g: int|
                                0 <= g < mid.interfaces@.len() && g != self.id.0 && (
                                #[trigger] mid.interfaces@[g]).address == Some(addr);
                            assert(before.interfaces@[g].address == Some(addr));
                        }
                    }
                }
                let moved = self.set_address(addr);
                proof {
                    assert(body_set(before, mid, self.id, rooted(before.body_of(self.id)@, id.local)));
                }
            },
            (Some(addr), None) => {
                proof {
                    lemma_same_coverage(before, mid, id, addr);
                    assert(mid.has_block(id));
                }
                let moved = self.ctx.set_block_address(id, addr);
            },
            _ => {},
        }
        Ok(())
    }

    /// Makes `id` the entry block, unless the function has another one.
    pub fn ensure_root(&mut self, id: BlockId) -> (result: Result<(), Error>)
        requires
            old(self).wf(),
            id.func == old(self).id,
            old(self).now().has_block(id),
            old(self).body().root is None ==> rootable(old(self).now(), id),
        ensures
            final(self).wf(),
            final(self).id == old(self).id,
            *final(final(self).ctx) == *final(old(self).ctx),
            match old(self).body().root {
                Some(root) => final(self).now() == old(self).now() && if root == id.local {
                    result is Ok
                } else {
                    result matches Err(Error::FunctionRootMismatch { expected, actual })
                        && expected == (BlockId { func: id.func, local: root }) && actual == id
                },
                None => root_set(old(self).now(), final(self).now(), old(self).id, id.local, result),
            },
    {
        let f: usize = self.id.0 as usize;
        if let Some(root) = self.ctx.bodies[f].root {
            if root != id.local {
                return Err(
                    Error::FunctionRootMismatch {
                        expected: BlockId::new(self.id, root),
                        actual: id,
                    },
                );
            }
            return Ok(());
        }
        self.set_root(id)
    }

    /// Makes a new block the entry block.
    pub fn make_root(&mut self) -> (id: BlockId)
        requires
            old(self).wf(),
            old(self).body().blocks.has_room(),
            old(self).face().address matches Some(a) ==> !other_block_at(
                old(self).now(),
                (BlockId {
                    func: old(self).id,
                    local: LocalBlockId(old(self).body()@.blocks_issued as u32),
                }),
                a,
            ),
        ensures
            final(self).wf(),
            final(self).id == old(self).id,
            *final(final(self).ctx) == *final(old(self).ctx),
            id.func == old(self).id,
            id.local.0 == old(self).body()@.blocks_issued,
            ({
                let body = rooted(
                    crate::body::compose::with_block(old(self).body()@, id.local),
                    id.local,
                );
                body_grown(
                    old(self).now(),
                    final(self).now(),
                    old(self).id,
                    match old(self).face().address {
                        Some(a) => with_block_address(body, id.local, a),
                        None => body,
                    },
                    LocalValueId::BasicBlock(id.local),
                )
            }),
    {
        let ghost before = *self.ctx;
        let f: usize = self.id.0 as usize;
        proof {
            assert(before.body_ok(f as int));
        }
        let local = self.ctx.bodies[f].make_block_local();
        let id = BlockId::new(self.id, local);
        proof {
            assert(self.ctx.body_of(self.id)@.id == before.body_of(self.id)@.id);
            lemma_body_set(before, *self.ctx, self.id);
            assert(self.ctx.body_of(self.id)@.blocks.contains_key(local));
            assert(self.ctx.has_block(id));
            let mid = *self.ctx;
            assert(mid.body_of(self.id)@.blocks[local] == mid.body_of(self.id).block_rec(local)@);
            assert(mid.body_of(self.id).block_rec(local).address is None);
            if let Some(a) = before.interface_of(self.id).address {
                lemma_coverage_grown(before, mid, id, a);
            }
        }
        let ghost mid = *self.ctx;
        let result = self.set_root(id);
        proof {
            assert(result is Ok);
            let (x, y, z) = (
                before.body_of(self.id),
                mid.body_of(self.id),
                self.ctx.body_of(self.id),
            );
            assert(lists_kept(y, z));
            assert(mid.has_block(id));
            assert forall|b: LocalBlockId| z@.blocks.contains_key(b) implies #[trigger]
                y@.blocks.contains_key(b) by {}
            lemma_kept_trans(x, y, z);
        }
        id
    }
}

/// Where only the roster and the entry block of one body change, the same
/// blocks are at an address.
proof fn lemma_same_coverage(a: Context, b: Context, id: BlockId, address: u64)
    requires
        b.bodies@.len() == a.bodies@.len(),
        id.func.0 < a.bodies@.len(),
        forall|g: int|
            0 <= g < a.bodies@.len() && g != id.func.0 ==> #[trigger] b.bodies@[g] == a.bodies@[g],
        b.body_of(id.func)@.blocks == a.body_of(id.func)@.blocks,
        !other_block_at(a, id, address),
    ensures
        !other_block_at(b, id, address),
{
    if other_block_at(b, id, address) {
        let (g, local) = choose|g: int, local: u32| #[trigger]
            other_block_is(b, id, address, g, local);
        if g == id.func.0 {
            let x = LocalBlockId(local);
            assert(b.body_of(id.func)@.blocks.contains_key(x));
            assert(a.body_of(id.func)@.blocks.contains_key(x));
            assert(a.body_of(id.func).has_block(x));
            assert(a.body_of(id.func)@.blocks[x] == a.body_of(id.func).block_rec(x)@);
            assert(b.body_of(id.func)@.blocks[x] == b.body_of(id.func).block_rec(x)@);
        } else {
            assert(b.bodies@[g] == a.bodies@[g]);
        }
        assert(other_block_is(a, id, address, g, local));
    }
}

/// A new block without an address changes nothing for the others.
proof fn lemma_coverage_grown(a: Context, b: Context, id: BlockId, address: u64)
    requires
        b.bodies@.len() == a.bodies@.len(),
        id.func.0 < a.bodies@.len(),
        forall|g: int|
            0 <= g < a.bodies@.len() && g != id.func.0 ==> #[trigger] b.bodies@[g] == a.bodies@[g],
        b.body_of(id.func)@.blocks == a.body_of(id.func)@.blocks.insert(id.local, empty_block()),
        !other_block_at(a, id, address),
    ensures
        !other_block_at(b, id, address),
{
    if other_block_at(b, id, address) {
        let (g, local) = choose|g: int, local: u32| #[trigger]
            other_block_is(b, id, address, g, local);
        if g == id.func.0 {
            let x = LocalBlockId(local);
            assert(b.body_of(id.func)@.blocks.contains_key(x));
            assert(a.body_of(id.func)@.blocks.contains_key(x));
            assert(a.body_of(id.func).has_block(x));
            assert(a.body_of(id.func)@.blocks[x] == a.body_of(id.func).block_rec(x)@);
            assert(b.body_of(id.func)@.blocks[x] == b.body_of(id.func).block_rec(x)@);
            assert(a.body_of(id.func)@.blocks[x] == b.body_of(id.func)@.blocks[x]);
        } else {
            assert(b.bodies@[g] == a.bodies@[g]);
        }
        assert(other_block_is(a, id, address, g, local));
    }
}

} // verus!
