//! The piece catalog: the five shapes and their rotation states.
use rand::Rng;
use vstd::prelude::*;

verus! {

/// Number of shapes in the catalog.
pub const NUM_SHAPES: usize = 5;

/// The five shapes.
#[derive(Clone, Copy, Debug, PartialEq, Eq, Structural)]
pub enum BlockType {
    T,
    L,
    S,
    Z,
    I,
}

/// Position of a shape in the catalog.
pub open spec fn spec_block_index(t: BlockType) -> int {
    match t {
        BlockType::T => 0,
        BlockType::L => 1,
        BlockType::S => 2,
        BlockType::Z => 3,
        BlockType::I => 4,
    }
}

/// The shape at a position of the catalog (positions past the end give `I`).
pub open spec fn spec_block_at(i: int) -> BlockType {
    if i == 0 {
        BlockType::T
    } else if i == 1 {
        BlockType::L
    } else if i == 2 {
        BlockType::S
    } else if i == 3 {
        BlockType::Z
    } else {
        BlockType::I
    }
}

/// How many rotation states a shape has. S and Z keep only two of their
/// four geometric rotations, and cycle between those two.
pub open spec fn num_rotations(t: BlockType) -> nat {
    match t {
        BlockType::T | BlockType::L => 4,
        _ => 2,
    }
}

/// The four (row, column) offsets of rotation state `k` of shape `t`,
/// for `0 <= k < num_rotations(t)`.
pub open spec fn offsets(t: BlockType, k: int) -> Seq<(i32, i32)> {
    match t {
        BlockType::T => if k == 0 {
            seq![(0i32, 1i32), (1, 0), (1, 1), (1, 2)]
        } else if k == 1 {
            seq![(0i32, 1i32), (1, 1), (1, 2), (2, 1)]
        } else if k == 2 {
            seq![(1i32, 0i32), (1, 1), (1, 2), (2, 1)]
        } else {
            seq![(0i32, 1i32), (1, 0), (1, 1), (2, 1)]
        },
        BlockType::L => if k == 0 {
            seq![(0i32, 0i32), (1, 0), (1, 1), (1, 2)]
        } else if k == 1 {
            seq![(0i32, 1i32), (0, 2), (1, 1), (2, 1)]
        } else if k == 2 {
            seq![(1i32, 0i32), (1, 1), (1, 2), (2, 2)]
        } else {
            seq![(0i32, 1i32), (1, 1), (2, 0), (2, 1)]
        },
        BlockType::S => if k == 0 {
            seq![(0i32, 1i32), (0, 2), (1, 0), (1, 1)]
        } else {
            seq![(0i32, 0i32), (1, 0), (1, 1), (2, 1)]
        },
        BlockType::Z => if k == 0 {
            seq![(0i32, 0i32), (0, 1), (1, 1), (1, 2)]
        } else {
            seq![(0i32, 1i32), (1, 0), (1, 1), (2, 0)]
        },
        BlockType::I => if k == 0 {
            seq![(0i32, 0i32), (1, 0), (2, 0), (3, 0)]
        } else {
            seq![(0i32, 0i32), (0, 1), (0, 2), (0, 3)]
        },
    }
}

/// The offsets used for rotation index `rotation`, which wraps around.
pub open spec fn cells_of(t: BlockType, rotation: int) -> Seq<(i32, i32)> {
    offsets(t, rotation % (num_rotations(t) as int))
}

/// The four cells are pairwise distinct.
pub open spec fn distinct4(s: Seq<(i32, i32)>) -> bool {
    s.len() == 4 && forall|i: int, j: int| 0 <= i < j < 4 ==> s[i] != s[j]
}

/// Every offset lies in [0, 3] x [0, 3].
pub open spec fn small_offsets(s: Seq<(i32, i32)>) -> bool {
    s.len() == 4 && forall|i: int|
        0 <= i < 4 ==> 0 <= #[trigger] s[i].0 <= 3 && 0 <= s[i].1 <= 3
}

/// A shape's rotation states, in catalog order.
pub struct Block {
    pub rotations: Vec<[(i32, i32); 4]>,
}

impl Block {
    /// This block holds exactly the rotation states of shape `t`.
    pub open spec fn holds_shape(&self, t: BlockType) -> bool {
        &&& self.rotations@.len() == num_rotations(t)
        &&& forall|k: int|
            0 <= k < self.rotations@.len() ==> #[trigger] self.rotations@[k]@ == offsets(t, k)
    }

    /// The offsets of rotation index `rotation`, taken modulo the number of states.
    pub fn get_cells(&self, rotation: usize) -> (r: &[(i32, i32); 4])
        requires
            self.rotations@.len() > 0,
        ensures
            *r == self.rotations@[rotation as int % self.rotations@.len() as int],
    {
        &self.rotations[rotation % self.rotations.len()]
    }
}

/// The catalog holds each shape at its index.
pub open spec fn catalog_wf(blocks: Seq<Block>) -> bool {
    &&& blocks.len() == NUM_SHAPES
    &&& forall|t: BlockType| #[trigger] blocks[spec_block_index(t)].holds_shape(t)
}

/// Every rotation state of every shape has four distinct cells, each offset in [0, 3].
pub proof fn lemma_offsets_shape(t: BlockType, k: int)
    requires
        0 <= k < num_rotations(t),
    ensures
        distinct4(offsets(t, k)),
        small_offsets(offsets(t, k)),
{
    match t {
        BlockType::T => {},
        BlockType::L => {},
        BlockType::S => {},
        BlockType::Z => {},
        BlockType::I => {},
    }
}

/// Builds the catalog of the five shapes.
pub fn init_blocks() -> (r: Vec<Block>)
    ensures
        catalog_wf(r@),
{
    let t = Block {
        rotations: vec![
            [(0, 1), (1, 0), (1, 1), (1, 2)],
            [(0, 1), (1, 1), (1, 2), (2, 1)],
            [(1, 0), (1, 1), (1, 2), (2, 1)],
            [(0, 1), (1, 0), (1, 1), (2, 1)],
        ],
    };
    let l = Block {
        rotations: vec![
            [(0, 0), (1, 0), (1, 1), (1, 2)],
            [(0, 1), (0, 2), (1, 1), (2, 1)],
            [(1, 0), (1, 1), (1, 2), (2, 2)],
            [(0, 1), (1, 1), (2, 0), (2, 1)],
        ],
    };
    let s = Block {
        rotations: vec![
            [(0, 1), (0, 2), (1, 0), (1, 1)],
            [(0, 0), (1, 0), (1, 1), (2, 1)],
        ],
    };
    let z = Block {
        rotations: vec![
            [(0, 0), (0, 1), (1, 1), (1, 2)],
            [(0, 1), (1, 0), (1, 1), (2, 0)],
        ],
    };
    let i = Block {
        rotations: vec![
            [(0, 0), (1, 0), (2, 0), (3, 0)],
            [(0, 0), (0, 1), (0, 2), (0, 3)],
        ],
    };
    assert(t.holds_shape(BlockType::T));
    assert(l.holds_shape(BlockType::L));
    assert(s.holds_shape(BlockType::S));
    assert(z.holds_shape(BlockType::Z));
    assert(i.holds_shape(BlockType::I));
    vec![t, l, s, z, i]
}

/// Position of a shape in the catalog.
pub fn block_index(block: BlockType) -> (r: usize)
    ensures
        r as int == spec_block_index(block),
{
    match block {
        BlockType::T => 0,
        BlockType::L => 1,
        BlockType::S => 2,
        BlockType::Z => 3,
        BlockType::I => 4,
    }
}

/// The shape at position `i` of the catalog; positions past the end give `I`.
pub fn block_from_index(i: usize) -> (r: BlockType)
    ensures
        r == spec_block_at(i as int),
        i < NUM_SHAPES ==> spec_block_index(r) == i,
{
    match i {
        0 => BlockType::T,
        1 => BlockType::L,
        2 => BlockType::S,
        3 => BlockType::Z,
        _ => BlockType::I,
    }
}

/// Relies on rand's `thread_rng().gen_range(0..n)`: a uniform draw from
/// `[0, n)`; it panics on an empty range, which `requires` rules out.
#[verifier::external_body]
fn random_below(n: usize) -> (r: usize)
    requires
        n > 0,
    ensures
        r < n,
{
    rand::thread_rng().gen_range(0..n)
}

/// Picks one of the five shapes uniformly at random.
pub fn random_block() -> (r: BlockType)
    ensures
        0 <= spec_block_index(r) < NUM_SHAPES,
{
    let i = random_below(NUM_SHAPES);
    block_from_index(i)
}

/// For every shape of the catalog and every rotation index, `get_cells`
/// yields four pairwise distinct offsets.
pub proof fn get_cells_distinct(blocks: Seq<Block>, t: BlockType, rotation: usize)
    requires
        catalog_wf(blocks),
    ensures
        ({
            let b = blocks[spec_block_index(t)];
            distinct4(b.rotations@[rotation as int % b.rotations@.len() as int]@)
        }),
{
    let b = blocks[spec_block_index(t)];
    assert(b.holds_shape(t));
    let k = rotation as int % b.rotations@.len() as int;
    lemma_offsets_shape(t, k);
    assert(b.rotations@[k]@ == offsets(t, k));
}

} // verus!
