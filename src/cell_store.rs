//! Compact storage of two-valued cells, eight to a byte.
//!
//! Cell `idx` lives in bit `idx % 8` of byte `idx / 8`; the least significant
//! bit of a byte holds the lowest index.

use vstd::prelude::*;

verus! {

/// The state of one cell. It is stored as one bit: `Alive` is a set bit,
/// `Dead` a clear one.
#[derive(Clone, Copy, Debug, PartialEq, Eq, Structural)]
pub enum Cell {
    Dead,
    Alive,
}

impl Cell {
    pub open spec fn is_alive(self) -> bool {
        self == Cell::Alive
    }
}

/// Whether bit `k` of byte `b` is set.
pub open spec fn byte_bit(b: u8, k: u8) -> bool {
    (b >> k) & 1u8 == 1u8
}

/// The cells that a byte buffer holds: eight per byte, low bit first.
pub open spec fn bits_of(bytes: Seq<u8>) -> Seq<bool> {
    Seq::new(8 * bytes.len(), |i: int| byte_bit(bytes[i / 8], (i % 8) as u8))
}

/// Setting bit `k` leaves it set and every other bit of the byte as it was;
/// clearing bit `k` leaves it clear and every other bit as it was.
pub proof fn lemma_set_bit_preserves_others(b: u8, k: u8, j: u8)
    requires
        k < 8,
        j < 8,
    ensures
        byte_bit(b | (1u8 << k), j) == (j == k || byte_bit(b, j)),
        byte_bit(b & !(1u8 << k), j) == (j != k && byte_bit(b, j)),
{
    assert(byte_bit(b | (1u8 << k), j) == (j == k || byte_bit(b, j))) by (bit_vector)
        requires
            k < 8,
            j < 8,
    ;
    assert(byte_bit(b & !(1u8 << k), j) == (j != k && byte_bit(b, j))) by (bit_vector)
        requires
            k < 8,
            j < 8,
    ;
}

/// A byte is fixed by its eight bits.
proof fn lemma_byte_of_bits(x: u8, y: u8)
    requires
        forall|k: u8| k < 8 ==> byte_bit(x, k) == byte_bit(y, k),
    ensures
        x == y,
{
    assert(byte_bit(x, 0) == byte_bit(y, 0));
    assert(byte_bit(x, 1) == byte_bit(y, 1));
    assert(byte_bit(x, 2) == byte_bit(y, 2));
    assert(byte_bit(x, 3) == byte_bit(y, 3));
    assert(byte_bit(x, 4) == byte_bit(y, 4));
    assert(byte_bit(x, 5) == byte_bit(y, 5));
    assert(byte_bit(x, 6) == byte_bit(y, 6));
    assert(byte_bit(x, 7) == byte_bit(y, 7));
    assert(x == y) by (bit_vector)
        requires
            byte_bit(x, 0) == byte_bit(y, 0),
            byte_bit(x, 1) == byte_bit(y, 1),
            byte_bit(x, 2) == byte_bit(y, 2),
            byte_bit(x, 3) == byte_bit(y, 3),
            byte_bit(x, 4) == byte_bit(y, 4),
            byte_bit(x, 5) == byte_bit(y, 5),
            byte_bit(x, 6) == byte_bit(y, 6),
            byte_bit(x, 7) == byte_bit(y, 7),
    ;
}

/// The cells determine the bytes: two buffers that hold the same cells are equal.
pub proof fn lemma_bits_of_injective(a: Seq<u8>, b: Seq<u8>)
    requires
        bits_of(a) == bits_of(b),
    ensures
        a == b,
{
    assert(bits_of(a).len() == 8 * a.len());
    assert(bits_of(b).len() == 8 * b.len());
    assert(a.len() == b.len());
    assert forall|j: int| 0 <= j < a.len() implies a[j] == b[j] by {
        assert forall|k: u8| k < 8 implies byte_bit(a[j], k) == byte_bit(b[j], k) by {
            let i = 8 * j + k;
            vstd::arithmetic::div_mod::lemma_fundamental_div_mod_converse(i, 8, j, k as int);
            assert(0 <= i < 8 * a.len());
            assert(bits_of(a)[i] == byte_bit(a[j], k));
            assert(bits_of(b)[i] == byte_bit(b[j], k));
        }
        lemma_byte_of_bits(a[j], b[j]);
    }
    assert(a =~= b);
}

/// A buffer that holds no live cell is all zero bytes.
pub proof fn lemma_no_live_cell_zero_bytes(a: Seq<u8>)
    requires
        forall|i: int| 0 <= i < bits_of(a).len() ==> !#[trigger] bits_of(a)[i],
    ensures
        a == Seq::new(a.len(), |j: int| 0u8),
{
    let z = Seq::new(a.len(), |j: int| 0u8);
    assert forall|i: int| 0 <= i < bits_of(z).len() implies !#[trigger] bits_of(z)[i] by {
        let k = (i % 8) as u8;
        assert(!byte_bit(0u8, k)) by (bit_vector);
    }
    assert(bits_of(a) =~= bits_of(z));
    lemma_bits_of_injective(a, z);
}

/// A fixed number of cells, packed eight to a byte.
pub struct CellStore {
    cells: Vec<u8>,
}

impl Clone for CellStore {
    /// A store with the same bytes.
    fn clone(&self) -> (r: CellStore)
        ensures
            r.bytes() == self.bytes(),
    {
        let cells = self.cells.clone();
        assert(cells@ =~= self.cells@);
        CellStore { cells }
    }
}

impl View for CellStore {
    type V = Seq<bool>;

    /// Cell `i` is alive when `self@[i]`; the length is eight times the byte count.
    open spec fn view(&self) -> Seq<bool> {
        bits_of(self.bytes())
    }
}

impl CellStore {
    /// The packed bytes.
    pub closed spec fn bytes(&self) -> Seq<u8> {
        self.cells@
    }

    /// A store of at least `n_cells` cells, all dead, in `ceil(n_cells / 8)` zero bytes.
    pub fn all_dead(n_cells: usize) -> (r: CellStore)
        requires
            n_cells + 7 <= usize::MAX,
        ensures
            r.bytes() == Seq::new(((n_cells + 7) / 8) as nat, |i: int| 0u8),
            r@.len() >= n_cells,
            forall|i: int| 0 <= i < r@.len() ==> !#[trigger] r@[i],
    {
        let cells = vec![0u8; (n_cells + 7) / 8];
        let r = CellStore { cells };
        assert(r.bytes() =~= Seq::new(((n_cells + 7) / 8) as nat, |i: int| 0u8));
        assert forall|i: int| 0 <= i < r@.len() implies !#[trigger] r@[i] by {
            let k = (i % 8) as u8;
            assert(!byte_bit(0u8, k)) by (bit_vector);
        }
        r
    }

    /// The number of cells held: eight per byte.
    pub fn len(&self) -> (r: usize)
        requires
            8 * self.bytes().len() <= usize::MAX,
        ensures
            r == self@.len(),
    {
        8 * self.cells.len()
    }

    /// The packed bytes, for readers that know the layout.
    pub fn as_bytes(&self) -> (r: &Vec<u8>)
        ensures
            r@ == self.bytes(),
    {
        &self.cells
    }

    /// The cell at `idx`.
    pub(crate) fn get_cell(&self, idx: usize) -> (r: Cell)
        requires
            idx < self@.len(),
        ensures
            r.is_alive() == self@[idx as int],
    {
        let byte = self.cells[idx / 8];
        let bit = (idx % 8) as u8;

        if (byte >> bit) & 1 == 1 {
            Cell::Alive
        } else {
            Cell::Dead
        }
    }

    /// Sets the cell at `idx`; every other cell, and every other byte, is left as it was.
    pub(crate) fn set_cell(&mut self, idx: usize, cell: Cell)
        requires
            idx < old(self)@.len(),
        ensures
            final(self)@ == old(self)@.update(idx as int, cell.is_alive()),
            final(self).bytes().len() == old(self).bytes().len(),
            forall|j: int|
                0 <= j < old(self).bytes().len() && j != idx / 8 ==> #[trigger] final(self).bytes()[j]
                    == old(self).bytes()[j],
    {
        let b = idx / 8;
        let bit = (idx % 8) as u8;
        let old_byte = self.cells[b];
        let new_byte = match cell {
            Cell::Alive => old_byte | (1u8 << bit),
            Cell::Dead => old_byte & !(1u8 << bit),
        };
        self.cells.set(b, new_byte);
        proof {
            let old_view = old(self)@;
            assert forall|i: int| 0 <= i < old_view.len() implies #[trigger] self@[i]
                == old_view.update(idx as int, cell.is_alive())[i] by {
                if i / 8 == b as int {
                    lemma_set_bit_preserves_others(old_byte, bit, (i % 8) as u8);
                }
            }
            assert(self@ =~= old_view.update(idx as int, cell.is_alive()));
        }
    }
}

} // verus!
