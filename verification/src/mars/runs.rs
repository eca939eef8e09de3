//! The cells of a core as runs of equal instructions, as they are wanted
//! where a core is shown.

use vstd::prelude::*;

use crate::load_file::Instruction;
use crate::mars::Core;

verus! {

/// A stretch of cells that hold the same instruction.
#[derive(Copy, Clone, Debug, PartialEq, Eq, Structural)]
pub struct Run {
    /// The index of the first cell.
    pub start: usize,
    /// How many cells there are.
    pub length: usize,
}

/// Where the run ends that begins at `i` and reaches `e` at least: at the
/// first cell from `e` on that holds another instruction than the cell
/// `i`, or behind the last cell.
pub open spec fn same_until(cells: Seq<Instruction>, i: int, e: int) -> int
    decreases cells.len() - e,
{
    if 0 <= i < e < cells.len() && cells[e] == cells[i] {
        same_until(cells, i, e + 1)
    } else {
        e
    }
}

/// The runs that the cells from `i` on fall into, each as long as it can
/// be.
pub open spec fn runs_from(cells: Seq<Instruction>, i: int) -> Seq<Run>
    decreases cells.len() - i,
{
    let e = same_until(cells, i, i + 1);
    if 0 <= i < e <= cells.len() {
        seq![Run { start: i as usize, length: (e - i) as usize }] + runs_from(cells, e)
    } else {
        Seq::empty()
    }
}

impl Core {
    /// The runs that the cells of the core fall into, from the first cell
    /// on. Each run is as long as it can be: the cell behind it holds
    /// another instruction.
    pub fn runs(&self) -> (r: Vec<Run>)
        ensures
            r@ == runs_from(self.cells(), 0),
    {
        let mut found: Vec<Run> = Vec::new();
        let mut start: usize = 0;
        while start < self.instructions.len()
            invariant
                0 <= start <= self.cells().len(),
                found@ + runs_from(self.cells(), start as int) == runs_from(self.cells(), 0),
            decreases self.cells().len() - start,
        {
            let mut end: usize = start + 1;
            while end < self.instructions.len() && self.instructions[end]
                == self.instructions[start]
                invariant
                    start < end <= self.cells().len(),
                    same_until(self.cells(), start as int, start + 1) == same_until(
                        self.cells(),
                        start as int,
                        end as int,
                    ),
                decreases self.cells().len() - end,
            {
                end = end + 1;
            }
            proof {
                let run = Run { start, length: (end - start) as usize };
                let rest = runs_from(self.cells(), end as int);
                assert(found@.push(run) + rest =~= found@ + (seq![run] + rest));
            }
            found.push(Run { start, length: end - start });
            start = end;
        }
        proof {
            assert(found@ + Seq::<Run>::empty() =~= found@);
        }
        found
    }
}

} // verus!
