use vstd::prelude::*;

use crate::range::{bumped, Range};

verus! {

/// Lines with a selection, without marks or a file.
#[derive(Debug, Clone)]
pub struct RedFile {
    pub lines: Vec<String>,
    pub cursor: Range,
}

impl RedFile {
    /// Inserts `line` at `at`; selected indices at or above `at` move up by one.
    pub fn insert_line(&mut self, at: usize, line: String)
        requires
            old(self).cursor.wf(),
            at <= old(self).lines@.len(),
        ensures
            final(self).cursor.wf(),
            final(self).lines@ == old(self).lines@.insert(at as int, line),
            final(self).cursor@ == old(self).cursor@.map(|x: usize| bumped(x, at)),
    {
        self.lines.insert(at, line);
        let mut moved: Vec<usize> = Vec::new();
        let mut i: usize = 0;
        while i < self.cursor.lines.len()
            invariant
                i <= self.cursor.lines.len(),
                forall|y: usize| moved@.contains(y) <==> exists|k: int| 0 <= k < i && y == #[trigger] bumped(self.cursor.lines@[k], at),
            decreases self.cursor.lines.len() - i,
        {
            let l = self.cursor.lines[i];
            let y = if l >= at && l < usize::MAX { l + 1 } else { l };
            let ghost prev = moved@;
            moved.push(y);
            proof {
                assert forall|z: usize| moved@.contains(z) <==> exists|k: int| 0 <= k < i + 1 && z == #[trigger] bumped(self.cursor.lines@[k], at) by {
                    if moved@.contains(z) {
                        let j = choose|j: int| 0 <= j < moved@.len() && moved@[j] == z;
                        if j < prev.len() {
                            assert(prev.contains(z));
                        } else {
                            assert(z == bumped(self.cursor.lines@[i as int], at));
                        }
                    }
                    if exists|k: int| 0 <= k < i + 1 && z == #[trigger] bumped(self.cursor.lines@[k], at) {
                        let k = choose|k: int| 0 <= k < i + 1 && z == #[trigger] bumped(self.cursor.lines@[k], at);
                        if k < i {
                            assert(prev.contains(z));
                            let j = choose|j: int| 0 <= j < prev.len() && prev[j] == z;
                            assert(moved@[j] == z);
                        } else {
                            assert(moved@[prev.len() as int] == z);
                        }
                    }
                }
            }
            i = i + 1;
        }
        let ghost before = self.cursor@;
        proof {
            assert(moved@.to_set() =~= before.map(|x: usize| bumped(x, at))) by {
                assert forall|y: usize| moved@.to_set().contains(y) <==> before.map(|x: usize| bumped(x, at)).contains(y) by {
                    if moved@.contains(y) {
                        let k = choose|k: int| 0 <= k < i && y == #[trigger] bumped(self.cursor.lines@[k], at);
                        assert(before.contains(self.cursor.lines@[k]));
                    }
                    if before.map(|x: usize| bumped(x, at)).contains(y) {
                        let x = choose|x: usize| before.contains(x) && bumped(x, at) == y;
                        let k = choose|k: int| 0 <= k < self.cursor.lines@.len() && self.cursor.lines@[k] == x;
                        assert(y == bumped(self.cursor.lines@[k], at));
                    }
                }
            }
        }
        self.cursor = Range::from_indices(moved);
    }
}

} // verus!
