use vstd::prelude::*;

use crate::action::ActionErr;
use crate::red_buffer::{normalized_name, slot_name, text_view, RedBuffer};

verus! {

/// The name of a register.
#[derive(Clone, Debug, PartialEq, Eq, Hash)]
pub struct Register(String);

impl Register {
    /// The register's name as characters.
    pub closed spec fn name_view(&self) -> Seq<char> {
        self.0@
    }

    /// The register called `x`, or the default register when `x` is empty.
    pub fn named(x: String) -> (r: Register)
        ensures
            r.name_view() == slot_name(x@),
    {
        Register(normalized_name(x))
    }

    /// The register's name.
    pub fn name(&self) -> (r: &String)
        ensures
            r@ == self.name_view(),
    {
        &self.0
    }

    /// A copy of this register name.
    pub fn duplicate(&self) -> (r: Register)
        ensures
            r == *self,
    {
        Register(self.0.clone())
    }

    /// Whether two registers have the same name.
    pub fn same(&self, other: &Register) -> (r: bool)
        ensures
            r == (self.name_view() == other.name_view()),
    {
        self.0 == other.0
    }
}

impl From<String> for Register {
    fn from(x: String) -> (r: Register)
        ensures
            r.name_view() == slot_name(x@),
    {
        Register::named(x)
    }
}

impl std::ops::Deref for Register {
    type Target = str;

    fn deref(&self) -> (r: &str)
        ensures
            r@ == self.name_view(),
    {
        self.0.as_str()
    }
}

impl vstd::std_specs::convert::FromSpecImpl<String> for Register {
    open spec fn obeys_from_spec() -> bool {
        false
    }

    open spec fn from_spec(v: String) -> Register {
        arbitrary()
    }
}

/// A session: the open buffers, which one is active, and the registers.
#[derive(Clone, Debug)]
pub struct RedMaster {
    pub buffers: Vec<RedBuffer>,
    pub current_buffer: usize,
    pub registers: Vec<(Register, Vec<String>)>,
}

impl RedMaster {
    /// The index of the active buffer.
    pub open spec fn cur(&self) -> usize {
        self.current_buffer
    }

    /// At least one buffer, the active one among them, every buffer well
    /// formed, and no two registers with the same name.
    pub open spec fn wf(&self) -> bool {
        &&& self.buffers@.len() > 0
        &&& self.cur() < self.buffers@.len()
        &&& forall|i: int| 0 <= i < self.buffers@.len() ==> (#[trigger] self.buffers@[i]).wf()
        &&& forall|i: int, j: int|
            0 <= i < j < self.registers@.len() ==> self.registers@[i].0.name_view() != self.registers@[j].0.name_view()
    }

    /// Only the active buffer may differ from `other`'s: the active index,
    /// every other buffer and the registers are the same.
    pub open spec fn same_but_current(self, other: RedMaster) -> bool {
        &&& self.cur() == other.cur()
        &&& self.buffers@.len() == other.buffers@.len()
        &&& forall|i: int| 0 <= i < other.buffers@.len() && i != other.cur() ==> #[trigger] self.buffers@[i] == other.buffers@[i]
        &&& self.registers == other.registers
    }

    /// The active buffer.
    pub open spec fn cur_buf(&self) -> RedBuffer {
        self.buffers@[self.cur() as int]
    }

    /// What the register called `name` holds, if there is one.
    pub open spec fn register(&self, name: Seq<char>) -> Option<Seq<Seq<char>>> {
        if exists|i: int| 0 <= i < self.registers@.len() && (#[trigger] self.registers@[i]).0.name_view() == name {
            let i = choose|i: int| 0 <= i < self.registers@.len() && (#[trigger] self.registers@[i]).0.name_view() == name;
            Some(text_view(self.registers@[i].1@))
        } else {
            None
        }
    }

    /// A session with one empty buffer, active, and no registers.
    pub fn empty() -> (r: RedMaster)
        ensures
            r.wf(),
            r.buffers@.len() == 1,
            r.cur() == 0,
            r.cur_buf().lines_view() == seq![Seq::<char>::empty()],
            r.cur_buf().cursor@ == Set::<usize>::empty(),
            r.cur_buf().marks@.len() == 0,
            r.cur_buf().filename.is_none(),
            r.cur_buf().saved,
            r.registers@.len() == 0,
    {
        RedMaster { buffers: vec![RedBuffer::empty()], current_buffer: 0, registers: Vec::new() }
    }

    /// The register at `i` answers for its name.
    pub proof fn lemma_register_at(&self, i: int)
        requires
            self.wf(),
            0 <= i < self.registers@.len(),
        ensures
            self.register(self.registers@[i].0.name_view()) == Some(text_view(self.registers@[i].1@)),
    {
        let name = self.registers@[i].0.name_view();
        let j = choose|j: int| 0 <= j < self.registers@.len() && (#[trigger] self.registers@[j]).0.name_view() == name;
        if j != i {
            if j < i {
                assert(self.registers@[j].0.name_view() != self.registers@[i].0.name_view());
            } else {
                assert(self.registers@[i].0.name_view() != self.registers@[j].0.name_view());
            }
        }
    }

    /// Where the register named like `reg` is kept, if there is one.
    pub fn find_register(&self, reg: &Register) -> (r: Option<usize>)
        requires
            self.wf(),
        ensures
            r matches Some(i) ==> i < self.registers@.len() && self.registers@[i as int].0.name_view() == reg.name_view()
                && self.register(reg.name_view()) == Some(text_view(self.registers@[i as int].1@)),
            r is None ==> self.register(reg.name_view()) is None,
    {
        let mut i: usize = 0;
        while i < self.registers.len()
            invariant
                i <= self.registers@.len(),
                self.wf(),
                forall|k: int| 0 <= k < i ==> (#[trigger] self.registers@[k]).0.name_view() != reg.name_view(),
            decreases self.registers@.len() - i,
        {
            if self.registers[i].0.same(reg) {
                proof {
                    self.lemma_register_at(i as int);
                }
                return Some(i);
            }
            i = i + 1;
        }
        None
    }

    /// Stores `lines` in `reg`, replacing what it held; other registers keep
    /// what they hold.
    pub fn set_register(&mut self, reg: Register, lines: Vec<String>)
        requires
            old(self).wf(),
        ensures
            final(self).wf(),
            final(self).buffers == old(self).buffers,
            final(self).cur() == old(self).cur(),
            final(self).register(reg.name_view()) == Some(text_view(lines@)),
            forall|n: Seq<char>| n != reg.name_view() ==> #[trigger] final(self).register(n) == old(self).register(n),
    {
        let ghost name = reg.name_view();
        let ghost lv = text_view(lines@);
        let found = self.find_register(&reg);
        let ghost prev = self.registers@;
        match found {
            Some(i) => {
                self.registers.set(i, (reg, lines));
                proof {
                    assert forall|a: int| 0 <= a < self.registers@.len() implies (#[trigger] self.registers@[a]).0.name_view() == prev[a].0.name_view() by {
                        if a != i {
                            assert(self.registers@[a] == prev[a]);
                        }
                    }
                    assert forall|a: int, b: int| 0 <= a < b < self.registers@.len() implies self.registers@[a].0.name_view() != self.registers@[b].0.name_view() by {
                        assert(prev[a].0.name_view() != prev[b].0.name_view());
                        assert(self.registers@[a].0.name_view() == prev[a].0.name_view());
                        assert(self.registers@[b].0.name_view() == prev[b].0.name_view());
                    }
                    self.lemma_register_at(i as int);
                    assert forall|n: Seq<char>| n != name implies #[trigger] self.register(n) == old(self).register(n) by {
                        if exists|j: int| 0 <= j < prev.len() && (#[trigger] prev[j]).0.name_view() == n {
                            let j = choose|j: int| 0 <= j < prev.len() && (#[trigger] prev[j]).0.name_view() == n;
                            old(self).lemma_register_at(j);
                            self.lemma_register_at(j);
                        } else {
                            assert forall|j: int| 0 <= j < self.registers@.len() implies (#[trigger] self.registers@[j]).0.name_view() != n by {
                                if j != i {
                                    assert(self.registers@[j] == prev[j]);
                                }
                            }
                        }
                    }
                }
            },
            None => {
                self.registers.push((reg, lines));
                proof {
                    assert forall|a: int, b: int| 0 <= a < b < self.registers@.len() implies self.registers@[a].0.name_view() != self.registers@[b].0.name_view() by {
                        if b == prev.len() {
                            assert(prev[a].0.name_view() != name);
                        } else {
                            assert(prev[a].0.name_view() != prev[b].0.name_view());
                        }
                    }
                    self.lemma_register_at(prev.len() as int);
                    assert forall|n: Seq<char>| n != name implies #[trigger] self.register(n) == old(self).register(n) by {
                        if exists|j: int| 0 <= j < prev.len() && (#[trigger] prev[j]).0.name_view() == n {
                            let j = choose|j: int| 0 <= j < prev.len() && (#[trigger] prev[j]).0.name_view() == n;
                            old(self).lemma_register_at(j);
                            self.lemma_register_at(j);
                        } else {
                            assert forall|j: int| 0 <= j < self.registers@.len() implies (#[trigger] self.registers@[j]).0.name_view() != n by {
                                if j < prev.len() {
                                    assert(self.registers@[j] == prev[j]);
                                }
                            }
                        }
                    }
                }
            },
        }
    }

    /// A session whose one buffer is `buf`, active, with no registers.
    pub fn with_buffer(buf: RedBuffer) -> (r: RedMaster)
        requires
            buf.wf(),
        ensures
            r.wf(),
            r.buffers@ == seq![buf],
            r.cur() == 0,
            r.registers@.len() == 0,
    {
        let r = RedMaster { buffers: vec![buf], current_buffer: 0, registers: Vec::new() };
        assert(r.buffers@ =~= seq![buf]);
        r
    }

    /// The active buffer.
    pub fn curr_buf(&self) -> (r: &RedBuffer)
        requires
            self.wf(),
        ensures
            *r == self.cur_buf(),
    {
        &self.buffers[self.current_buffer]
    }

    /// The index of the active buffer.
    pub fn curr_buf_idx(&self) -> (r: &usize)
        ensures
            *r == self.cur(),
    {
        &self.current_buffer
    }

    /// The active buffer, to change it in place.
    pub fn curr_buf_mut(&mut self) -> (r: &mut RedBuffer)
        requires
            old(self).wf(),
        ensures
            *r == old(self).cur_buf(),
            final(self).buffers@ == old(self).buffers@.update(old(self).cur() as int, *final(r)),
            final(self).current_buffer == old(self).current_buffer,
            final(self).registers == old(self).registers,
    {
        &mut self.buffers[self.current_buffer]
    }

    /// Opens a new empty buffer after the others and makes it the active one.
    pub fn push_buffer(&mut self)
        requires
            old(self).wf(),
        ensures
            final(self).wf(),
            final(self).buffers@.len() == old(self).buffers@.len() + 1,
            forall|i: int| 0 <= i < old(self).buffers@.len() ==> #[trigger] final(self).buffers@[i] == old(self).buffers@[i],
            final(self).cur() == old(self).buffers@.len(),
            final(self).cur_buf().lines_view() == seq![Seq::<char>::empty()],
            final(self).cur_buf().cursor@ == Set::<usize>::empty(),
            final(self).cur_buf().filename.is_none(),
            final(self).cur_buf().saved,
            final(self).registers == old(self).registers,
    {
        self.buffers.push(RedBuffer::empty());
        self.current_buffer = self.buffers.len() - 1;
    }

    /// Closes the active buffer; the one before it becomes active (or the
    /// first, when the first was closed).
    pub fn close_buffer(&mut self)
        requires
            old(self).wf(),
            old(self).buffers@.len() > 1,
        ensures
            final(self).wf(),
            final(self).buffers@ == old(self).buffers@.remove(old(self).cur() as int),
            final(self).cur() == (if old(self).cur() > 0 { old(self).cur() - 1 } else { 0 }),
            final(self).registers == old(self).registers,
    {
        let idx = self.current_buffer;
        self.buffers.remove(idx);
        if idx > 0 {
            self.current_buffer = idx - 1;
        }
    }

    /// Records that the active buffer has been written to `path`.
    pub fn mark_written(&mut self, path: String)
        requires
            old(self).wf(),
        ensures
            final(self).wf(),
            final(self).cur() == old(self).cur(),
            final(self).buffers@.len() == old(self).buffers@.len(),
            final(self).cur_buf().lines == old(self).cur_buf().lines,
            final(self).cur_buf().cursor == old(self).cur_buf().cursor,
            final(self).cur_buf().filename == Some(path),
            final(self).cur_buf().saved,
            final(self).cur_buf().marks == old(self).cur_buf().marks,
            final(self).same_but_current(*old(self)),
    {
        let buf = self.curr_buf_mut();
        buf.filename = Some(path);
        buf.saved = true;
    }

    /// Makes buffer `idx` the active one, if there is such a buffer.
    pub fn change_buffer(&mut self, idx: usize) -> (r: Result<(), ActionErr>)
        ensures
            final(self).buffers == old(self).buffers,
            final(self).registers == old(self).registers,
            idx < old(self).buffers@.len() ==> r is Ok && final(self).cur() == idx,
            idx >= old(self).buffers@.len() ==> r == Err::<(), ActionErr>(ActionErr::OutOfBounds) && final(self).cur() == old(self).cur(),
    {
        if idx >= self.buffers.len() {
            Err(ActionErr::OutOfBounds)
        } else {
            self.current_buffer = idx;
            Ok(())
        }
    }
}

} // verus!
