use std::collections::HashMap;
use vstd::prelude::*;

verus! {

broadcast use vstd::std_specs::hash::group_hash_axioms;

/// Number of cells on the tape.
pub const TAPE_SIZE: usize = 30000;

/// Why parsing or running a program failed.
#[derive(Debug, PartialEq, Eq, Structural, Clone, Copy)]
pub enum BfError {
    OutOfBounds,
    UnmatchedLoopStart,
    UnmatchedLoopEnd,
    InvalidProgram,
}

/// One instruction; `NoInstruction` stands for a byte outside the alphabet.
#[derive(PartialEq, Eq, Structural, Debug, Copy, Clone)]
pub enum BfInstruction {
    NoInstruction,
    MovePointerToRight,
    MovePointerToLeft,
    IncreaseCell,
    DecreaseCell,
    LoopStart,
    LoopEnd,
    Getchar,
    Putchar,
}

/// What the host has to do after one step of the machine.
#[derive(Debug, PartialEq, Eq, Structural, Clone, Copy)]
pub enum BfAction {
    /// The program counter is past the last instruction: the run is over.
    Halted,
    /// An instruction ran and the machine can go on.
    Continue,
    /// A read instruction ran: read one line and hand it to `store_input`.
    ReadInput,
    /// A write instruction ran: write this byte out.
    WriteOutput(u8),
}

/// A parsed program together with the state it runs on.
#[derive(Default, Debug, PartialEq)]
pub struct BfMachine {
    /// Index of the next instruction.
    pub pc: usize,
    /// Index of the current tape cell.
    pub tp: u16,
    pub tape: Vec<u8>,
    pub program: Vec<BfInstruction>,
    /// Maps each loop instruction to the index of its partner.
    pub loop_lookup: HashMap<usize, usize>,
}

/// The instruction a byte stands for: `>` `<` `+` `-` `[` `]` `,` `.`
/// (62, 60, 43, 45, 91, 93, 44, 46); every other byte is `NoInstruction`.
pub open spec fn decode(b: u8) -> BfInstruction {
    if b == 62 {
        BfInstruction::MovePointerToRight
    } else if b == 60 {
        BfInstruction::MovePointerToLeft
    } else if b == 43 {
        BfInstruction::IncreaseCell
    } else if b == 45 {
        BfInstruction::DecreaseCell
    } else if b == 91 {
        BfInstruction::LoopStart
    } else if b == 93 {
        BfInstruction::LoopEnd
    } else if b == 44 {
        BfInstruction::Getchar
    } else if b == 46 {
        BfInstruction::Putchar
    } else {
        BfInstruction::NoInstruction
    }
}

/// Whether a byte belongs to the instruction alphabet.
pub open spec fn is_instruction_byte(b: u8) -> bool {
    decode(b) != BfInstruction::NoInstruction
}

/// The program a source text holds: the instructions of its alphabet bytes,
/// in order, with every other byte left out.
pub open spec fn program_of(bytes: Seq<u8>) -> Seq<BfInstruction>
    decreases bytes.len(),
{
    if bytes.len() == 0 {
        Seq::empty()
    } else {
        let rest = program_of(bytes.drop_last());
        if is_instruction_byte(bytes.last()) {
            rest.push(decode(bytes.last()))
        } else {
            rest
        }
    }
}

/// How an instruction changes the number of open loops.
pub open spec fn nesting_delta(ins: BfInstruction) -> int {
    match ins {
        BfInstruction::LoopStart => 1,
        BfInstruction::LoopEnd => -1,
        _ => 0,
    }
}

/// Loop starts minus loop ends among the first `k` instructions.
pub open spec fn depth(p: Seq<BfInstruction>, k: int) -> int
    decreases k,
{
    if k <= 0 || k > p.len() {
        0
    } else {
        depth(p, k - 1) + nesting_delta(p[k - 1])
    }
}

/// No prefix of `p` closes more loops than it opens.
pub open spec fn never_underflows(p: Seq<BfInstruction>) -> bool {
    forall|k: int| 0 <= k <= p.len() ==> #[trigger] depth(p, k) >= 0
}

/// Every loop start of `p` is closed by a later loop end and vice versa.
pub open spec fn well_nested(p: Seq<BfInstruction>) -> bool {
    never_underflows(p) && depth(p, p.len() as int) == 0
}

/// The loop start at `i` is closed by the loop end at `j`: between them the
/// nesting never falls back to the level it had before `i`, and after `j` it is
/// back at that level.
pub open spec fn loops_match(p: Seq<BfInstruction>, i: int, j: int) -> bool {
    &&& 0 <= i < j < p.len()
    &&& p[i] == BfInstruction::LoopStart
    &&& p[j] == BfInstruction::LoopEnd
    &&& depth(p, j + 1) == depth(p, i)
    &&& forall|k: int| i < k <= j ==> #[trigger] depth(p, k) > depth(p, i)
}

/// `t` pairs each loop instruction of `p` with its partner, in both
/// directions, and holds nothing else.
pub open spec fn is_jump_table(p: Seq<BfInstruction>, t: Map<usize, usize>) -> bool {
    &&& forall|i: usize| #[trigger]
        t.contains_key(i) ==> loops_match(p, i as int, t[i] as int) || loops_match(
            p,
            t[i] as int,
            i as int,
        )
    &&& forall|i: usize, j: usize| #[trigger]
        loops_match(p, i as int, j as int) ==> t.contains_key(i) && t[i] == j && t.contains_key(j)
            && t[j] == i
    &&& forall|i: int|
        0 <= i < p.len() && (p[i] == BfInstruction::LoopStart || p[i] == BfInstruction::LoopEnd)
            ==> #[trigger] t.contains_key(i as usize)
}

impl From<u8> for BfInstruction {
    fn from(val: u8) -> (r: BfInstruction) {
        if val == 62 {
            BfInstruction::MovePointerToRight
        } else if val == 60 {
            BfInstruction::MovePointerToLeft
        } else if val == 43 {
            BfInstruction::IncreaseCell
        } else if val == 45 {
            BfInstruction::DecreaseCell
        } else if val == 91 {
            BfInstruction::LoopStart
        } else if val == 93 {
            BfInstruction::LoopEnd
        } else if val == 44 {
            BfInstruction::Getchar
        } else if val == 46 {
            BfInstruction::Putchar
        } else {
            BfInstruction::NoInstruction
        }
    }
}

impl vstd::std_specs::convert::FromSpecImpl<u8> for BfInstruction {
    open spec fn obeys_from_spec() -> bool {
        true
    }

    open spec fn from_spec(v: u8) -> BfInstruction {
        decode(v)
    }
}

/// The error that parsing a program reports, if any: an empty program first,
/// then a loop end with no open loop, then loops left open.
pub open spec fn parse_error(p: Seq<BfInstruction>) -> Option<BfError> {
    if p.len() == 0 {
        Some(BfError::InvalidProgram)
    } else if !never_underflows(p) {
        Some(BfError::UnmatchedLoopEnd)
    } else if depth(p, p.len() as int) != 0 {
        Some(BfError::UnmatchedLoopStart)
    } else {
        None
    }
}

impl BfMachine {
    /// The tape has its fixed size, the pointer is on it, the loops of the
    /// program nest, and the jump table pairs them.
    pub open spec fn wf(&self) -> bool {
        &&& self.tape@.len() == TAPE_SIZE
        &&& self.tp < TAPE_SIZE
        &&& well_nested(self.program@)
        &&& is_jump_table(self.program@, self.loop_lookup@)
    }

    /// Builds a machine from source text: keeps the alphabet bytes as
    /// instructions and pairs every loop start with its loop end.
    pub fn parse(program_as_bytes: Vec<u8>) -> (r: Result<Self, BfError>)
        ensures
            match r {
                Ok(m) => {
                    &&& parse_error(program_of(program_as_bytes@)) is None
                    &&& m.wf()
                    &&& m.program@ == program_of(program_as_bytes@)
                    &&& m.pc == 0
                    &&& m.tp == 0
                    &&& forall|i: int| 0 <= i < TAPE_SIZE ==> #[trigger] m.tape@[i] == 0
                },
                Err(e) => parse_error(program_of(program_as_bytes@)) == Some(e),
            },
    {
        let mut program: Vec<BfInstruction> = Vec::new();
        let mut i: usize = 0;
        while i < program_as_bytes.len()
            invariant
                i <= program_as_bytes@.len(),
                program@ == program_of(program_as_bytes@.subrange(0, i as int)),
            decreases program_as_bytes@.len() - i,
        {
            let instruction = BfInstruction::from(program_as_bytes[i]);
            proof {
                assert(program_as_bytes@.subrange(0, i + 1).drop_last() =~= program_as_bytes@.subrange(
                    0,
                    i as int,
                ));
            }
            if instruction != BfInstruction::NoInstruction {
                program.push(instruction);
            }
            i += 1;
        }
        assert(program_as_bytes@.subrange(0, program_as_bytes@.len() as int) =~= program_as_bytes@);

        if program.len() == 0 {
            return Err(BfError::InvalidProgram);
        }

        let ghost p = program@;
        let mut stack: Vec<usize> = Vec::new();
        let mut loop_lookup: HashMap<usize, usize> = HashMap::new();
        let mut idx: usize = 0;
        while idx < program.len()
            invariant
                p == program@,
                p == program_of(program_as_bytes@),
                p.len() > 0,
                idx <= p.len(),
                forall|k: int| 0 <= k <= idx ==> #[trigger] depth(p, k) >= 0,
                stack@.len() == depth(p, idx as int),
                forall|m: int|
                    0 <= m < stack@.len() ==> {
                        &&& #[trigger] stack@[m] < idx
                        &&& p[stack@[m] as int] == BfInstruction::LoopStart
                        &&& depth(p, stack@[m] as int) == m
                    },
                forall|m: int, k: int|
                    #![trigger stack@[m], depth(p, k)]
                    0 <= m < stack@.len() && stack@[m] < k <= idx ==> depth(p, k) > m,
                forall|a: usize|
                    #[trigger] loop_lookup@.contains_key(a) ==> (loops_match(
                        p,
                        a as int,
                        loop_lookup@[a] as int,
                    ) && loop_lookup@[a] < idx) || (loops_match(p, loop_lookup@[a] as int, a as int)
                        && a < idx),
                forall|a: usize, b: usize|
                    #[trigger] loops_match(p, a as int, b as int) && b < idx ==> loop_lookup@.contains_key(
                        a,
                    ) && loop_lookup@[a] == b && loop_lookup@.contains_key(b) && loop_lookup@[b] == a,
                forall|a: int|
                    0 <= a < idx && p[a] == BfInstruction::LoopEnd ==> #[trigger] loop_lookup@.contains_key(
                        a as usize,
                    ),
                forall|a: int, k: int|
                    #![trigger loop_lookup@.contains_key(a as usize), depth(p, k)]
                    0 <= a < idx && p[a] == BfInstruction::LoopStart && !loop_lookup@.contains_key(
                        a as usize,
                    ) && a < k <= idx ==> depth(p, k) > depth(p, a),
            decreases p.len() - idx,
        {
            let instr = program[idx];
            let ghost s = stack@;
            let ghost t = loop_lookup@;
            assert(depth(p, idx + 1) == depth(p, idx as int) + nesting_delta(p[idx as int]));
            if instr == BfInstruction::LoopStart {
                stack.push(idx);
                assert forall|m: int, k: int|
                    #![trigger stack@[m], depth(p, k)]
                    0 <= m < stack@.len() && stack@[m] < k <= idx + 1 implies depth(p, k) > m by {
                    if k <= idx {
                        assert(s[m] == stack@[m]);
                    }
                }
            } else if instr == BfInstruction::LoopEnd {
                match stack.pop() {
                    Some(start_index) => {
                        let ghost lvl = stack@.len() as int;
                        assert(s[lvl] == start_index);
                        assert(loops_match(p, start_index as int, idx as int));
                        loop_lookup.insert(start_index, idx);
                        loop_lookup.insert(idx, start_index);
                        assert forall|a: usize, b: usize|
                            #[trigger] loops_match(p, a as int, b as int) && b < idx + 1 implies loop_lookup@.contains_key(a)
                                && loop_lookup@[a] == b && loop_lookup@.contains_key(b)
                                && loop_lookup@[b] == a by {
                            if b == idx {
                                if a < start_index {
                                    assert(depth(p, start_index as int) > depth(p, a as int));
                                } else if a > start_index {
                                    assert(depth(p, a as int) > lvl);
                                }
                            } else {
                                if a == start_index {
                                    assert(depth(p, b + 1) > lvl);
                                }
                            }
                        }
                        assert forall|a: int, k: int|
                            #![trigger loop_lookup@.contains_key(a as usize), depth(p, k)]
                            0 <= a < idx + 1 && p[a] == BfInstruction::LoopStart
                                && !loop_lookup@.contains_key(a as usize) && a < k <= idx
                                + 1 implies depth(p, k) > depth(p, a) by {
                            assert(!t.contains_key(a as usize));
                            if k == idx + 1 {
                                assert(depth(p, idx as int) > depth(p, a));
                                if a < start_index {
                                    assert(depth(p, start_index as int) > depth(p, a));
                                } else {
                                    assert(depth(p, a) > lvl);
                                }
                            }
                        }
                        assert forall|m: int, k: int|
                            #![trigger stack@[m], depth(p, k)]
                            0 <= m < stack@.len() && stack@[m] < k <= idx + 1 implies depth(p, k)
                                > m by {
                            assert(s[m] == stack@[m]);
                        }
                    },
                    None => {
                        assert(depth(p, idx + 1) < 0);
                        assert(!never_underflows(p));
                        return Err(BfError::UnmatchedLoopEnd);
                    },
                }
            }
            idx += 1;
        }

        if stack.len() != 0 {
            return Err(BfError::UnmatchedLoopStart);
        }
        assert(depth(p, p.len() as int) == 0);

        Ok(BfMachine { pc: 0, tp: 0, tape: vec![0; TAPE_SIZE], program, loop_lookup })
    }
}

/// A cell after an increment, wrapping 255 to 0.
pub open spec fn cell_inc(c: u8) -> u8 {
    if c == 255 {
        0
    } else {
        (c + 1) as u8
    }
}

/// A cell after a decrement, wrapping 0 to 255.
pub open spec fn cell_dec(c: u8) -> u8 {
    if c == 0 {
        255
    } else {
        (c - 1) as u8
    }
}

/// The line of disassembly for one instruction; none for a filtered byte.
pub open spec fn disassembly_line(ins: BfInstruction) -> Seq<char> {
    match ins {
        BfInstruction::MovePointerToRight => "MOVE_R\t\t[MovePointerToRight]"@,
        BfInstruction::MovePointerToLeft => "MOVE_L\t\t[MovePointerToLeft]"@,
        BfInstruction::IncreaseCell => "INC\t\t[IncreaseCell]"@,
        BfInstruction::DecreaseCell => "DEC\t\t[DecreaseCell]"@,
        BfInstruction::LoopStart => "LOOP_S\t\t[LoopStart]"@,
        BfInstruction::LoopEnd => "LOOP_E\t\t[LoopEnd]"@,
        BfInstruction::Getchar => "GETC\t\t[Getchar]"@,
        BfInstruction::Putchar => "PUTC\t\t[Putchar]"@,
        BfInstruction::NoInstruction => Seq::empty(),
    }
}

/// One line of disassembly per instruction, in program order.
pub open spec fn disassembly_lines(p: Seq<BfInstruction>) -> Seq<Seq<char>> {
    p.map_values(|ins: BfInstruction| disassembly_line(ins))
}

/// Renders a program as text, one line per instruction.
pub trait Disassembly {
    spec fn disassembly_view(&self) -> Seq<Seq<char>>;

    fn disassembly(&self) -> (r: Vec<String>)
        ensures
            r@.map_values(|l: String| l@) == self.disassembly_view(),
    ;
}

impl Disassembly for BfMachine {
    open spec fn disassembly_view(&self) -> Seq<Seq<char>> {
        disassembly_lines(self.program@)
    }

    fn disassembly(&self) -> (r: Vec<String>) {
        let mut disas_list: Vec<String> = Vec::new();
        let mut i: usize = 0;
        while i < self.program.len()
            invariant
                i <= self.program@.len(),
                disas_list@.len() == i,
                forall|k: int|
                    0 <= k < i ==> #[trigger] disas_list@[k]@ == disassembly_line(self.program@[k]),
            decreases self.program@.len() - i,
        {
            let disas = match self.program[i] {
                BfInstruction::MovePointerToRight => "MOVE_R\t\t[MovePointerToRight]".to_owned(),
                BfInstruction::MovePointerToLeft => "MOVE_L\t\t[MovePointerToLeft]".to_owned(),
                BfInstruction::IncreaseCell => "INC\t\t[IncreaseCell]".to_owned(),
                BfInstruction::DecreaseCell => "DEC\t\t[DecreaseCell]".to_owned(),
                BfInstruction::LoopStart => "LOOP_S\t\t[LoopStart]".to_owned(),
                BfInstruction::LoopEnd => "LOOP_E\t\t[LoopEnd]".to_owned(),
                BfInstruction::Getchar => "GETC\t\t[Getchar]".to_owned(),
                BfInstruction::Putchar => "PUTC\t\t[Putchar]".to_owned(),
                BfInstruction::NoInstruction => String::new(),
            };
            disas_list.push(disas);
            i += 1;
        }
        assert(disas_list@.map_values(|l: String| l@) =~= disassembly_lines(self.program@));
        disas_list
    }
}

impl BfMachine {
    /// The value of the current cell.
    pub open spec fn cell(&self) -> u8 {
        self.tape@[self.tp as int]
    }

    /// The instruction at the program counter, if there is one.
    pub open spec fn current(&self) -> Option<BfInstruction> {
        if self.pc < self.program@.len() {
            Some(self.program@[self.pc as int])
        } else {
            None
        }
    }

    /// What one step reports: a move off either end of the tape fails, the
    /// I/O instructions ask the host for their I/O, and past the program's end
    /// the run is over.
    pub open spec fn step_outcome(&self) -> Result<BfAction, BfError> {
        match self.current() {
            None => Ok(BfAction::Halted),
            Some(BfInstruction::MovePointerToRight) => if self.tp + 1 >= TAPE_SIZE {
                Err(BfError::OutOfBounds)
            } else {
                Ok(BfAction::Continue)
            },
            Some(BfInstruction::MovePointerToLeft) => if self.tp == 0 {
                Err(BfError::OutOfBounds)
            } else {
                Ok(BfAction::Continue)
            },
            Some(BfInstruction::Getchar) => Ok(BfAction::ReadInput),
            Some(BfInstruction::Putchar) => Ok(BfAction::WriteOutput(self.cell())),
            Some(_) => Ok(BfAction::Continue),
        }
    }

    /// The program counter after a step that succeeds: a loop start over a
    /// zero cell and a loop end over a nonzero cell jump to their partner,
    /// every other instruction moves on by one.
    pub open spec fn next_pc(&self) -> int {
        match self.current() {
            None => self.pc as int,
            Some(BfInstruction::LoopStart) => if self.cell() == 0 {
                self.loop_lookup@[self.pc] as int
            } else {
                self.pc + 1
            },
            Some(BfInstruction::LoopEnd) => if self.cell() != 0 {
                self.loop_lookup@[self.pc] as int
            } else {
                self.pc + 1
            },
            Some(_) => self.pc + 1,
        }
    }

    /// The tape pointer after a step that succeeds.
    pub open spec fn next_tp(&self) -> int {
        match self.current() {
            Some(BfInstruction::MovePointerToRight) => self.tp + 1,
            Some(BfInstruction::MovePointerToLeft) => self.tp - 1,
            _ => self.tp as int,
        }
    }

    /// The tape after a step that succeeds.
    pub open spec fn next_tape(&self) -> Seq<u8> {
        match self.current() {
            Some(BfInstruction::IncreaseCell) => self.tape@.update(
                self.tp as int,
                cell_inc(self.cell()),
            ),
            Some(BfInstruction::DecreaseCell) => self.tape@.update(
                self.tp as int,
                cell_dec(self.cell()),
            ),
            _ => self.tape@,
        }
    }

    /// Runs the instruction at the program counter. A failed step leaves the
    /// machine as it was.
    pub fn step(&mut self) -> (r: Result<BfAction, BfError>)
        requires
            old(self).wf(),
        ensures
            final(self).wf(),
            r == old(self).step_outcome(),
            final(self).program@ == old(self).program@,
            final(self).loop_lookup@ == old(self).loop_lookup@,
            match r {
                Ok(_) => {
                    &&& final(self).pc == old(self).next_pc()
                    &&& final(self).tp == old(self).next_tp()
                    &&& final(self).tape@ == old(self).next_tape()
                },
                Err(_) => {
                    &&& final(self).pc == old(self).pc
                    &&& final(self).tp == old(self).tp
                    &&& final(self).tape@ == old(self).tape@
                },
            },
    {
        if self.pc >= self.program.len() {
            return Ok(BfAction::Halted);
        }
        let instr = self.program[self.pc];
        let tp = self.tp as usize;
        let mut action = BfAction::Continue;
        match instr {
            BfInstruction::MovePointerToRight => {
                if tp + 1 >= TAPE_SIZE {
                    return Err(BfError::OutOfBounds);
                }
                self.tp = self.tp + 1;
            },
            BfInstruction::MovePointerToLeft => {
                if self.tp == 0 {
                    return Err(BfError::OutOfBounds);
                }
                self.tp = self.tp - 1;
            },
            BfInstruction::IncreaseCell => {
                let tv = self.tape[tp];
                let nv: u8 = if tv == 255 {
                    0
                } else {
                    tv + 1
                };
                self.tape.set(tp, nv);
            },
            BfInstruction::DecreaseCell => {
                let tv = self.tape[tp];
                let nv: u8 = if tv == 0 {
                    255
                } else {
                    tv - 1
                };
                self.tape.set(tp, nv);
            },
            BfInstruction::LoopStart => {
                if self.tape[tp] == 0 {
                    assert(self.loop_lookup@.contains_key(self.pc as int as usize));
                    self.pc = *self.loop_lookup.get(&self.pc).unwrap();
                    return Ok(BfAction::Continue);
                }
            },
            BfInstruction::LoopEnd => {
                if self.tape[tp] != 0 {
                    assert(self.loop_lookup@.contains_key(self.pc as int as usize));
                    self.pc = *self.loop_lookup.get(&self.pc).unwrap();
                    return Ok(BfAction::Continue);
                }
            },
            BfInstruction::Getchar => {
                action = BfAction::ReadInput;
            },
            BfInstruction::Putchar => {
                action = BfAction::WriteOutput(self.tape[tp]);
            },
            BfInstruction::NoInstruction => {},
        }
        self.pc = self.pc + 1;
        Ok(action)
    }

    /// Completes a read: the first byte of the line the host read goes into
    /// the current cell; an empty line leaves the cell as it was.
    pub fn store_input(&mut self, line: &Vec<u8>)
        requires
            old(self).wf(),
        ensures
            final(self).wf(),
            final(self).pc == old(self).pc,
            final(self).tp == old(self).tp,
            final(self).program@ == old(self).program@,
            final(self).loop_lookup@ == old(self).loop_lookup@,
            final(self).tape@ == if line@.len() > 0 {
                old(self).tape@.update(old(self).tp as int, line@[0])
            } else {
                old(self).tape@
            },
    {
        if line.len() > 0 {
            let tp = self.tp as usize;
            self.tape.set(tp, line[0]);
        }
    }
}

} // verus!
