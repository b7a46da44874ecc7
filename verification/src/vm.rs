//! The machine state — register file plus flat memory — and the
//! fetch-decode-execute run loop.

use crate::instruction::Event;
use crate::instruction::execute_instruction;
use crate::instruction::instr_effect;
use crate::instruction::lemma_instr_effect_extends_out;
use crate::instruction::lemma_prefix_append;
use crate::instruction::lemma_prefix_trans;
use crate::registers::Registers;
use vstd::prelude::*;

verus! {

/// Number of 16-bit cells in the address space.
pub const MEMORY_SIZE: usize = 0x10000;

/// The whole machine: 65,536 memory cells and the register file.
pub struct VM {
    pub memory: Vec<u16>,
    pub registers: Registers,
}

impl VM {
    /// A machine is well formed when its memory covers the full 16-bit
    /// address space, one cell per address.
    pub open spec fn wf(self) -> bool {
        self.memory@.len() == MEMORY_SIZE
    }

    /// A fresh machine: memory zero-filled, registers zero-filled.
    pub fn new() -> (vm: VM)
        ensures
            vm.wf(),
            forall|a: int| 0 <= a < MEMORY_SIZE ==> vm.memory@[a] == 0,
            forall|i: int| 0 <= i < 8 ==> vm.registers.reg(i) == 0,
            vm.registers.pc == 0,
            vm.registers.cond == crate::registers::Cond::Zero,
    {
        let mut memory: Vec<u16> = Vec::new();
        let mut i: usize = 0;
        while i < MEMORY_SIZE
            invariant
                i <= MEMORY_SIZE,
                memory@.len() == i,
                forall|a: int| 0 <= a < i ==> memory@[a] == 0,
            decreases MEMORY_SIZE - i,
        {
            memory.push(0);
            i = i + 1;
        }
        VM { memory, registers: Registers::new() }
    }

    /// Read the cell at `address`. Every 16-bit address is in range.
    pub fn read_memory(&self, address: u16) -> (v: u16)
        requires
            self.wf(),
        ensures
            v == self.memory@[address as int],
    {
        self.memory[address as usize]
    }

    /// Write `value` to the cell at `address`; no other cell changes.
    pub fn write_memory(&mut self, address: usize, value: u16)
        requires
            old(self).wf(),
            address < MEMORY_SIZE,
        ensures
            final(self).wf(),
            final(self).memory@ == old(self).memory@.update(address as int, value),
            final(self).registers == old(self).registers,
    {
        self.memory.set(address, value);
    }

    /// This machine right after a fetch: the program counter moved past the
    /// instruction just read; nothing else changed.
    pub open spec fn after_fetch(self) -> VM {
        VM { memory: self.memory, registers: self.registers.with_pc((self.registers.pc + 1) as u16) }
    }
}

/// One completed fetch-decode-execute step that lets the loop go on: from
/// `pre`, the cell at `pc` was fetched, `pc` incremented, and the
/// instruction's effect produced `post` with the run loop told to continue.
pub open spec fn steps_to(pre: VM, pre_out: Seq<u8>, post: VM, post_out: Seq<u8>) -> bool {
    &&& pre.registers.pc < 0xFFFF
    &&& instr_effect(
        pre.after_fetch(),
        post,
        pre.memory@[pre.registers.pc as int],
        pre_out,
        post_out,
        Event::Continue,
    )
}

/// A run of the machine recorded state by state: entry `i` holds the machine
/// and the output after `i` completed steps, and each entry steps to the
/// next.
pub open spec fn is_run(tr: Seq<(VM, Seq<u8>)>) -> bool {
    forall|i: int|
        0 <= i < tr.len() - 1 ==> #[trigger] steps_to(tr[i].0, tr[i].1, tr[i + 1].0, tr[i + 1].1)
}

/// `post` is what `n` completed steps of the machine make of `pre`, every
/// one of them leaving the loop running: some run of `n` steps starts at
/// `pre` and ends at `post`.
pub open spec fn reachable(
    pre: VM,
    pre_out: Seq<u8>,
    post: VM,
    post_out: Seq<u8>,
    n: nat,
) -> bool {
    exists|tr: Seq<(VM, Seq<u8>)>|
        #[trigger] is_run(tr) && tr.len() == n + 1 && tr[0] == (pre, pre_out) && tr[n as int] == (
        post,
        post_out,
        )
}

/// The machine reaches itself in zero steps.
proof fn lemma_reachable_zero(pre: VM, pre_out: Seq<u8>)
    ensures
        reachable(pre, pre_out, pre, pre_out, 0),
{
    let tr: Seq<(VM, Seq<u8>)> = seq![(pre, pre_out)];
    assert(is_run(tr));
}

/// The run loop's last step out of state `pre`: either the program counter
/// stands at the top of the address space and the loop stops without a fetch,
/// or the fetched instruction's effect ends or suspends the loop with `r`.
pub open spec fn stops_with(
    pre: VM,
    pre_out: Seq<u8>,
    post: VM,
    post_out: Seq<u8>,
    r: Event,
) -> bool {
    if pre.registers.pc == 0xFFFF {
        post == pre && post_out == pre_out && r == Event::OutOfBounds
    } else {
        &&& instr_effect(
            pre.after_fetch(),
            post,
            pre.memory@[pre.registers.pc as int],
            pre_out,
            post_out,
            r,
        )
        &&& r != Event::Continue
    }
}

/// A completed run extends to one more step.
proof fn lemma_reachable_snoc(
    pre: VM,
    pre_out: Seq<u8>,
    mid: VM,
    mid_out: Seq<u8>,
    post: VM,
    post_out: Seq<u8>,
    n: nat,
)
    requires
        reachable(pre, pre_out, mid, mid_out, n),
        steps_to(mid, mid_out, post, post_out),
    ensures
        reachable(pre, pre_out, post, post_out, n + 1),
{
    let tr = choose|tr: Seq<(VM, Seq<u8>)>|
        #[trigger] is_run(tr) && tr.len() == n + 1 && tr[0] == (pre, pre_out) && tr[n as int] == (
        mid,
        mid_out,
        );
    let tr2 = tr.push((post, post_out));
    assert(tr2[n as int] == (mid, mid_out));
    assert(tr2[n as int + 1] == (post, post_out));
    assert(is_run(tr2)) by {
        assert forall|i: int| 0 <= i < tr2.len() - 1 implies #[trigger] steps_to(
            tr2[i].0,
            tr2[i].1,
            tr2[i + 1].0,
            tr2[i + 1].1,
        ) by {
            if i < n {
                assert(tr2[i] == tr[i]);
                assert(tr2[i + 1] == tr[i + 1]);
                assert(steps_to(tr[i].0, tr[i].1, tr[i + 1].0, tr[i + 1].1));
            }
        }
    }
}

/// Load a program image: `words` fill consecutive cells from `origin`, and
/// the program counter is set to `origin`, ready for the run loop. Every
/// other cell and register keeps its value.
pub fn load_image(vm: &mut VM, origin: u16, words: &Vec<u16>)
    requires
        old(vm).wf(),
        origin + words@.len() <= MEMORY_SIZE,
    ensures
        final(vm).wf(),
        forall|k: int| 0 <= k < words@.len() ==> final(vm).memory@[origin + k] == words@[k],
        forall|a: int|
            0 <= a < MEMORY_SIZE && !(origin <= a < origin + words@.len())
                ==> final(vm).memory@[a] == old(vm).memory@[a],
        final(vm).registers == old(vm).registers.with_pc(origin),
{
    let mut k: usize = 0;
    while k < words.len()
        invariant
            vm.wf(),
            origin + words@.len() <= MEMORY_SIZE,
            k <= words@.len(),
            forall|j: int| 0 <= j < k ==> vm.memory@[origin + j] == words@[j],
            forall|a: int|
                0 <= a < MEMORY_SIZE && !(origin <= a < origin + k) ==> vm.memory@[a]
                    == old(vm).memory@[a],
            vm.registers == old(vm).registers,
        decreases words@.len() - k,
    {
        vm.write_memory(origin as usize + k, words[k]);
        k = k + 1;
    }
    vm.registers.pc = origin;
}

/// Hand the machine the character a blocking input trap asked for: its code
/// goes to `R0`, and with `echo` set (the IN trap) the character is also
/// appended to the output. No other register, flag or cell moves.
pub fn provide_input(vm: &mut VM, ch: u8, echo: bool, out: &mut Vec<u8>)
    requires
        old(vm).wf(),
    ensures
        final(vm).wf(),
        final(vm).memory@ == old(vm).memory@,
        final(vm).registers == old(vm).registers.spec_set(0, ch as u16),
        final(out)@ == if echo {
            old(out)@.push(ch)
        } else {
            old(out)@
        },
{
    vm.registers.update(0, ch as u16);
    if echo {
        out.push(ch);
    }
}

/// Drive the machine: fetch, increment, decode, execute, at most `max_steps`
/// times. The result is `Continue` only when the step budget ran out with
/// the program still going; any other event says how the run ended — `Halted`
/// for the HALT trap, `OutOfBounds` for address-space exhaustion,
/// `AwaitInput` when a blocking input trap needs a character (resume by
/// calling [`provide_input`] and then this again), and the two fatal stops.
///
/// The contract ties the result to the small-step semantics: some number
/// `n <= max_steps` of completed steps leads from the starting state to an
/// intermediate one, from which the loop either stopped by [`stops_with`] or
/// ran out of budget exactly there.
pub fn execute_program(vm: &mut VM, out: &mut Vec<u8>, max_steps: usize) -> (r: Event)
    requires
        old(vm).wf(),
    ensures
        final(vm).wf(),
        old(out)@.is_prefix_of(final(out)@),
        exists|n: nat, mid: VM, mid_out: Seq<u8>|
            n <= max_steps && #[trigger] reachable(*old(vm), old(out)@, mid, mid_out, n) && (if r
                == Event::Continue {
                n == max_steps && *final(vm) == mid && final(out)@ == mid_out
            } else {
                stops_with(mid, mid_out, *final(vm), final(out)@, r)
            }),
        r == Event::OutOfBounds ==> final(vm).registers.pc == 0xFFFF,
{
    let mut steps: usize = 0;
    proof {
        lemma_prefix_append(out@, Seq::empty());
        assert(out@ + Seq::<u8>::empty() =~= out@);
        lemma_reachable_zero(*old(vm), old(out)@);
    }
    while steps < max_steps
        invariant_except_break
            vm.wf(),
            steps <= max_steps,
            reachable(*old(vm), old(out)@, *vm, out@, steps as nat),
            old(out)@.is_prefix_of(out@),
        ensures
            vm.wf(),
            old(out)@.is_prefix_of(out@),
            exists|n: nat, mid: VM, mid_out: Seq<u8>|
                n <= max_steps && #[trigger] reachable(*old(vm), old(out)@, mid, mid_out, n)
                    && n == max_steps && *vm == mid && out@ == mid_out,
        decreases max_steps - steps,
    {
        let ghost pre = *vm;
        let ghost pre_out = out@;
        if vm.registers.pc == 0xFFFF {
            proof {
                assert(reachable(*old(vm), old(out)@, pre, pre_out, steps as nat));
            }
            return Event::OutOfBounds;
        }
        let instr = vm.read_memory(vm.registers.pc);
        vm.registers.pc = vm.registers.pc + 1;
        let r = execute_instruction(vm, instr, out);
        proof {
            lemma_instr_effect_extends_out(
                pre.after_fetch(),
                *vm,
                instr,
                pre_out,
                out@,
                r,
            );
            lemma_prefix_trans(old(out)@, pre_out, out@);
        }
        match r {
            Event::Continue => {
                proof {
                    lemma_reachable_snoc(
                        *old(vm),
                        old(out)@,
                        pre,
                        pre_out,
                        *vm,
                        out@,
                        steps as nat,
                    );
                }
                steps = steps + 1;
            },
            _ => {
                proof {
                    assert(reachable(*old(vm), old(out)@, pre, pre_out, steps as nat));
                    assert(stops_with(pre, pre_out, *vm, out@, r));
                }
                return r;
            },
        }
    }
    Event::Continue
}

} // verus!
