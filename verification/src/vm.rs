//! The virtual machine: register file, dispatcher, condition handling,
//! iteration and comprehension engines, rule calls and virtual lookup.

use vstd::prelude::*;
use crate::value::{
    Value, SpecValue, wf_val, view_of, seq_view, kvs_view, clone_value, to_bool_value, truthy,
    is_undefined, value_cmp, cmp_vals,
};
use crate::containers::{
    obj_inserted, set_added, arr_pushed, value_index, value_contains, count_value, spec_index,
    obj_updated, set_with, spec_contains, spec_count,
};
use crate::ops::{add_values, sub_values, mul_values, div_values, mod_values};
use crate::program::{
    Program, Instruction, LiteralOrRegister, LoopMode, ComprehensionMode, RuleType,
    LoopStartParams, ComprehensionBeginParams, prog_wf,
};
use crate::errors::VmError;

verus! {

broadcast use vstd::group_vstd_default;

/// Iterator state over a snapshot of the collection being walked.
/// Object and set iteration advances by cursor: the next entry is the
/// first, in ascending order, beyond the stored key or item.
#[derive(Debug)]
pub enum IterationState {
    Array { items: Vec<Value>, index: usize },
    Object { obj: Vec<(Value, Value)>, current_key: Option<Value>, first_iteration: bool },
    SetV { items: Vec<Value>, current_item: Option<Value>, first_iteration: bool },
}

/// Loop execution context for managing iteration state.
#[derive(Debug)]
pub struct LoopContext {
    pub mode: LoopMode,
    pub iteration_state: IterationState,
    pub key_reg: u8,
    pub value_reg: u8,
    pub result_reg: u8,
    pub body_start: u16,
    pub loop_end: u16,
    pub loop_next_pc: u16,
    pub success_count: usize,
    pub total_iterations: usize,
    pub current_iteration_failed: bool,
}

/// A pending rule call: where to return and what to write back.
#[derive(Debug, Clone, Copy)]
pub struct CallRuleContext {
    pub return_pc: usize,
    pub dest_reg: u8,
    pub result_reg: u8,
    pub rule_index: u16,
    pub rule_type: RuleType,
    pub current_definition_index: usize,
    pub current_body_index: usize,
}

/// An active comprehension: its mode and accumulator register.
#[derive(Debug, Clone, Copy)]
pub struct ComprehensionContext {
    pub mode: ComprehensionMode,
    pub collection_reg: u8,
    pub comprehension_end: u16,
}

/// What to do after an iteration, by loop mode and iteration outcome.
#[derive(Debug, Clone, Copy)]
enum LoopAction {
    ExitWithSuccess,
    ExitWithFailure,
    Continue,
}

// ------------------------------------------------------------------
// Well-formedness
// ------------------------------------------------------------------

pub open spec fn vals_wf(s: Seq<Value>) -> bool {
    forall|i: int| 0 <= i < s.len() ==> wf_val(view_of(#[trigger] s[i]))
}

pub open spec fn windows_wf(s: Seq<Vec<Value>>) -> bool {
    forall|i: int| 0 <= i < s.len() ==> vals_wf(#[trigger] s[i]@)
}

pub open spec fn cache_wf(s: Seq<(bool, Value)>) -> bool {
    forall|i: int| 0 <= i < s.len() ==> wf_val(view_of(#[trigger] s[i].1))
}

pub open spec fn iter_wf(st: IterationState) -> bool {
    match st {
        IterationState::Array { items, .. } => vals_wf(items@),
        IterationState::Object { obj, current_key, .. } => {
            &&& wf_val(SpecValue::Obj(kvs_view(obj@)))
            &&& (current_key matches Some(k) ==> wf_val(view_of(k)))
        },
        IterationState::SetV { items, current_item, .. } => {
            &&& wf_val(SpecValue::SetV(seq_view(items@)))
            &&& (current_item matches Some(v) ==> wf_val(view_of(v)))
        },
    }
}

pub open spec fn frames_wf(s: Seq<LoopContext>) -> bool {
    forall|i: int| 0 <= i < s.len() ==> iter_wf((#[trigger] s[i]).iteration_state)
}

// ------------------------------------------------------------------
// Mode-level result tables
// ------------------------------------------------------------------

/// The vacuous result of a loop over an empty (or non-iterable)
/// collection: `Any` is false, `Every` is true, `ForEach` is false.
pub open spec fn empty_loop_result(mode: LoopMode) -> bool {
    match mode {
        LoopMode::Any => false,
        LoopMode::Every => true,
        LoopMode::ForEach => false,
    }
}

/// The final result of a completed loop, from its success accounting:
/// `Any` succeeded somewhere, `Every` succeeded everywhere, `ForEach`
/// succeeded somewhere.
pub open spec fn loop_final_result(mode: LoopMode, successes: nat, total: nat) -> bool {
    match mode {
        LoopMode::Any => successes > 0,
        LoopMode::Every => successes == total,
        LoopMode::ForEach => successes > 0,
    }
}

// ------------------------------------------------------------------
// The machine
// ------------------------------------------------------------------

/// The virtual machine. One execution at a time; every `execute…`
/// entry resets the per-execution state first.
#[derive(Debug)]
pub struct RegoVM {
    pub registers: Vec<Value>,
    pub pc: usize,
    pub program: Program,
    pub rule_cache: Vec<(bool, Value)>,
    pub data: Value,
    pub input: Value,
    pub loop_stack: Vec<LoopContext>,
    pub call_rule_stack: Vec<CallRuleContext>,
    pub register_stack: Vec<Vec<Value>>,
    pub comprehension_stack: Vec<ComprehensionContext>,
    pub base_register_count: usize,
    pub register_window_pool: Vec<Vec<Value>>,
    pub max_instructions: usize,
    pub executed_instructions: usize,
    pub evaluated: Value,
    pub cache_hits: usize,
}

impl Default for RegoVM {
    /// A machine with an empty program, like [`RegoVM::new`].
    fn default() -> (r: RegoVM)
        ensures
            r.wf(),
            r.spec_executed() == 0,
    {
        RegoVM::new()
    }
}

/// What stays fixed across any execution step: the program, the
/// documents and the limits are untouched.
pub open spec fn config_fixed(pre: RegoVM, post: RegoVM) -> bool {
    &&& post.program == pre.program
    &&& post.data == pre.data
    &&& post.input == pre.input
    &&& post.max_instructions == pre.max_instructions
    &&& post.base_register_count == pre.base_register_count
}

/// What evolves: besides the fixed configuration, the instruction
/// counter never decreases.
pub open spec fn evolves(pre: RegoVM, post: RegoVM) -> bool {
    &&& config_fixed(pre, post)
    &&& post.executed_instructions >= pre.executed_instructions
}

impl RegoVM {
    /// All values reachable from the machine are well-formed.
    pub open spec fn wf(self) -> bool {
        &&& vals_wf(self.registers@)
        &&& windows_wf(self.register_stack@)
        &&& windows_wf(self.register_window_pool@)
        &&& cache_wf(self.rule_cache@)
        &&& wf_val(self.data@)
        &&& wf_val(self.input@)
        &&& wf_val(self.evaluated@)
        &&& frames_wf(self.loop_stack@)
        &&& prog_wf(self.program)
    }

    pub open spec fn spec_pc(self) -> usize {
        self.pc
    }

    pub open spec fn spec_executed(self) -> usize {
        self.executed_instructions
    }

    pub open spec fn spec_max_instructions(self) -> usize {
        self.max_instructions
    }

    /// Create a machine with an empty program.
    pub fn new() -> (r: RegoVM)
        ensures
            r.wf(),
            r.spec_executed() == 0,
    {
        RegoVM {
            registers: Vec::new(),
            pc: 0,
            program: Program::new_empty(),
            rule_cache: Vec::new(),
            data: Value::Null,
            input: Value::Null,
            loop_stack: Vec::new(),
            call_rule_stack: Vec::new(),
            register_stack: Vec::new(),
            comprehension_stack: Vec::new(),
            base_register_count: 2,
            register_window_pool: Vec::new(),
            max_instructions: 25000,
            executed_instructions: 0,
            evaluated: Value::new_object(),
            cache_hits: 0,
        }
    }

    /// Load a program: size the base register window from it, clear the
    /// rule cache, and stand at its main entry point.
    pub fn load_program(&mut self, program: Program)
        requires
            old(self).wf(),
            prog_wf(program),
        ensures
            final(self).wf(),
            final(self).program == program,
            final(self).spec_executed() == 0,
            final(self).spec_pc() == program.main_entry_point,
            final(self).base_register_count == (if program.dispatch_window_size > 2 {
                program.dispatch_window_size as int
            } else {
                2int
            }),
            final(self).registers@.len() == final(self).base_register_count,
            forall|i: int|
                0 <= i < final(self).registers@.len() ==> view_of(
                    #[trigger] final(self).registers@[i],
                ) == SpecValue::Null,
            final(self).rule_cache@.len() == program.rule_infos@.len(),
            forall|i: int|
                0 <= i < final(self).rule_cache@.len() ==> !(#[trigger] final(self).rule_cache@[i]).0,
            final(self).data == old(self).data,
            final(self).input == old(self).input,
            final(self).max_instructions == old(self).max_instructions,
    {
        let dispatch_size = if program.dispatch_window_size > 2 {
            program.dispatch_window_size
        } else {
            2
        };
        let n_rules = program.rule_infos.len();
        let main_entry = program.main_entry_point;
        self.program = program;
        self.base_register_count = dispatch_size;
        self.registers = filled_window(dispatch_size, false);
        self.rule_cache = fresh_rule_cache(n_rules);
        self.pc = main_entry;
        self.executed_instructions = 0;
    }

    /// Cap the number of instructions one execution may perform.
    pub fn set_max_instructions(&mut self, max: usize)
        requires
            old(self).wf(),
        ensures
            final(self).wf(),
            final(self).spec_max_instructions() == max,
            *final(self) == (RegoVM { max_instructions: max, ..*old(self) }),
    {
        self.max_instructions = max;
    }

    /// Set the base register count (at least 1) for the root window.
    /// An already-allocated window is resized in place, keeping the
    /// values that still fit and padding with `Null`.
    pub fn set_base_register_count(&mut self, count: usize)
        requires
            old(self).wf(),
        ensures
            final(self).wf(),
            final(self).base_register_count == (if count < 1 {
                1int
            } else {
                count as int
            }),
            *final(self) == (RegoVM {
                registers: final(self).registers,
                base_register_count: final(self).base_register_count,
                ..*old(self)
            }),
            old(self).registers@.len() == 0 ==> final(self).registers == old(self).registers,
            old(self).registers@.len() > 0 ==> ({
                &&& final(self).registers@.len() == final(self).base_register_count
                &&& (forall|j: int|
                    0 <= j < final(self).registers@.len() && j < old(self).registers@.len()
                        ==> final(self).registers@[j] == old(self).registers@[j])
                &&& (forall|j: int|
                    old(self).registers@.len() <= j < final(self).registers@.len() ==> view_of(
                        #[trigger] final(self).registers@[j],
                    ) == SpecValue::Null)
            }),
    {
        let c = if count < 1 {
            1
        } else {
            count
        };
        self.base_register_count = c;
        if self.registers.len() != 0 {
            if self.registers.len() > c {
                self.registers.truncate(c);
                proof {
                    assert forall|i: int| 0 <= i < self.registers@.len() implies wf_val(
                        view_of(#[trigger] self.registers@[i]),
                    ) by {
                        assert(self.registers@[i] == old(self).registers@[i]);
                    }
                }
            }
            while self.registers.len() < c
                invariant
                    self.wf(),
                    self.base_register_count == (if count < 1 {
                        1int
                    } else {
                        count as int
                    }),
                    c == self.base_register_count,
                    self.registers@.len() <= c,
                    self.registers@.len() >= (if old(self).registers@.len() < c {
                        old(self).registers@.len() as int
                    } else {
                        c as int
                    }),
                    *self == (RegoVM {
                        registers: self.registers,
                        base_register_count: self.base_register_count,
                        ..*old(self)
                    }),
                    forall|j: int|
                        0 <= j < self.registers@.len() && j < old(self).registers@.len()
                            ==> self.registers@[j] == old(self).registers@[j],
                    forall|j: int|
                        old(self).registers@.len() <= j < self.registers@.len() ==> view_of(
                            #[trigger] self.registers@[j],
                        ) == SpecValue::Null,
                decreases c - self.registers@.len(),
            {
                self.registers.push(Value::Null);
            }
        }
    }

    /// Set the global data document; refused when it collides with a
    /// rule-defined path in the rule tree.
    pub fn set_data(&mut self, data: Value) -> (r: Result<(), VmError>)
        requires
            old(self).wf(),
            wf_val(data@),
        ensures
            final(self).wf(),
            r is Ok ==> final(self).data == data && *final(self) == (RegoVM { data: data, ..*old(self) }),
            r is Err ==> *final(self) == *old(self) && (r matches Err(e) && e is RuleDataConflict),
            r is Ok <==> !crate::program::tree_conflict(
                spec_index(old(self).program.rule_tree@, SpecValue::Text("data"@)),
                data@,
            ),
    {
        match self.program.check_rule_data_conflicts(&data) {
            Ok(()) => {
                self.data = data;
                Ok(())
            },
            Err(e) => Err(e),
        }
    }

    /// Set the per-evaluation input document.
    pub fn set_input(&mut self, input: Value)
        requires
            old(self).wf(),
            wf_val(input@),
        ensures
            final(self).wf(),
            *final(self) == (RegoVM { input: input, ..*old(self) }),
    {
        self.input = input;
    }

    pub fn get_pc(&self) -> (r: usize)
        ensures
            r == self.spec_pc(),
    {
        self.pc
    }

    pub fn get_registers(&self) -> &Vec<Value> {
        &self.registers
    }

    pub fn get_program(&self) -> &Program {
        &self.program
    }

    pub fn get_call_stack(&self) -> &Vec<CallRuleContext> {
        &self.call_rule_stack
    }

    pub fn get_loop_stack(&self) -> &Vec<LoopContext> {
        &self.loop_stack
    }

    pub fn get_cache_hits(&self) -> usize {
        self.cache_hits
    }

    pub fn get_entry_point_count(&self) -> (r: usize)
        ensures
            r == self.program.entry_points@.len(),
    {
        self.program.entry_points.len()
    }

    /// All entry point names, in table order.
    pub fn get_entry_point_names(&self) -> (r: Vec<String>)
        ensures
            r@.len() == self.program.entry_points@.len(),
            forall|i: int|
                0 <= i < r@.len() ==> #[trigger] r@[i]@ == self.program.entry_points@[i].0@,
    {
        entry_point_names(&self.program)
    }

    /// Drop every trace of the previous execution: counters, caches,
    /// stacks, and the register file.
    fn reset_execution_state(&mut self)
        requires
            old(self).wf(),
        ensures
            final(self).wf(),
            config_fixed(*old(self), *final(self)),
            final(self).spec_executed() == 0,
            final(self).spec_pc() == 0,
            final(self).evaluated@ == SpecValue::Obj(Seq::<(SpecValue, SpecValue)>::empty()),
            final(self).loop_stack@.len() == 0,
            final(self).call_rule_stack@.len() == 0,
            final(self).comprehension_stack@.len() == 0,
            final(self).register_stack@.len() == 0,
            final(self).registers@.len() == final(self).base_register_count,
            forall|i: int|
                0 <= i < final(self).registers@.len() ==> view_of(
                    #[trigger] final(self).registers@[i],
                ) == SpecValue::Null,
            final(self).rule_cache@.len() == final(self).program.rule_infos@.len(),
            forall|i: int|
                0 <= i < final(self).rule_cache@.len() ==> (#[trigger] final(self).rule_cache@[i]).0
                    == false,
            forall|i: int|
                0 <= i < final(self).rule_cache@.len() ==> view_of(
                    (#[trigger] final(self).rule_cache@[i]).1,
                ) is Undefined,
            final(self).cache_hits == 0,
    {
        self.executed_instructions = 0;
        self.pc = 0;
        self.evaluated = Value::new_object();
        self.cache_hits = 0;
        self.return_to_pools();
        self.rule_cache = fresh_rule_cache(self.program.rule_infos.len());
        self.registers = filled_window(self.base_register_count, false);
    }

    /// Clear the stacks, returning register windows to the pool.
    fn return_to_pools(&mut self)
        requires
            old(self).wf(),
        ensures
            final(self).wf(),
            evolves(*old(self), *final(self)),
            final(self).spec_executed() == old(self).spec_executed(),
            final(self).loop_stack@.len() == 0,
            final(self).call_rule_stack@.len() == 0,
            final(self).comprehension_stack@.len() == 0,
            final(self).register_stack@.len() == 0,
            final(self).registers == old(self).registers,
            final(self).rule_cache == old(self).rule_cache,
            final(self).evaluated == old(self).evaluated,
            final(self).pc == old(self).pc,
            final(self).cache_hits == old(self).cache_hits,
    {
        self.loop_stack = Vec::new();
        self.call_rule_stack = Vec::new();
        self.comprehension_stack = Vec::new();
        while self.register_stack.len() > 0
            invariant
                self.wf(),
                evolves(*old(self), *self),
                self.spec_executed() == old(self).spec_executed(),
                self.loop_stack@.len() == 0,
                self.call_rule_stack@.len() == 0,
                self.comprehension_stack@.len() == 0,
                self.registers == old(self).registers,
                self.rule_cache == old(self).rule_cache,
                self.evaluated == old(self).evaluated,
                self.pc == old(self).pc,
                self.cache_hits == old(self).cache_hits,
            decreases self.register_stack@.len(),
        {
            let w = self.register_stack.pop();
            match w {
                Some(window) => {
                    self.return_register_window(window);
                },
                None => {},
            }
        }
    }

    /// Take a register window from the pool, or a fresh one.
    fn new_register_window(&mut self) -> (r: Vec<Value>)
        requires
            old(self).wf(),
        ensures
            final(self).wf(),
            evolves(*old(self), *final(self)),
            vals_wf(r@),
            final(self).registers == old(self).registers,
            final(self).register_stack == old(self).register_stack,
            final(self).loop_stack == old(self).loop_stack,
            final(self).call_rule_stack == old(self).call_rule_stack,
            final(self).comprehension_stack == old(self).comprehension_stack,
            final(self).rule_cache == old(self).rule_cache,
            final(self).evaluated == old(self).evaluated,
            final(self).pc == old(self).pc,
            final(self).spec_executed() == old(self).spec_executed(),
    {
        match self.register_window_pool.pop() {
            Some(w) => w,
            None => Vec::new(),
        }
    }

    /// Return a cleared register window to the pool.
    fn return_register_window(&mut self, window: Vec<Value>)
        requires
            old(self).wf(),
        ensures
            final(self).wf(),
            evolves(*old(self), *final(self)),
            final(self).registers == old(self).registers,
            final(self).register_stack == old(self).register_stack,
            final(self).loop_stack == old(self).loop_stack,
            final(self).call_rule_stack == old(self).call_rule_stack,
            final(self).comprehension_stack == old(self).comprehension_stack,
            final(self).rule_cache == old(self).rule_cache,
            final(self).evaluated == old(self).evaluated,
            final(self).pc == old(self).pc,
            final(self).spec_executed() == old(self).spec_executed(),
            final(self).cache_hits == old(self).cache_hits,
    {
        let mut w = window;
        w.clear();
        proof {
            assert(vals_wf(w@));
        }
        self.register_window_pool.push(w);
    }

    /// Check the state invariants the dispatcher relies on.
    fn validate_vm_state(&self) -> (r: Result<(), VmError>)
        ensures
            r is Ok ==> self.registers@.len() >= self.base_register_count && self.spec_pc()
                < self.program.instructions@.len() && self.rule_cache@.len()
                == self.program.rule_infos@.len(),
            r matches Err(e) ==> e is Internal,
    {
        if self.registers.len() < self.base_register_count {
            return Err(VmError::Internal("register window below the base count".to_owned()));
        }
        if self.pc >= self.program.instructions.len() {
            return Err(VmError::Internal("program counter out of range".to_owned()));
        }
        if self.rule_cache.len() != self.program.rule_infos.len() {
            return Err(VmError::Internal("rule cache size differs from the rule count".to_owned()));
        }
        Ok(())
    }

    /// The condition handler: route a failed condition into the
    /// surrounding loop, or fail the body when no loop is active.
    /// A passed condition changes nothing.
    fn handle_condition(&mut self, condition_passed: bool) -> (r: Result<(), VmError>)
        requires
            old(self).wf(),
        ensures
            final(self).wf(),
            r matches Err(e) ==> !(e is InstructionLimitExceeded) && !(e
                is InvalidEntryPointIndex) && !(e is EntryPointNotFound),
            evolves(*old(self), *final(self)),
            final(self).spec_executed() == old(self).spec_executed(),
            condition_passed ==> r is Ok && *final(self) == *old(self),
            !condition_passed && old(self).loop_stack@.len() == 0 ==> *final(self) == *old(self) && (
            r matches Err(e) && e is AssertionFailed),
            !condition_passed && old(self).loop_stack@.len() > 0 ==> ({
                let frames = old(self).loop_stack@;
                let fr = frames[frames.len() - 1];
                match fr.mode {
                    LoopMode::Any | LoopMode::ForEach => {
                        if fr.loop_next_pc >= 1 {
                            &&& r is Ok
                            &&& final(self).loop_stack@ =~= frames.update(
                                frames.len() - 1,
                                (LoopContext { current_iteration_failed: true, ..frames[frames.len() - 1] }),
                            )
                            &&& final(self).spec_pc() == fr.loop_next_pc - 1
                            &&& final(self).registers == old(self).registers
                            &&& ctrl_only(*old(self), *final(self))
                        } else {
                            r is Err && *final(self) == *old(self)
                        }
                    },
                    LoopMode::Every => {
                        if fr.loop_end >= 1 && (fr.result_reg as int) < old(
                            self,
                        ).registers@.len() {
                            &&& r is Ok
                            &&& final(self).loop_stack@ =~= frames.take(frames.len() - 1)
                            &&& final(self).spec_pc() == fr.loop_end - 1
                            &&& final(self).registers@ =~= old(self).registers@.update(
                                fr.result_reg as int,
                                Value::Bool(false),
                            )
                            &&& ctrl_only(*old(self), *final(self))
                        } else {
                            r is Err && *final(self) == *old(self)
                        }
                    },
                }
            }),
    {
        if condition_passed {
            return Ok(());
        }
        let ls_len = self.loop_stack.len();
        if ls_len == 0 {
            return Err(VmError::AssertionFailed);
        }
        let mode = self.loop_stack[ls_len - 1].mode;
        let loop_next_pc = self.loop_stack[ls_len - 1].loop_next_pc;
        let loop_end = self.loop_stack[ls_len - 1].loop_end;
        let result_reg = self.loop_stack[ls_len - 1].result_reg;
        match mode {
            LoopMode::Any | LoopMode::ForEach => {
                if loop_next_pc == 0 {
                    return Err(VmError::Internal("loop body precedes the program".to_owned()));
                }
                let fr = self.loop_stack.pop();
                match fr {
                    Some(mut f) => {
                        f.current_iteration_failed = true;
                        self.loop_stack.push(f);
                    },
                    None => {
                        proof {
                            assert(false);
                        }
                    },
                }
                self.pc = (loop_next_pc - 1) as usize;
                Ok(())
            },
            LoopMode::Every => {
                if loop_end == 0 {
                    return Err(VmError::Internal("loop end precedes the program".to_owned()));
                }
                if result_reg as usize >= self.registers.len() {
                    return Err(VmError::Internal("register index out of range".to_owned()));
                }
                let _ = self.loop_stack.pop();
                self.registers.set(result_reg as usize, Value::Bool(false));
                proof {
                    assert forall|i: int|
                        0 <= i < self.registers@.len() implies wf_val(
                        view_of(#[trigger] self.registers@[i]),
                    ) by {
                        if i != result_reg as int {
                            assert(self.registers@[i] == old(self).registers@[i]);
                        }
                    }
                }
                self.pc = (loop_end - 1) as usize;
                Ok(())
            },
        }
    }
}


// ------------------------------------------------------------------
// Iteration engine
// ------------------------------------------------------------------

impl IterationState {
    /// Step the iterator: arrays move to the next index; object and set
    /// iterators leave their first-element phase (their cursor is the
    /// stored key or item).
    pub fn advance(&mut self)
        requires
            *old(self) matches IterationState::Array { index, .. } ==> index < usize::MAX,
        ensures
            match *old(self) {
                IterationState::Array { items, index } => *final(self) == (IterationState::Array {
                    items,
                    index: (index + 1) as usize,
                }),
                IterationState::Object { obj, current_key, first_iteration: _ } => *final(self)
                    == (IterationState::Object { obj, current_key, first_iteration: false }),
                IterationState::SetV { items, current_item, first_iteration: _ } => *final(self)
                    == (IterationState::SetV { items, current_item, first_iteration: false }),
            },
    {
        let mut st = IterationState::Array { items: Vec::new(), index: 0 };
        core::mem::swap(&mut st, self);
        let new_st = match st {
            IterationState::Array { items, index } => IterationState::Array {
                items,
                index: index + 1,
            },
            IterationState::Object { obj, current_key, first_iteration: _ } => {
                IterationState::Object { obj, current_key, first_iteration: false }
            },
            IterationState::SetV { items, current_item, first_iteration: _ } => {
                IterationState::SetV { items, current_item, first_iteration: false }
            },
        };
        *self = new_st;
    }
}

/// The key/value pair the iterator would load next, if any. For sets the
/// key and the value are the element itself; for arrays the key is the
/// index as a number.
pub open spec fn iter_next(st: IterationState) -> Option<(SpecValue, SpecValue)> {
    match st {
        IterationState::Array { items, index } => {
            if index < items@.len() {
                Some(
                    (
                        SpecValue::Num { n: index as int, d: 1 },
                        view_of(items@[index as int]),
                    ),
                )
            } else {
                None
            }
        },
        IterationState::Object { obj, current_key, first_iteration } => {
            let s = kvs_view(obj@);
            if first_iteration {
                if s.len() > 0 {
                    Some((s[0].0, s[0].1))
                } else {
                    None
                }
            } else {
                match current_key {
                    Some(c) => {
                        let p = crate::containers::lower_key(s, view_of(c), 0);
                        if p < s.len() {
                            Some((s[p].0, s[p].1))
                        } else {
                            None
                        }
                    },
                    None => None,
                }
            }
        },
        IterationState::SetV { items, current_item, first_iteration } => {
            let s = seq_view(items@);
            if first_iteration {
                if s.len() > 0 {
                    Some((s[0], s[0]))
                } else {
                    None
                }
            } else {
                match current_item {
                    Some(c) => {
                        let p = crate::containers::lower_elem(s, view_of(c), 0);
                        if p < s.len() {
                            Some((s[p], s[p]))
                        } else {
                            None
                        }
                    },
                    None => None,
                }
            }
        },
    }
}

/// Only the register file differs between the two states.
pub open spec fn regs_only(pre: RegoVM, post: RegoVM) -> bool {
    &&& post == (RegoVM { registers: post.registers, ..pre })
}

impl RegoVM {
    /// Load the iterator's next key/value pair into the loop's registers.
    /// When the key and value registers coincide, only the value is
    /// written (for sets and objects, the element or the value).
    fn setup_next_iteration(&mut self, state: &IterationState, key_reg: u8, value_reg: u8) -> (r:
        Result<bool, VmError>)
        requires
            old(self).wf(),
            iter_wf(*state),
        ensures
            final(self).wf(),
            regs_only(*old(self), *final(self)),
            r matches Ok(present) ==> present == (iter_next(*state) is Some),
            r matches Ok(present) ==> ((!present) ==> final(self).registers == old(self).registers),
            r matches Ok(present) ==> (present ==> {
                let kv = iter_next(*state)->0;
                &&& final(self).registers@.len() == old(self).registers@.len()
                &&& (value_reg as int) < final(self).registers@.len()
                &&& view_of(final(self).registers@[value_reg as int]) == kv.1
                &&& (key_reg != value_reg ==> (key_reg as int) < final(self).registers@.len()
                    && view_of(final(self).registers@[key_reg as int]) == kv.0)
                &&& (forall|j: int|
                    0 <= j < final(self).registers@.len() && j != key_reg as int && j
                        != value_reg as int ==> final(self).registers@[j] == old(
                        self,
                    ).registers@[j])
            }),
            r matches Err(e) ==> e is Internal,
            ((key_reg as int) < old(self).registers@.len() && (value_reg as int) < old(
                self,
            ).registers@.len() && (state matches IterationState::Array { index, .. } ==> index as int
                <= i64::MAX)) ==> r is Ok,
    {
        match state {
            IterationState::Array { items, index } => {
                if *index < items.len() {
                    proof {
                        assert(wf_val(view_of(items@[*index as int])));
                    }
                    let item = clone_value(&items[*index]);
                    if key_reg != value_reg {
                        if (*index as u128) > i64::MAX as u128 {
                            return Err(
                                VmError::Internal("array index exceeds the number range".to_owned()),
                            );
                        }
                        reg_write(&mut self.registers, key_reg, Value::from_i64(*index as i64))?;
                    }
                    reg_write(&mut self.registers, value_reg, item)?;
                    Ok(true)
                } else {
                    Ok(false)
                }
            },
            IterationState::Object { obj, current_key, first_iteration } => {
                let ghost s = kvs_view(obj@);
                proof {
                    crate::value::lemma_wf_obj(s);
                    crate::value::lemma_kvs_view_wf(obj@);
                }
                if *first_iteration {
                    if obj.len() > 0 {
                        proof {
                            assert(s[0] == (view_of(obj@[0].0), view_of(obj@[0].1)));
                        }
                        let k = clone_value(&obj[0].0);
                        let v = clone_value(&obj[0].1);
                        if key_reg != value_reg {
                            reg_write(&mut self.registers, key_reg, k)?;
                        }
                        reg_write(&mut self.registers, value_reg, v)?;
                        Ok(true)
                    } else {
                        Ok(false)
                    }
                } else {
                    match current_key {
                        Some(c) => {
                            let p = crate::containers::lower_key_scan(obj, c);
                            if p < obj.len() {
                                proof {
                                    assert(s[p as int] == (
                                        view_of(obj@[p as int].0),
                                        view_of(obj@[p as int].1),
                                    ));
                                }
                                let k = clone_value(&obj[p].0);
                                let v = clone_value(&obj[p].1);
                                if key_reg != value_reg {
                                    reg_write(&mut self.registers, key_reg, k)?;
                                }
                                reg_write(&mut self.registers, value_reg, v)?;
                                Ok(true)
                            } else {
                                Ok(false)
                            }
                        },
                        None => Ok(false),
                    }
                }
            },
            IterationState::SetV { items, current_item, first_iteration } => {
                let ghost s = seq_view(items@);
                proof {
                    crate::value::lemma_wf_set(s);
                    crate::value::lemma_seq_view_wf(items@);
                }
                if *first_iteration {
                    if items.len() > 0 {
                        proof {
                            assert(s[0] == view_of(items@[0]));
                        }
                        let v = clone_value(&items[0]);
                        if key_reg != value_reg {
                            let k = clone_value(&items[0]);
                            reg_write(&mut self.registers, key_reg, k)?;
                        }
                        reg_write(&mut self.registers, value_reg, v)?;
                        Ok(true)
                    } else {
                        Ok(false)
                    }
                } else {
                    match current_item {
                        Some(c) => {
                            let p = crate::containers::lower_elem_scan(items, c);
                            if p < items.len() {
                                proof {
                                    assert(s[p as int] == view_of(items@[p as int]));
                                }
                                let v = clone_value(&items[p]);
                                if key_reg != value_reg {
                                    let k = clone_value(&items[p]);
                                    reg_write(&mut self.registers, key_reg, k)?;
                                }
                                reg_write(&mut self.registers, value_reg, v)?;
                                Ok(true)
                            } else {
                                Ok(false)
                            }
                        },
                        None => Ok(false),
                    }
                }
            },
        }
    }

    /// Write the vacuous result of the loop's mode and step past the
    /// loop: `Any` and `ForEach` get false, `Every` gets true.
    fn handle_empty_collection(&mut self, mode: LoopMode, result_reg: u8, loop_end: u16) -> (r:
        Result<(), VmError>)
        requires
            old(self).wf(),
        ensures
            final(self).wf(),
            *final(self) == (RegoVM {
                registers: final(self).registers,
                pc: final(self).pc,
                ..*old(self)
            }),
            r is Ok ==> ({
                &&& (result_reg as int) < old(self).registers@.len()
                &&& final(self).registers@ =~= old(self).registers@.update(
                    result_reg as int,
                    Value::Bool(empty_loop_result(mode)),
                )
                &&& final(self).pc == (if loop_end >= 1 {
                    (loop_end - 1) as usize
                } else {
                    0
                })
                &&& *final(self) == (RegoVM {
                    registers: final(self).registers,
                    pc: final(self).pc,
                    ..*old(self)
                })
            }),
            r matches Err(e) ==> e is Internal && *final(self) == *old(self),
            r is Ok <==> (result_reg as int) < old(self).registers@.len(),
    {
        let result = match mode {
            LoopMode::Any => Value::Bool(false),
            LoopMode::Every => Value::Bool(true),
            LoopMode::ForEach => Value::Bool(false),
        };
        if result_reg as usize >= self.registers.len() {
            return Err(VmError::Internal("register index out of range".to_owned()));
        }
        reg_write(&mut self.registers, result_reg, result)?;
        self.pc = if loop_end >= 1 {
            (loop_end - 1) as usize
        } else {
            0
        };
        Ok(())
    }

    /// What to do after one iteration: `Any` exits on the first success,
    /// `Every` exits on the first failure, everything else continues.
    fn determine_loop_action(&self, mode: LoopMode, success: bool) -> (r: LoopAction)
        ensures
            r == (match (mode, success) {
                (LoopMode::Any, true) => LoopAction::ExitWithSuccess,
                (LoopMode::Every, false) => LoopAction::ExitWithFailure,
                _ => LoopAction::Continue,
            }),
    {
        match (mode, success) {
            (LoopMode::Any, true) => LoopAction::ExitWithSuccess,
            (LoopMode::Every, false) => LoopAction::ExitWithFailure,
            _ => LoopAction::Continue,
        }
    }

    /// An iteration succeeded when no condition in its body failed.
    fn check_iteration_success(&self, loop_ctx: &LoopContext) -> (r: bool)
        ensures
            r == !loop_ctx.current_iteration_failed,
    {
        !loop_ctx.current_iteration_failed
    }
}

/// The collection a loop runs over is empty or not iterable at all.
pub open spec fn loop_vacuous(c: SpecValue) -> bool {
    match c {
        SpecValue::Arr(s) => s.len() == 0,
        SpecValue::Obj(s) => s.len() == 0,
        SpecValue::SetV(s) => s.len() == 0,
        _ => true,
    }
}

impl RegoVM {
    /// Begin a loop. A vacuous collection writes the mode's empty-loop
    /// result and steps past the loop; otherwise a frame is pushed with
    /// fresh counters, the first element is loaded, and control moves
    /// to the body.
    fn execute_loop_start(&mut self, params: LoopStartParams) -> (r: Result<(), VmError>)
        requires
            old(self).wf(),
        ensures
            final(self).wf(),
            evolves(*old(self), *final(self)),
            final(self).spec_executed() == old(self).spec_executed(),
            *final(self) == (RegoVM {
                registers: final(self).registers,
                pc: final(self).pc,
                loop_stack: final(self).loop_stack,
                ..*old(self)
            }),
            r is Ok ==> (params.result_reg as int) < old(self).registers@.len() && (
            params.collection as int) < old(self).registers@.len() && ({
                let regs1 = old(self).registers@.update(
                    params.result_reg as int,
                    Value::Bool(false),
                );
                let coll = view_of(regs1[params.collection as int]);
                if loop_vacuous(coll) {
                    &&& final(self).loop_stack == old(self).loop_stack
                    &&& final(self).registers@ =~= regs1.update(
                        params.result_reg as int,
                        Value::Bool(empty_loop_result(params.mode)),
                    )
                    &&& final(self).pc == (if params.loop_end >= 1 {
                        (params.loop_end - 1) as usize
                    } else {
                        0
                    })
                } else {
                    &&& final(self).loop_stack@.len() == old(self).loop_stack@.len() + 1
                    &&& final(self).loop_stack@.take(old(self).loop_stack@.len() as int)
                        =~= old(self).loop_stack@
                    &&& final(self).registers@.len() == old(self).registers@.len()
                    &&& (forall|j: int|
                        0 <= j < final(self).registers@.len() && j != params.result_reg as int && j
                            != params.key_reg as int && j != params.value_reg as int
                            ==> final(self).registers@[j] == old(self).registers@[j])
                    &&& ({
                        let fr = final(self).loop_stack@.last();
                        &&& fr.mode == params.mode
                        &&& fr.key_reg == params.key_reg
                        &&& fr.value_reg == params.value_reg
                        &&& fr.result_reg == params.result_reg
                        &&& fr.body_start == params.body_start
                        &&& fr.loop_end == params.loop_end
                        &&& fr.loop_next_pc == params.loop_end - 1
                        &&& fr.success_count == 0
                        &&& fr.total_iterations == 0
                        &&& !fr.current_iteration_failed
                        &&& (coll matches SpecValue::Arr(es) ==> fr.iteration_state matches
                            IterationState::Array { items, index } && seq_view(items@) == es
                            && index == 0)
                        &&& (coll matches SpecValue::Obj(es) ==> fr.iteration_state matches
                            IterationState::Object { obj, current_key, first_iteration }
                            && kvs_view(obj@) == es && current_key is None && first_iteration)
                        &&& (coll matches SpecValue::SetV(es) ==> fr.iteration_state matches
                            IterationState::SetV { items, current_item, first_iteration }
                            && seq_view(items@) == es && current_item is None && first_iteration)
                    })
                    &&& (params.result_reg != params.key_reg && params.result_reg
                        != params.value_reg ==> view_of(
                        final(self).registers@[params.result_reg as int],
                    ) == SpecValue::Bool(false))
                    &&& ({
                        let fr = final(self).loop_stack@.last();
                        &&& iter_next(fr.iteration_state) is Some
                        &&& view_of(final(self).registers@[params.value_reg as int]) == (iter_next(
                            fr.iteration_state,
                        )->0).1
                        &&& (params.key_reg != params.value_reg ==> view_of(
                            final(self).registers@[params.key_reg as int],
                        ) == (iter_next(fr.iteration_state)->0).0)
                    })
                    &&& final(self).pc == params.body_start - 1
                }
            }),
            r matches Err(e) ==> e is Internal,
            ({
                // success is owed when the loop's registers are in range
                // and, for a non-vacuous collection, the body and end
                // addresses leave room for the jump offsets
                ((params.result_reg as int) < old(self).registers@.len() && (
                params.collection as int) < old(self).registers@.len() && ({
                    let regs1 = old(self).registers@.update(
                        params.result_reg as int,
                        Value::Bool(false),
                    );
                    let coll = view_of(regs1[params.collection as int]);
                    loop_vacuous(coll) || (params.body_start >= 1 && params.loop_end >= 1 && (
                    params.key_reg as int) < old(self).registers@.len() && (
                    params.value_reg as int) < old(self).registers@.len())
                })) ==> r is Ok
            }),
    {
        reg_write(&mut self.registers, params.result_reg, Value::Bool(false))?;
        let coll = reg_read(&self.registers, params.collection)?;
        let ghost cv = coll@;
        let st_opt: Option<IterationState> = match coll {
            Value::Arr(items) => {
                proof {
                    assert(cv == SpecValue::Arr(seq_view(items@)));
                    crate::value::lemma_wf_arr(seq_view(items@));
                    crate::value::lemma_seq_view_wf(items@);
                }
                if items.len() == 0 {
                    None
                } else {
                    Some(IterationState::Array { items, index: 0 })
                }
            },
            Value::Obj(entries) => {
                proof {
                    assert(cv == SpecValue::Obj(kvs_view(entries@)));
                }
                if entries.len() == 0 {
                    None
                } else {
                    Some(
                        IterationState::Object {
                            obj: entries,
                            current_key: None,
                            first_iteration: true,
                        },
                    )
                }
            },
            Value::SetV(items) => {
                proof {
                    assert(cv == SpecValue::SetV(seq_view(items@)));
                }
                if items.len() == 0 {
                    None
                } else {
                    Some(
                        IterationState::SetV {
                            items,
                            current_item: None,
                            first_iteration: true,
                        },
                    )
                }
            },
            _ => None,
        };
        match st_opt {
            None => {
                self.handle_empty_collection(params.mode, params.result_reg, params.loop_end)?;
                Ok(())
            },
            Some(st) => {
                if params.body_start == 0 || params.loop_end == 0 {
                    return Err(VmError::Internal("loop body precedes the program".to_owned()));
                }
                let present = self.setup_next_iteration(&st, params.key_reg, params.value_reg)?;
                if !present {
                    proof {
                        assert(false);
                    }
                    return Err(VmError::Internal("empty iterator for a non-empty collection".to_owned()));
                }
                let frame = LoopContext {
                    mode: params.mode,
                    iteration_state: st,
                    key_reg: params.key_reg,
                    value_reg: params.value_reg,
                    result_reg: params.result_reg,
                    body_start: params.body_start,
                    loop_end: params.loop_end,
                    loop_next_pc: params.loop_end - 1,
                    success_count: 0,
                    total_iterations: 0,
                    current_iteration_failed: false,
                };
                let ghost pre_frames = self.loop_stack@;
                self.loop_stack.push(frame);
                proof {
                    assert forall|i: int| 0 <= i < self.loop_stack@.len() implies iter_wf(
                        (#[trigger] self.loop_stack@[i]).iteration_state,
                    ) by {
                        if i < pre_frames.len() {
                            assert(self.loop_stack@[i] == pre_frames[i]);
                        }
                    }
                    assert(self.loop_stack@.take(pre_frames.len() as int) =~= pre_frames);
                }
                self.pc = (params.body_start - 1) as usize;
                Ok(())
            },
        }
    }

    /// Close one iteration: account its outcome, exit early for a
    /// decided `Any` or `Every`, otherwise save the cursor, advance, and
    /// either run the body again or write the loop's final result.
    fn execute_loop_next(&mut self, body_start: u16, loop_end: u16) -> (r: Result<(), VmError>)
        requires
            old(self).wf(),
        ensures
            final(self).wf(),
            r matches Err(e) ==> !(e is InstructionLimitExceeded) && !(e
                is InvalidEntryPointIndex) && !(e is EntryPointNotFound),
            evolves(*old(self), *final(self)),
            final(self).spec_executed() == old(self).spec_executed(),
            *final(self) == (RegoVM {
                registers: final(self).registers,
                pc: final(self).pc,
                loop_stack: final(self).loop_stack,
                ..*old(self)
            }),
            old(self).loop_stack@.len() == 0 ==> r is Ok && final(self).registers == old(
                self,
            ).registers && final(self).loop_stack@ == old(self).loop_stack@ && final(self).pc
                == loop_end as usize,
            old(self).loop_stack@.len() > 0 && r is Ok ==> ({
                let frames = old(self).loop_stack@;
                let fr = frames[frames.len() - 1];
                let succeeded = !fr.current_iteration_failed;
                let succ2 = fr.success_count + (if succeeded {
                    1int
                } else {
                    0int
                });
                let total2 = fr.total_iterations + 1;
                &&& (fr.mode is Any && succeeded ==> final(self).loop_stack@ =~= frames.take(
                    frames.len() - 1,
                ) && view_of(final(self).registers@[fr.result_reg as int]) == SpecValue::Bool(true)
                    && final(self).pc == fr.loop_end - 1)
                &&& (fr.mode is Every && !succeeded ==> final(self).loop_stack@ =~= frames.take(
                    frames.len() - 1,
                ) && view_of(final(self).registers@[fr.result_reg as int]) == SpecValue::Bool(
                    false,
                ) && final(self).pc == fr.loop_end - 1)
                &&& (!(fr.mode is Any && succeeded) && !(fr.mode is Every && !succeeded) ==> ({
                    ||| (final(self).loop_stack@.len() == frames.len()
                        && final(self).loop_stack@.take(frames.len() - 1) =~= frames.take(
                        frames.len() - 1,
                    ) && ({
                        let nfr = final(self).loop_stack@.last();
                        &&& nfr.total_iterations == total2
                        &&& nfr.success_count == succ2
                        &&& !nfr.current_iteration_failed
                        &&& nfr.mode == fr.mode
                        &&& nfr.result_reg == fr.result_reg
                    }) && final(self).pc == fr.body_start - 1)
                    ||| (final(self).loop_stack@ =~= frames.take(frames.len() - 1) && view_of(
                        final(self).registers@[fr.result_reg as int],
                    ) == SpecValue::Bool(
                        loop_final_result(fr.mode, succ2 as nat, total2 as nat),
                    ) && final(self).pc == fr.loop_end - 1)
                }))
            }),
            ({
                // success is owed when the frame's registers are in range,
                // its addresses leave room for the jump offsets, and its
                // counters have room to advance
                let frames = old(self).loop_stack@;
                (frames.len() > 0 && ({
                    let fr = frames[frames.len() - 1];
                    &&& (fr.result_reg as int) < old(self).registers@.len()
                    &&& (fr.key_reg as int) < old(self).registers@.len()
                    &&& (fr.value_reg as int) < old(self).registers@.len()
                    &&& fr.loop_end >= 1
                    &&& fr.body_start >= 1
                    &&& fr.total_iterations < usize::MAX
                    &&& fr.success_count < usize::MAX
                    &&& (fr.iteration_state matches IterationState::Array { index, .. } ==> index
                        < usize::MAX && index as int + 1 <= i64::MAX)
                })) ==> r is Ok
            }),
    {
        let fr_opt = self.loop_stack.pop();
        match fr_opt {
            None => {
                self.pc = loop_end as usize;
                Ok(())
            },
            Some(mut fr) => {
                proof {
                    assert(iter_wf(fr.iteration_state));
                }
                if fr.total_iterations == usize::MAX || fr.success_count == usize::MAX {
                    return Err(VmError::Internal("iteration count out of range".to_owned()));
                }
                fr.total_iterations = fr.total_iterations + 1;
                let succeeded = self.check_iteration_success(&fr);
                if succeeded {
                    fr.success_count = fr.success_count + 1;
                }
                let action = self.determine_loop_action(fr.mode, succeeded);
                match action {
                    LoopAction::ExitWithSuccess => {
                        if fr.loop_end == 0 {
                            return Err(VmError::Internal("loop end precedes the program".to_owned()));
                        }
                        reg_write(&mut self.registers, fr.result_reg, Value::Bool(true))?;
                        self.pc = (fr.loop_end - 1) as usize;
                        Ok(())
                    },
                    LoopAction::ExitWithFailure => {
                        if fr.loop_end == 0 {
                            return Err(VmError::Internal("loop end precedes the program".to_owned()));
                        }
                        reg_write(&mut self.registers, fr.result_reg, Value::Bool(false))?;
                        self.pc = (fr.loop_end - 1) as usize;
                        Ok(())
                    },
                    LoopAction::Continue => {
                        let mut st = IterationState::Array { items: Vec::new(), index: 0 };
                        core::mem::swap(&mut st, &mut fr.iteration_state);
                        let st = match st {
                            IterationState::Array { items, index } => {
                                if index == usize::MAX {
                                    return Err(
                                        VmError::Internal("iteration count out of range".to_owned()),
                                    );
                                }
                                IterationState::Array { items, index }
                            },
                            IterationState::Object { obj, current_key, first_iteration } => {
                                let ck: Option<Value> = if fr.key_reg != fr.value_reg {
                                    Some(reg_read(&self.registers, fr.key_reg)?)
                                } else {
                                    current_key
                                };
                                IterationState::Object {
                                    obj,
                                    current_key: ck,
                                    first_iteration,
                                }
                            },
                            IterationState::SetV { items, current_item: _, first_iteration } => {
                                let ci = Some(reg_read(&self.registers, fr.value_reg)?);
                                IterationState::SetV {
                                    items,
                                    current_item: ci,
                                    first_iteration,
                                }
                            },
                        };
                        let mut st2 = st;
                        st2.advance();
                        proof {
                            assert(iter_wf(st2));
                        }
                        let present = self.setup_next_iteration(&st2, fr.key_reg, fr.value_reg)?;
                        if present {
                            fr.current_iteration_failed = false;
                            fr.iteration_state = st2;
                            if fr.body_start == 0 {
                                return Err(
                                    VmError::Internal("loop body precedes the program".to_owned()),
                                );
                            }
                            self.pc = (fr.body_start - 1) as usize;
                            self.loop_stack.push(fr);
                            Ok(())
                        } else {
                            let done = match fr.mode {
                                LoopMode::Any => fr.success_count > 0,
                                LoopMode::Every => fr.success_count == fr.total_iterations,
                                LoopMode::ForEach => fr.success_count > 0,
                            };
                            if fr.loop_end == 0 {
                                return Err(
                                    VmError::Internal("loop end precedes the program".to_owned()),
                                );
                            }
                            reg_write(&mut self.registers, fr.result_reg, Value::Bool(done))?;
                            self.pc = (fr.loop_end - 1) as usize;
                            Ok(())
                        }
                    },
                }
            },
        }
    }
}

/// Everything but control state (pc, the loop stack, registers) is untouched.
pub open spec fn ctrl_only(pre: RegoVM, post: RegoVM) -> bool {
    &&& post.program == pre.program
    &&& post.data == pre.data
    &&& post.input == pre.input
    &&& post.max_instructions == pre.max_instructions
    &&& post.base_register_count == pre.base_register_count
    &&& post.executed_instructions == pre.executed_instructions
    &&& post.call_rule_stack == pre.call_rule_stack
    &&& post.register_stack == pre.register_stack
    &&& post.comprehension_stack == pre.comprehension_stack
    &&& post.register_window_pool == pre.register_window_pool
    &&& post.rule_cache == pre.rule_cache
    &&& post.evaluated == pre.evaluated
    &&& post.cache_hits == pre.cache_hits
}

/// A window of `n` registers, all `Null` (or all `Undefined`).
fn filled_window(n: usize, undefined: bool) -> (r: Vec<Value>)
    ensures
        r@.len() == n,
        vals_wf(r@),
        forall|i: int|
            0 <= i < n ==> view_of(#[trigger] r@[i]) == (if undefined {
                SpecValue::Undefined
            } else {
                SpecValue::Null
            }),
{
    let mut r: Vec<Value> = Vec::new();
    let mut i: usize = 0;
    while i < n
        invariant
            i <= n,
            r@.len() == i,
            forall|j: int|
                0 <= j < i ==> view_of(#[trigger] r@[j]) == (if undefined {
                    SpecValue::Undefined
                } else {
                    SpecValue::Null
                }),
        decreases n - i,
    {
        if undefined {
            r.push(Value::Undefined);
        } else {
            r.push(Value::Null);
        }
        i = i + 1;
    }
    r
}

/// A cleared rule cache: one uncomputed entry per rule.
fn fresh_rule_cache(n: usize) -> (r: Vec<(bool, Value)>)
    ensures
        r@.len() == n,
        cache_wf(r@),
        forall|i: int| 0 <= i < n ==> (#[trigger] r@[i]).0 == false,
        forall|i: int| 0 <= i < n ==> view_of((#[trigger] r@[i]).1) is Undefined,
{
    let mut r: Vec<(bool, Value)> = Vec::new();
    let mut i: usize = 0;
    while i < n
        invariant
            i <= n,
            r@.len() == i,
            cache_wf(r@),
            forall|j: int| 0 <= j < i ==> (#[trigger] r@[j]).0 == false,
            forall|j: int| 0 <= j < i ==> view_of((#[trigger] r@[j]).1) is Undefined,
        decreases n - i,
    {
        r.push((false, Value::Undefined));
        i = i + 1;
    }
    r
}

fn entry_point_names(p: &Program) -> (r: Vec<String>)
    ensures
        r@.len() == p.entry_points@.len(),
        forall|i: int| 0 <= i < r@.len() ==> #[trigger] r@[i]@ == p.entry_points@[i].0@,
{
    let n = p.entry_points.len();
    let mut r: Vec<String> = Vec::new();
    let mut i: usize = 0;
    while i < n
        invariant
            i <= n,
            n == p.entry_points@.len(),
            r@.len() == i,
            forall|j: int| 0 <= j < i ==> #[trigger] r@[j]@ == p.entry_points@[j].0@,
        decreases n - i,
    {
        r.push(p.entry_points[i].0.clone());
        i = i + 1;
    }
    r
}

/// Read a register (a copy of its value); out of range is an internal error.
fn reg_read(regs: &Vec<Value>, r: u8) -> (out: Result<Value, VmError>)
    requires
        vals_wf(regs@),
    ensures
        out matches Ok(v) ==> (r as int) < regs@.len() && v@ == view_of(regs@[r as int]) && wf_val(
            v@,
        ),
        out matches Err(e) ==> (r as int) >= regs@.len() && e is Internal,
{
    if (r as usize) < regs.len() {
        proof {
            assert(wf_val(view_of(regs@[r as int])));
        }
        Ok(clone_value(&regs[r as usize]))
    } else {
        Err(VmError::Internal("register index out of range".to_owned()))
    }
}

/// Write a register; out of range is an internal error and leaves the
/// window unchanged.
fn reg_write(regs: &mut Vec<Value>, r: u8, v: Value) -> (out: Result<(), VmError>)
    requires
        vals_wf(old(regs)@),
        wf_val(v@),
    ensures
        out is Ok ==> (r as int) < old(regs)@.len() && final(regs)@ =~= old(regs)@.update(
            r as int,
            v,
        ) && vals_wf(final(regs)@),
        out matches Err(e) ==> final(regs)@ == old(regs)@ && (r as int) >= old(regs)@.len() && e
            is Internal,
{
    if (r as usize) < regs.len() {
        regs.set(r as usize, v);
        proof {
            assert forall|i: int| 0 <= i < regs@.len() implies wf_val(
                view_of(#[trigger] regs@[i]),
            ) by {
                if i != r as int {
                    assert(regs@[i] == old(regs)@[i]);
                }
            }
        }
        Ok(())
    } else {
        Err(VmError::Internal("register index out of range".to_owned()))
    }
}


// ------------------------------------------------------------------
// Budget and cache framing
// ------------------------------------------------------------------

/// Instructions left before the budget is exhausted.
pub open spec fn budget(vm: RegoVM) -> int {
    if vm.executed_instructions <= vm.max_instructions {
        vm.max_instructions - vm.executed_instructions
    } else {
        0
    }
}

/// The instruction counter never passes the budget: it ends at or below
/// the larger of its starting point and the configured limit.
pub open spec fn budget_capped(pre: RegoVM, post: RegoVM) -> bool {
    post.executed_instructions as int <= (if pre.executed_instructions
        > pre.max_instructions {
        pre.executed_instructions as int
    } else {
        pre.max_instructions as int
    })
}

/// The host side of `BuiltinCall`: builtin implementations live with
/// the host, not in the core. Given a builtin's table index and its
/// argument values, the host answers with `None` when it has no
/// implementation for that index, or with the implementation's result.
/// A value it returns must be well-formed; beyond that the core assumes
/// nothing about the outcome.
pub trait BuiltinHost {
    fn call_builtin(&mut self, index: u16, args: Vec<Value>) -> (r: Option<
        Result<Value, String>,
    >)
        requires
            vals_wf(args@),
        ensures
            r matches Some(res) ==> (res matches Ok(v) ==> wf_val(v@)),
    ;
}

/// The host with no builtins at all: every builtin is unresolved.
pub struct NoBuiltins;

impl NoBuiltins {
    pub fn new() -> (r: NoBuiltins) {
        NoBuiltins
    }
}

impl BuiltinHost for NoBuiltins {
    fn call_builtin(&mut self, index: u16, args: Vec<Value>) -> (r: Option<
        Result<Value, String>,
    >) {
        None
    }
}

/// The rule cache only gains entries during an execution: an entry once
/// computed keeps its value, and a function rule's entry is never
/// touched at all (arguments would invalidate memoisation).
pub open spec fn cache_monotone(pre: RegoVM, post: RegoVM) -> bool {
    &&& post.rule_cache@.len() == pre.rule_cache@.len()
    &&& forall|i: int|
        0 <= i < pre.rule_cache@.len() && (#[trigger] pre.rule_cache@[i]).0
            ==> post.rule_cache@[i] == pre.rule_cache@[i]
    &&& forall|i: int|
        0 <= i < pre.rule_cache@.len() && i < pre.program.rule_infos@.len() && (#[trigger] pre.program.rule_infos@[i]).function_info is Some
            ==> post.rule_cache@[i] == pre.rule_cache@[i]
}

// ------------------------------------------------------------------
// Comprehension engine
// ------------------------------------------------------------------

impl RegoVM {
    /// Open a comprehension: initialise its accumulator register to the
    /// empty collection of its mode and push its context. Control falls
    /// through to the body; comprehensions do not jump.
    fn execute_comprehension_begin(&mut self, params: ComprehensionBeginParams) -> (r: Result<
        (),
        VmError,
    >)
        requires
            old(self).wf(),
        ensures
            final(self).wf(),
            evolves(*old(self), *final(self)),
            final(self).spec_executed() == old(self).spec_executed(),
            *final(self) == (RegoVM {
                registers: final(self).registers,
                comprehension_stack: final(self).comprehension_stack,
                ..*old(self)
            }),
            r is Ok ==> ({
                &&& (params.collection_reg as int) < old(self).registers@.len()
                &&& final(self).registers@.len() == old(self).registers@.len()
                &&& view_of(final(self).registers@[params.collection_reg as int]) == (
                match params.mode {
                    ComprehensionMode::SetV => SpecValue::SetV(Seq::<SpecValue>::empty()),
                    ComprehensionMode::Array => SpecValue::Arr(Seq::<SpecValue>::empty()),
                    ComprehensionMode::Object => SpecValue::Obj(
                        Seq::<(SpecValue, SpecValue)>::empty(),
                    ),
                })
                &&& (forall|j: int|
                    0 <= j < final(self).registers@.len() && j != params.collection_reg as int
                        ==> final(self).registers@[j] == old(self).registers@[j])
                &&& final(self).comprehension_stack@.len() == old(
                    self,
                ).comprehension_stack@.len() + 1
            }),
            r matches Err(e) ==> e is Internal,
            r is Ok <==> (params.collection_reg as int) < old(self).registers@.len(),
    {
        let initial = match params.mode {
            ComprehensionMode::SetV => Value::new_set(),
            ComprehensionMode::Array => Value::new_array(),
            ComprehensionMode::Object => Value::new_object(),
        };
        reg_write(&mut self.registers, params.collection_reg, initial)?;
        self.comprehension_stack.push(
            ComprehensionContext {
                mode: params.mode,
                collection_reg: params.collection_reg,
                comprehension_end: params.comprehension_end,
            },
        );
        Ok(())
    }

    /// Yield a value (and, for objects, a key) into the innermost
    /// comprehension's accumulator. Sets deduplicate; arrays append;
    /// objects bind the key, last write winning.
    fn execute_comprehension_yield(&mut self, value_reg: u8, key_reg: Option<u8>) -> (r: Result<
        (),
        VmError,
    >)
        requires
            old(self).wf(),
        ensures
            final(self).wf(),
            r matches Err(e) ==> !(e is InstructionLimitExceeded) && !(e
                is InvalidEntryPointIndex) && !(e is EntryPointNotFound),
            evolves(*old(self), *final(self)),
            final(self).spec_executed() == old(self).spec_executed(),
            *final(self) == (RegoVM { registers: final(self).registers, ..*old(self) }),
            old(self).comprehension_stack@.len() == 0 ==> r is Err,
            r matches Err(e) ==> e is InvalidIteration || e is Internal,
            ({
                // an object comprehension without a key register is an
                // iteration error
                let frames = old(self).comprehension_stack@;
                (frames.len() > 0 && ({
                    let ctx = frames[frames.len() - 1];
                    &&& (ctx.collection_reg as int) < old(self).registers@.len()
                    &&& (value_reg as int) < old(self).registers@.len()
                    &&& ctx.mode is Object
                    &&& key_reg is None
                })) ==> (r matches Err(e) && e is InvalidIteration)
            }),
            ({
                // success is owed when a comprehension is open, the value
                // and accumulator registers are in range, the accumulator
                // holds the mode's collection kind, and (for objects) an
                // in-range key register is given
                let frames = old(self).comprehension_stack@;
                (frames.len() > 0 && ({
                    let ctx = frames[frames.len() - 1];
                    let creg = ctx.collection_reg as int;
                    &&& creg < old(self).registers@.len()
                    &&& (value_reg as int) < old(self).registers@.len()
                    &&& (match ctx.mode {
                        ComprehensionMode::SetV => view_of(old(self).registers@[creg]) is SetV,
                        ComprehensionMode::Array => view_of(old(self).registers@[creg]) is Arr,
                        ComprehensionMode::Object => view_of(old(self).registers@[creg]) is Obj
                            && (key_reg matches Some(kr) && (kr as int) < old(
                            self,
                        ).registers@.len()),
                    })
                })) ==> r is Ok
            }),
            old(self).comprehension_stack@.len() > 0 && r is Ok ==> ({
                let ctx = old(self).comprehension_stack@.last();
                let creg = ctx.collection_reg as int;
                &&& creg < old(self).registers@.len()
                &&& (value_reg as int) < old(self).registers@.len()
                &&& final(self).registers@.len() == old(self).registers@.len()
                &&& ({
                    let cur = view_of(old(self).registers@[creg]);
                    let v = view_of(old(self).registers@[value_reg as int]);
                    match ctx.mode {
                        ComprehensionMode::SetV => cur is SetV && view_of(
                            final(self).registers@[creg],
                        ) == SpecValue::SetV(set_with(cur->SetV_0, v)),
                        ComprehensionMode::Array => cur is Arr && view_of(
                            final(self).registers@[creg],
                        ) == SpecValue::Arr(cur->Arr_0.push(v)),
                        ComprehensionMode::Object => cur is Obj && (key_reg matches Some(kr)
                            && view_of(final(self).registers@[creg]) == SpecValue::Obj(
                            obj_updated(
                                cur->Obj_0,
                                view_of(old(self).registers@[kr as int]),
                                v,
                            ),
                        )),
                    }
                })
                &&& (forall|j: int|
                    0 <= j < final(self).registers@.len() && j != creg
                        ==> final(self).registers@[j] == old(self).registers@[j])
            }),
    {
        let cs_len = self.comprehension_stack.len();
        if cs_len == 0 {
            return Err(
                VmError::InvalidIteration { value: Value::Text("no active comprehension".to_owned()) },
            );
        }
        let mode = self.comprehension_stack[cs_len - 1].mode;
        let creg = self.comprehension_stack[cs_len - 1].collection_reg;
        let val = reg_read(&self.registers, value_reg)?;
        let cur = reg_read(&self.registers, creg)?;
        let updated: Value = match mode {
            ComprehensionMode::SetV => {
                match set_added(cur, val) {
                    Ok(o) => o,
                    Err(e) => {
                        return Err(VmError::InvalidIteration { value: e });
                    },
                }
            },
            ComprehensionMode::Array => {
                match arr_pushed(cur, val) {
                    Ok(o) => o,
                    Err(e) => {
                        return Err(VmError::InvalidIteration { value: e });
                    },
                }
            },
            ComprehensionMode::Object => {
                match key_reg {
                    Some(kr) => {
                        let key = reg_read(&self.registers, kr)?;
                        match obj_inserted(cur, key, val) {
                            Ok(o) => o,
                            Err(e) => {
                                return Err(VmError::InvalidIteration { value: e });
                            },
                        }
                    },
                    None => {
                        return Err(
                            VmError::InvalidIteration {
                                value: Value::Text("object comprehension requires a key".to_owned()),
                            },
                        );
                    },
                }
            },
        };
        reg_write(&mut self.registers, creg, updated)?;
        Ok(())
    }

    /// Close the innermost comprehension.
    fn execute_comprehension_end(&mut self) -> (r: Result<(), VmError>)
        requires
            old(self).wf(),
        ensures
            final(self).wf(),
            r matches Err(e) ==> !(e is InstructionLimitExceeded) && !(e
                is InvalidEntryPointIndex) && !(e is EntryPointNotFound),
            evolves(*old(self), *final(self)),
            final(self).spec_executed() == old(self).spec_executed(),
            *final(self) == (RegoVM {
                comprehension_stack: final(self).comprehension_stack,
                ..*old(self)
            }),
            old(self).comprehension_stack@.len() == 0 ==> r is Err
                && final(self).comprehension_stack@ == old(self).comprehension_stack@,
            old(self).comprehension_stack@.len() > 0 ==> r is Ok
                && final(self).comprehension_stack@ =~= old(self).comprehension_stack@.take(
                old(self).comprehension_stack@.len() - 1,
            ),
    {
        match self.comprehension_stack.pop() {
            Some(_) => Ok(()),
            None => Err(
                VmError::InvalidIteration {
                    value: Value::Text("no active comprehension context".to_owned()),
                },
            ),
        }
    }
}

// ------------------------------------------------------------------
// Rule calls
// ------------------------------------------------------------------

/// The value a rule call writes back, given the definitions' combined
/// outcome: inconsistent definitions give `Undefined`; a defined result
/// stands; and a rule whose bodies all failed falls back to its kind's
/// default — empty set, empty object, or the declared default literal.
pub open spec fn rule_result_shape(
    p: Program,
    ri: int,
    v: SpecValue,
    inconsistent: bool,
) -> SpecValue {
    if inconsistent {
        SpecValue::Undefined
    } else if !(v is Undefined) {
        v
    } else {
        match p.rule_infos@[ri].rule_type {
            RuleType::PartialSet => SpecValue::SetV(Seq::<SpecValue>::empty()),
            RuleType::PartialObject => SpecValue::Obj(Seq::<(SpecValue, SpecValue)>::empty()),
            RuleType::Complete => match p.rule_infos@[ri].default_literal_index {
                Option::Some(di) => if (di as int) < p.literals@.len() {
                    view_of(p.literals@[di as int])
                } else {
                    SpecValue::Undefined
                },
                Option::None => SpecValue::Undefined,
            },
        }
    }
}

/// The value of a rule whose bodies all failed: a partial set is an
/// empty set, a partial object an empty object, and a complete rule
/// its default literal when it has one, else `Undefined`.
pub fn default_for_failed(rule_type: RuleType, default_literal: Option<&Value>) -> (r: Value)
    requires
        default_literal matches Some(v) ==> wf_val(v@),
    ensures
        wf_val(r@),
        rule_type is PartialSet ==> r@ == SpecValue::SetV(Seq::<SpecValue>::empty()),
        rule_type is PartialObject ==> r@ == SpecValue::Obj(Seq::<(SpecValue, SpecValue)>::empty()),
        rule_type is Complete ==> (match default_literal {
            Some(d) => r@ == d@,
            None => r@ is Undefined,
        }),
{
    match rule_type {
        RuleType::PartialSet => Value::new_set(),
        RuleType::PartialObject => Value::new_object(),
        RuleType::Complete => {
            match default_literal {
                Some(d) => clone_value(d),
                None => Value::Undefined,
            }
        },
    }
}

/// Fold one body's outcome into a complete rule's consistency check:
/// the first defined result is kept; a later result that differs makes
/// the rule inconsistent; `Undefined` changes nothing.
pub fn merge_complete_result(first: Option<Value>, current: &Value) -> (r: (Option<Value>, bool))
    requires
        first matches Some(f) ==> wf_val(f@),
        wf_val(current@),
    ensures
        r.0 matches Some(f) ==> wf_val(f@),
        current@ is Undefined ==> r.0 == first && !r.1,
        !(current@ is Undefined) && first is None ==> (r.0 matches Some(v) && v@ == current@)
            && !r.1,
        !(current@ is Undefined) && (first matches Some(f) && cmp_vals(f@, current@) == 0) ==> r.0
            == first && !r.1,
        !(current@ is Undefined) && (first matches Some(f) && cmp_vals(f@, current@) != 0) ==> r.1,
{
    if is_undefined(current) {
        return (first, false);
    }
    match first {
        None => (Some(clone_value(current)), false),
        Some(f) => {
            if crate::value::value_eq(&f, current) {
                (Some(f), false)
            } else {
                (Some(f), true)
            }
        },
    }
}

/// The consistency fold over the defined results of a complete rule's
/// bodies, in order: the first defined result is kept; a later one that
/// differs (under the total order) marks the rule inconsistent.
pub open spec fn fold_consistency(rs: Seq<SpecValue>, i: nat, first: Option<SpecValue>) -> (
    Option<SpecValue>,
    bool,
)
    decreases rs.len() - i,
{
    if i < rs.len() {
        let cur = rs[i as int];
        if cur is Undefined {
            fold_consistency(rs, i + 1, first)
        } else {
            match first {
                Option::None => fold_consistency(rs, i + 1, Some(cur)),
                Option::Some(f) => {
                    if cmp_vals(f, cur) == 0 {
                        fold_consistency(rs, i + 1, first)
                    } else {
                        (first, true)
                    }
                },
            }
        }
    } else {
        (first, false)
    }
}

/// A complete rule with two definitions whose bodies produce distinct
/// defined values is inconsistent; two that agree keep that value; and
/// one that fails defers to the other.
pub proof fn lemma_rule_consistency(a: SpecValue, b: SpecValue)
    ensures
        !(a is Undefined) && !(b is Undefined) && cmp_vals(a, b) != 0 ==> fold_consistency(
            seq![a, b],
            0,
            None,
        ).1,
        !(a is Undefined) && !(b is Undefined) && cmp_vals(a, b) == 0 ==> fold_consistency(
            seq![a, b],
            0,
            None,
        ) == (Some(a), false),
        a is Undefined && !(b is Undefined) ==> fold_consistency(seq![a, b], 0, None) == (
            Some(b),
            false,
        ),
        !(a is Undefined) && b is Undefined ==> fold_consistency(seq![a, b], 0, None) == (
            Some(a),
            false,
        ),
{
    reveal_with_fuel(fold_consistency, 4);
    assert(seq![a, b][0] == a);
    assert(seq![a, b][1] == b);
}

impl RegoVM {
    /// Run every definition of a rule against a fresh register window
    /// (already swapped in by the caller): destructuring first, then
    /// each body; failures skip; complete rules and functions check
    /// result consistency across definitions.
    fn run_definition_bodies<H: BuiltinHost>(
        &mut self,
        host: &mut H,
        definitions: Vec<Vec<u32>>,
        destructuring: Vec<Option<u32>>,
        rule_type: RuleType,
        is_function: bool,
        result_reg: u8,
        num_registers: u16,
        num_retained: usize,
    ) -> (r: Result<(Value, bool), VmError>)
        requires
            old(self).wf(),
        ensures
            final(self).wf(),
            r matches Err(e) ==> !(e is InstructionLimitExceeded) && !(e
                is InvalidEntryPointIndex) && !(e is EntryPointNotFound),
            evolves(*old(self), *final(self)),
            cache_monotone(*old(self), *final(self)),
            budget_capped(*old(self), *final(self)),
            final(self).register_stack@ == old(self).register_stack@,
            config_fixed(*old(self), *final(self)),
            r matches Ok(p) ==> wf_val(p.0@),
            r matches Ok(p) ==> (p.1 ==> p.0@ is Undefined),
            r matches Err(e) ==> e is Internal,
        decreases budget(*old(self)), 2int, Value::Null,
    {
        let mut first_successful: Option<Value> = None;
        let mut inconsistent = false;
        let n_defs = definitions.len();
        let mut def_idx: usize = 0;
        while def_idx < n_defs && !inconsistent
            invariant
                self.wf(),
                evolves(*old(self), *self),
                cache_monotone(*old(self), *self),
                budget_capped(*old(self), *self),
                self.register_stack@ == old(self).register_stack@,
                config_fixed(*old(self), *self),
                first_successful matches Some(f) ==> wf_val(f@),
                n_defs == definitions@.len(),
            decreases n_defs - def_idx,
        {
            let dep: Option<u32> = if def_idx < destructuring.len() {
                destructuring[def_idx]
            } else {
                None
            };
            let br = self.run_bodies_of_definition(
                host,
                &definitions,
                def_idx,
                dep,
                rule_type,
                is_function,
                result_reg,
                num_registers,
                num_retained,
                first_successful,
            );
            match br {
                Ok((nf, ninc)) => {
                    first_successful = nf;
                    inconsistent = ninc;
                },
                Err(e) => {
                    return Err(e);
                },
            }
            def_idx = def_idx + 1;
        }
        let outcome: Value = if inconsistent {
            Value::Undefined
        } else {
            match first_successful {
                Some(v) => v,
                None => {
                    let out = reg_read(&self.registers, result_reg);
                    match out {
                        Ok(v) => v,
                        Err(_) => Value::Undefined,
                    }
                },
            }
        };
        Ok((outcome, inconsistent))
    }

    /// Run the bodies of one definition, folding each completed body's
    /// result into the consistency check for complete rules and
    /// functions.
    #[verifier::rlimit(40)]
    fn run_bodies_of_definition<H: BuiltinHost>(
        &mut self,
        host: &mut H,
        definitions: &Vec<Vec<u32>>,
        def_idx: usize,
        destructuring: Option<u32>,
        rule_type: RuleType,
        is_function: bool,
        result_reg: u8,
        num_registers: u16,
        num_retained: usize,
        first_in: Option<Value>,
    ) -> (r: Result<(Option<Value>, bool), VmError>)
        requires
            old(self).wf(),
            def_idx < definitions@.len(),
            first_in matches Some(f) ==> wf_val(f@),
        ensures
            final(self).wf(),
            r matches Err(e) ==> !(e is InstructionLimitExceeded) && !(e
                is InvalidEntryPointIndex) && !(e is EntryPointNotFound),
            evolves(*old(self), *final(self)),
            cache_monotone(*old(self), *final(self)),
            budget_capped(*old(self), *final(self)),
            final(self).register_stack@ == old(self).register_stack@,
            config_fixed(*old(self), *final(self)),
            r matches Ok(p) ==> (p.0 matches Some(f) ==> wf_val(f@)),
            r matches Err(e) ==> e is Internal,
        decreases budget(*old(self)), 1int, Value::Null,
    {
        let mut first_successful = first_in;
        let mut inconsistent = false;
        let bodies_len = definitions[def_idx].len();
        let mut body_idx: usize = 0;
        while body_idx < bodies_len && !inconsistent
            invariant
                self.wf(),
                evolves(*old(self), *self),
                cache_monotone(*old(self), *self),
                budget_capped(*old(self), *self),
                self.register_stack@ == old(self).register_stack@,
                config_fixed(*old(self), *self),
                first_successful matches Some(f) ==> wf_val(f@),
                def_idx < definitions@.len(),
                bodies_len == definitions@[def_idx as int]@.len(),
            decreases bodies_len - body_idx,
        {
            self.note_call_position(def_idx, body_idx);
            self.reset_rule_window(num_retained, num_registers);
            // Destructuring prelude: validated before every body; its
            // failure skips the whole definition.
            match destructuring {
                Some(dep) => {
                    match self.jump_to(host, dep as usize) {
                        Ok(_) => {},
                        Err(_) => {
                            return Ok((first_successful, inconsistent));
                        },
                    }
                },
                None => {},
            }
            let entry_point = definitions[def_idx][body_idx];
            match self.jump_to(host, entry_point as usize) {
                Ok(_) => {
                    if matches!(rule_type, RuleType::Complete) || is_function {
                        let current = reg_read(&self.registers, result_reg);
                        match current {
                            Ok(cur) => {
                                let (nf, bad) = merge_complete_result(first_successful, &cur);
                                first_successful = nf;
                                if bad {
                                    inconsistent = true;
                                    let _ = reg_write(
                                        &mut self.registers,
                                        result_reg,
                                        Value::Undefined,
                                    );
                                }
                            },
                            Err(e) => {
                                return Err(e);
                            },
                        }
                    }
                },
                Err(_) => {},
            }
            body_idx = body_idx + 1;
        }
        Ok((first_successful, inconsistent))
    }

    /// Record, on the innermost call context, which definition and body
    /// are about to run.
    fn note_call_position(&mut self, def_idx: usize, body_idx: usize)
        requires
            old(self).wf(),
        ensures
            final(self).wf(),
            evolves(*old(self), *final(self)),
            cache_monotone(*old(self), *final(self)),
            budget_capped(*old(self), *final(self)),
            config_fixed(*old(self), *final(self)),
            *final(self) == (RegoVM {
                call_rule_stack: final(self).call_rule_stack,
                ..*old(self)
            }),
            final(self).call_rule_stack@.len() == old(self).call_rule_stack@.len(),
    {
        match self.call_rule_stack.pop() {
            Some(mut ctx) => {
                ctx.current_definition_index = def_idx;
                ctx.current_body_index = body_idx;
                self.call_rule_stack.push(ctx);
            },
            None => {},
        }
    }

    /// Reset the active window for a fresh body: retained registers
    /// (the return slot, arguments, or a partial rule's accumulator)
    /// survive; everything else becomes `Undefined`.
    fn reset_rule_window(&mut self, num_retained: usize, num_registers: u16)
        requires
            old(self).wf(),
        ensures
            final(self).wf(),
            evolves(*old(self), *final(self)),
            cache_monotone(*old(self), *final(self)),
            budget_capped(*old(self), *final(self)),
            config_fixed(*old(self), *final(self)),
            *final(self) == (RegoVM { registers: final(self).registers, ..*old(self) }),
            final(self).registers@.len() == num_registers as int || final(self).registers@.len()
                <= num_retained,
    {
        let keep = if num_retained < self.registers.len() {
            num_retained
        } else {
            self.registers.len()
        };
        self.registers.truncate(keep);
        proof {
            assert forall|i: int| 0 <= i < self.registers@.len() implies wf_val(
                view_of(#[trigger] self.registers@[i]),
            ) by {
                assert(self.registers@[i] == old(self).registers@[i]);
            }
        }
        if (num_registers as usize) < self.registers.len() {
            self.registers.truncate(num_registers as usize);
            proof {
                assert forall|i: int| 0 <= i < self.registers@.len() implies wf_val(
                    view_of(#[trigger] self.registers@[i]),
                ) by {
                    assert(self.registers@[i] == old(self).registers@[i]);
                }
            }
        }
        while self.registers.len() < num_registers as usize
            invariant
                self.wf(),
                *self == (RegoVM { registers: self.registers, ..*old(self) }),
                self.registers@.len() <= num_registers as int || self.registers@.len()
                    <= num_retained,
            decreases num_registers as int - self.registers@.len(),
        {
            self.registers.push(Value::Undefined);
        }
    }
}


// ------------------------------------------------------------------
// Small copies of parameter-block data (all elements are plain copies)
// ------------------------------------------------------------------

fn copy_u8s(v: &Vec<u8>) -> (r: Vec<u8>)
    ensures
        r@ == v@,
{
    let mut r: Vec<u8> = Vec::new();
    let n = v.len();
    let mut i: usize = 0;
    while i < n
        invariant
            i <= n,
            n == v@.len(),
            r@ == v@.take(i as int),
        decreases n - i,
    {
        r.push(v[i]);
        proof {
            assert(r@ =~= v@.take(i + 1));
        }
        i = i + 1;
    }
    proof {
        assert(v@.take(n as int) =~= v@);
    }
    r
}

fn copy_u32s(v: &Vec<u32>) -> (r: Vec<u32>)
    ensures
        r@ == v@,
{
    let mut r: Vec<u32> = Vec::new();
    let n = v.len();
    let mut i: usize = 0;
    while i < n
        invariant
            i <= n,
            n == v@.len(),
            r@ == v@.take(i as int),
        decreases n - i,
    {
        r.push(v[i]);
        proof {
            assert(r@ =~= v@.take(i + 1));
        }
        i = i + 1;
    }
    proof {
        assert(v@.take(n as int) =~= v@);
    }
    r
}

fn copy_defs(v: &Vec<Vec<u32>>) -> (r: Vec<Vec<u32>>)
    ensures
        r@.len() == v@.len(),
        forall|i: int| 0 <= i < v@.len() ==> #[trigger] r@[i]@ == v@[i]@,
{
    let mut r: Vec<Vec<u32>> = Vec::new();
    let n = v.len();
    let mut i: usize = 0;
    while i < n
        invariant
            i <= n,
            n == v@.len(),
            r@.len() == i,
            forall|j: int| 0 <= j < i ==> #[trigger] r@[j]@ == v@[j]@,
        decreases n - i,
    {
        let inner = copy_u32s(&v[i]);
        r.push(inner);
        i = i + 1;
    }
    r
}

fn copy_opt_u32s(v: &Vec<Option<u32>>) -> (r: Vec<Option<u32>>)
    ensures
        r@ == v@,
{
    let mut r: Vec<Option<u32>> = Vec::new();
    let n = v.len();
    let mut i: usize = 0;
    while i < n
        invariant
            i <= n,
            n == v@.len(),
            r@ == v@.take(i as int),
        decreases n - i,
    {
        r.push(v[i]);
        proof {
            assert(r@ =~= v@.take(i + 1));
        }
        i = i + 1;
    }
    proof {
        assert(v@.take(n as int) =~= v@);
    }
    r
}

fn copy_pairs_u16_u8(v: &Vec<(u16, u8)>) -> (r: Vec<(u16, u8)>)
    ensures
        r@ == v@,
{
    let mut r: Vec<(u16, u8)> = Vec::new();
    let n = v.len();
    let mut i: usize = 0;
    while i < n
        invariant
            i <= n,
            n == v@.len(),
            r@ == v@.take(i as int),
        decreases n - i,
    {
        r.push(v[i]);
        proof {
            assert(r@ =~= v@.take(i + 1));
        }
        i = i + 1;
    }
    proof {
        assert(v@.take(n as int) =~= v@);
    }
    r
}

fn copy_pairs_u8_u8(v: &Vec<(u8, u8)>) -> (r: Vec<(u8, u8)>)
    ensures
        r@ == v@,
{
    let mut r: Vec<(u8, u8)> = Vec::new();
    let n = v.len();
    let mut i: usize = 0;
    while i < n
        invariant
            i <= n,
            n == v@.len(),
            r@ == v@.take(i as int),
        decreases n - i,
    {
        r.push(v[i]);
        proof {
            assert(r@ =~= v@.take(i + 1));
        }
        i = i + 1;
    }
    proof {
        assert(v@.take(n as int) =~= v@);
    }
    r
}

fn copy_lors(v: &Vec<LiteralOrRegister>) -> (r: Vec<LiteralOrRegister>)
    ensures
        r@ == v@,
{
    let mut r: Vec<LiteralOrRegister> = Vec::new();
    let n = v.len();
    let mut i: usize = 0;
    while i < n
        invariant
            i <= n,
            n == v@.len(),
            r@ == v@.take(i as int),
        decreases n - i,
    {
        r.push(v[i]);
        proof {
            assert(r@ =~= v@.take(i + 1));
        }
        i = i + 1;
    }
    proof {
        assert(v@.take(n as int) =~= v@);
    }
    r
}

/// What binding a value at a nested path produces: intermediate objects
/// are created below `Undefined`, and a non-object on the way means the
/// binding is impossible.
pub open spec fn nested_updated(
    target: SpecValue,
    path: Seq<SpecValue>,
    i: nat,
    value: SpecValue,
) -> Option<SpecValue>
    decreases path.len() - i,
{
    if i >= path.len() {
        Some(value)
    } else {
        let t = if target is Undefined {
            SpecValue::Obj(Seq::<(SpecValue, SpecValue)>::empty())
        } else {
            target
        };
        match t {
            SpecValue::Obj(entries) => {
                let child = spec_index(t, path[i as int]);
                match nested_updated(child, path, i + 1, value) {
                    Option::Some(nc) => Some(
                        SpecValue::Obj(obj_updated(entries, path[i as int], nc)),
                    ),
                    Option::None => None,
                }
            },
            _ => None,
        }
    }
}

/// Bind `value` at the (possibly nested) `path` inside `target`,
/// creating intermediate objects as needed; a non-object on the way is
/// an invalid rule-tree entry.
fn set_nested_value(target: Value, path: &Vec<Value>, from: usize, value: Value) -> (r: Result<
    Value,
    VmError,
>)
    requires
        wf_val(target@),
        vals_wf(path@),
        wf_val(value@),
        from <= path@.len(),
    ensures
        r matches Ok(o) ==> wf_val(o@),
        r matches Err(e) ==> !(e is InstructionLimitExceeded),
        r matches Ok(o) ==> nested_updated(target@, seq_view(path@), from as nat, value@) == Some(
            o@,
        ),
        r is Ok <==> nested_updated(target@, seq_view(path@), from as nat, value@) is Some,
        r matches Err(e) ==> e is InvalidRuleTreeEntry,
    decreases path@.len() - from,
{
    if from == path.len() {
        return Ok(value);
    }
    let t = if is_undefined(&target) {
        Value::new_object()
    } else {
        target
    };
    match t {
        Value::Obj(entries) => {
            proof {
                assert(wf_val(view_of(path@[from as int])));
            }
            let key = clone_value(&path[from]);
            let tv = Value::Obj(entries);
            let child = value_index(&tv, &key);
            let newchild = set_nested_value(child, path, from + 1, value)?;
            match obj_inserted(tv, key, newchild) {
                Ok(o) => Ok(o),
                Err(e) => {
                    proof {
                        assert(false);
                    }
                    Err(VmError::InvalidRuleTreeEntry { value: e })
                },
            }
        },
        other => Err(VmError::InvalidRuleTreeEntry { value: other }),
    }
}

impl RegoVM {
    /// Record the result register chosen by a rule's prelude on the
    /// innermost call context and initialise it: a complete rule's
    /// result starts `Undefined`; a partial rule's accumulator starts as
    /// the empty collection on the first body of the first definition.
    fn execute_rule_init(&mut self, result_reg: u8, _rule_index: u16) -> (r: Result<(), VmError>)
        requires
            old(self).wf(),
        ensures
            final(self).wf(),
            r matches Err(e) ==> !(e is InstructionLimitExceeded) && !(e
                is InvalidEntryPointIndex) && !(e is EntryPointNotFound),
            evolves(*old(self), *final(self)),
            cache_monotone(*old(self), *final(self)),
            budget_capped(*old(self), *final(self)),
            config_fixed(*old(self), *final(self)),
            final(self).spec_executed() == old(self).spec_executed(),
            *final(self) == (RegoVM {
                registers: final(self).registers,
                call_rule_stack: final(self).call_rule_stack,
                ..*old(self)
            }),
            r is Ok ==> old(self).call_rule_stack@.len() > 0,
            old(self).call_rule_stack@.len() > 0 && (result_reg as int) < old(
                self,
            ).registers@.len() ==> r is Ok,
            r matches Err(e) ==> e is Internal && final(self).registers@ == old(
                self,
            ).registers@,
            r is Ok ==> ({
                let frames = old(self).call_rule_stack@;
                let ctx = frames[frames.len() - 1];
                let first_body = ctx.current_definition_index == 0 && ctx.current_body_index == 0;
                &&& final(self).call_rule_stack@ =~= frames.update(
                    frames.len() - 1,
                    (CallRuleContext { result_reg: result_reg, ..ctx }),
                )
                &&& final(self).registers@.len() == old(self).registers@.len()
                &&& (forall|j: int|
                    0 <= j < final(self).registers@.len() && j != result_reg as int
                        ==> final(self).registers@[j] == old(self).registers@[j])
                &&& view_of(final(self).registers@[result_reg as int]) == (match ctx.rule_type {
                    RuleType::Complete => SpecValue::Undefined,
                    RuleType::PartialSet => if first_body {
                        SpecValue::SetV(Seq::<SpecValue>::empty())
                    } else {
                        view_of(old(self).registers@[result_reg as int])
                    },
                    RuleType::PartialObject => if first_body {
                        SpecValue::Obj(Seq::<(SpecValue, SpecValue)>::empty())
                    } else {
                        view_of(old(self).registers@[result_reg as int])
                    },
                })
            }),
    {
        let ctx = match self.call_rule_stack.pop() {
            Some(c) => c,
            None => {
                return Err(VmError::Internal("call stack underflow".to_owned()));
            },
        };
        let mut ctx2 = ctx;
        ctx2.result_reg = result_reg;
        self.call_rule_stack.push(ctx2);
        match ctx2.rule_type {
            RuleType::Complete => {
                reg_write(&mut self.registers, result_reg, Value::Undefined)?;
            },
            RuleType::PartialSet => {
                if ctx2.current_definition_index == 0 && ctx2.current_body_index == 0 {
                    reg_write(&mut self.registers, result_reg, Value::new_set())?;
                }
            },
            RuleType::PartialObject => {
                if ctx2.current_definition_index == 0 && ctx2.current_body_index == 0 {
                    reg_write(&mut self.registers, result_reg, Value::new_object())?;
                }
            },
        }
        Ok(())
    }

    /// A rule body signalled completion; the result already stands in
    /// the rule's result register.
    fn execute_rule_return(&mut self) -> (r: Result<(), VmError>)
        requires
            old(self).wf(),
        ensures
            final(self).wf(),
            r matches Err(e) ==> !(e is InstructionLimitExceeded) && !(e
                is InvalidEntryPointIndex) && !(e is EntryPointNotFound),
            *final(self) == *old(self),
            r is Ok <==> old(self).call_rule_stack@.len() > 0,
    {
        if self.call_rule_stack.len() == 0 {
            return Err(VmError::Internal("call stack underflow".to_owned()));
        }
        Ok(())
    }

    /// Execute all of a rule's definitions in an isolated register
    /// window with isolated loop and comprehension stacks; restore the
    /// caller's context afterwards, whatever happened.
    fn execute_rule_definitions_common<H: BuiltinHost>(
        &mut self,
        host: &mut H,
        definitions: Vec<Vec<u32>>,
        destructuring: Vec<Option<u32>>,
        rule_type: RuleType,
        is_function: bool,
        result_reg: u8,
        num_registers: u16,
        args: Vec<Value>,
    ) -> (r: Result<(Value, bool), VmError>)
        requires
            old(self).wf(),
            vals_wf(args@),
        ensures
            final(self).wf(),
            r matches Err(e) ==> !(e is InstructionLimitExceeded) && !(e
                is InvalidEntryPointIndex) && !(e is EntryPointNotFound),
            evolves(*old(self), *final(self)),
            cache_monotone(*old(self), *final(self)),
            budget_capped(*old(self), *final(self)),
            config_fixed(*old(self), *final(self)),
            final(self).register_stack@ == old(self).register_stack@,
            final(self).registers == old(self).registers,
            final(self).loop_stack == old(self).loop_stack,
            final(self).comprehension_stack == old(self).comprehension_stack,
            r matches Ok(p) ==> wf_val(p.0@),
            r matches Ok(p) ==> (p.1 ==> p.0@ is Undefined),
            r matches Err(e) ==> e is Internal,
        decreases budget(*old(self)), 3int, Value::Null,
    {
        let num_retained: usize = if is_function {
            if args.len() == usize::MAX {
                return Err(VmError::Internal("argument count out of range".to_owned()));
            }
            args.len() + 1
        } else {
            match rule_type {
                RuleType::PartialSet | RuleType::PartialObject => 1,
                RuleType::Complete => 0,
            }
        };
        let mut window = self.new_register_window();
        window.truncate(0);
        window.push(Value::Undefined);
        let n_args = args.len();
        let mut ai: usize = 0;
        while ai < n_args
            invariant
                ai <= n_args,
                n_args == args@.len(),
                vals_wf(args@),
                vals_wf(window@),
            decreases n_args - ai,
        {
            proof {
                assert(wf_val(view_of(args@[ai as int])));
            }
            let a = clone_value(&args[ai]);
            let ghost w0 = window@;
            window.push(a);
            proof {
                assert forall|i: int| 0 <= i < window@.len() implies wf_val(
                    view_of(#[trigger] window@[i]),
                ) by {
                    if i < w0.len() {
                        assert(window@[i] == w0[i]);
                    }
                }
            }
            ai = ai + 1;
        }
        core::mem::swap(&mut window, &mut self.registers);
        self.register_stack.push(window);
        let mut saved_loops: Vec<LoopContext> = Vec::new();
        core::mem::swap(&mut saved_loops, &mut self.loop_stack);
        let mut saved_compr: Vec<ComprehensionContext> = Vec::new();
        core::mem::swap(&mut saved_compr, &mut self.comprehension_stack);
        let res = self.run_definition_bodies(
            host,
            definitions,
            destructuring,
            rule_type,
            is_function,
            result_reg,
            num_registers,
            num_retained,
        );
        let old_regs = match self.register_stack.pop() {
            Some(w) => w,
            None => {
                proof {
                    assert(false);
                }
                return Err(VmError::Internal("register stack underflow".to_owned()));
            },
        };
        let mut cur = old_regs;
        core::mem::swap(&mut cur, &mut self.registers);
        self.return_register_window(cur);
        self.loop_stack = saved_loops;
        self.comprehension_stack = saved_compr;
        res
    }

    /// Call a rule: serve non-function rules from the cache when
    /// computed; otherwise run the definitions in a fresh window, apply
    /// the default for rules whose bodies all failed, write the result
    /// to `dest` and cache it for non-function rules.
    #[verifier::rlimit(60)]
    fn execute_call_rule_common<H: BuiltinHost>(
        &mut self,
        host: &mut H,
        dest: u8,
        rule_index: u16,
        function_args: Option<Vec<Value>>,
    ) -> (r: Result<(), VmError>)
        requires
            old(self).wf(),
            function_args matches Some(a) ==> vals_wf(a@),
        ensures
            final(self).wf(),
            r matches Err(e) ==> !(e is InstructionLimitExceeded) && !(e
                is InvalidEntryPointIndex) && !(e is EntryPointNotFound),
            evolves(*old(self), *final(self)),
            cache_monotone(*old(self), *final(self)),
            budget_capped(*old(self), *final(self)),
            config_fixed(*old(self), *final(self)),
            final(self).register_stack@ == old(self).register_stack@,
            r is Ok ==> final(self).pc == old(self).pc && final(self).loop_stack == old(
                self,
            ).loop_stack && final(self).comprehension_stack == old(self).comprehension_stack,
            ({
                // A computed cache entry of a non-function rule is served
                // without running anything: the cached value is copied to
                // `dest` and the machine is otherwise untouched.
                let ri = rule_index as int;
                (ri < old(self).rule_cache@.len() && ri < old(self).program.rule_infos@.len()
                    && old(self).program.rule_infos@[ri].function_info is None && (old(
                    self,
                ).rule_cache@[ri]).0) ==> (r is Ok ==> ({
                    &&& final(self).rule_cache == old(self).rule_cache
                    &&& final(self).spec_executed() == old(self).spec_executed()
                    &&& final(self).registers@.len() == old(self).registers@.len()
                    &&& (dest as int) < final(self).registers@.len()
                    &&& view_of(final(self).registers@[dest as int]) == view_of(
                        (old(self).rule_cache@[ri]).1,
                    )
                    &&& (forall|j: int|
                        0 <= j < final(self).registers@.len() && j != dest as int
                            ==> final(self).registers@[j] == old(self).registers@[j])
                }))
            }),
            ({
                // Function rules are never cached: their arguments would
                // invalidate memoisation, so their cache entries never move.
                let ri = rule_index as int;
                (ri < old(self).rule_cache@.len() && ri < old(self).program.rule_infos@.len()
                    && old(self).program.rule_infos@[ri].function_info is Some)
                    ==> final(self).rule_cache@[ri] == old(self).rule_cache@[ri]
            }),
            ({
                // After a successful call of a non-function rule its cache
                // entry is computed, and the result written to `dest` is
                // the cached value.
                let ri = rule_index as int;
                (ri < old(self).rule_cache@.len() && ri < old(self).program.rule_infos@.len()
                    && old(self).program.rule_infos@[ri].function_info is None) ==> (r is Ok
                    ==> ({
                    &&& (final(self).rule_cache@[ri]).0
                    &&& (dest as int) < final(self).registers@.len()
                    &&& view_of(final(self).registers@[dest as int]) == view_of(
                        (final(self).rule_cache@[ri]).1,
                    )
                }))
            }),
            r is Ok ==> ({
                // whatever path was taken, only `dest` changes among the
                // registers
                &&& final(self).registers@.len() == old(self).registers@.len()
                &&& (dest as int) < old(self).registers@.len()
                &&& (forall|j: int|
                    0 <= j < final(self).registers@.len() && j != dest as int
                        ==> final(self).registers@[j] == old(self).registers@[j])
            }),
            ({
                // a computed cache entry of a non-function rule is owed a
                // success whenever `dest` is in range
                let ri = rule_index as int;
                (ri < old(self).rule_cache@.len() && ri < old(self).program.rule_infos@.len()
                    && old(self).program.rule_infos@[ri].function_info is None && (old(
                    self,
                ).rule_cache@[ri]).0 && (dest as int) < old(self).registers@.len()) ==> r is Ok
            }),
            ({
                // a rule without definitions is owed a success whenever
                // `dest` is in range, and yields `Undefined`
                let ri = rule_index as int;
                (ri < old(self).rule_cache@.len() && ri < old(self).program.rule_infos@.len()
                    && old(self).program.rule_infos@[ri].definitions@.len() == 0 && !(old(
                    self,
                ).program.rule_infos@[ri].function_info is None && (old(self).rule_cache@[ri]).0)
                    && (dest as int) < old(self).registers@.len()) ==> (r is Ok && view_of(
                    final(self).registers@[dest as int],
                ) is Undefined)
            }),
            ({
                // a freshly computed call writes a value of the shape the
                // definitions' outcome dictates: inconsistency, a defined
                // result, or the kind's fallback
                let ri = rule_index as int;
                (r is Ok && ri < old(self).rule_cache@.len() && ri < old(
                    self,
                ).program.rule_infos@.len() && !(old(
                    self,
                ).program.rule_infos@[ri].function_info is None && (old(self).rule_cache@[ri]).0)
                    && old(self).program.rule_infos@[ri].definitions@.len() > 0) ==> (exists|
                    v: SpecValue,
                    inc: bool,
                |
                    wf_val(v) && view_of(#[trigger] final(self).registers@[dest as int])
                        == rule_result_shape(old(self).program, ri, v, inc))
            }),
            r matches Err(e) ==> e is RuleIndexOutOfBounds || e is RuleInfoMissing || e
                is Internal,
            (r matches Err(e) && e is RuleIndexOutOfBounds) <==> (rule_index as int) >= old(
                self,
            ).rule_cache@.len(),
            (r matches Err(e) && e is RuleInfoMissing) <==> ((rule_index as int) < old(
                self,
            ).rule_cache@.len() && (rule_index as int) >= old(self).program.rule_infos@.len()),
        decreases budget(*old(self)), 4int, Value::Null,
    {
        let rule_idx = rule_index as usize;
        if rule_idx >= self.rule_cache.len() {
            return Err(VmError::RuleIndexOutOfBounds { index: rule_index });
        }
        if rule_idx >= self.program.rule_infos.len() {
            return Err(VmError::RuleInfoMissing { index: rule_index });
        }
        let is_function = self.program.rule_infos[rule_idx].function_info.is_some();
        if !is_function {
            if self.rule_cache[rule_idx].0 {
                proof {
                    assert(wf_val(view_of(self.rule_cache@[rule_idx as int].1)));
                }
                let v = clone_value(&self.rule_cache[rule_idx].1);
                reg_write(&mut self.registers, dest, v)?;
                return Ok(());
            }
        }
        let rule_type = self.program.rule_infos[rule_idx].rule_type;
        let result_reg = self.program.rule_infos[rule_idx].result_reg;
        let num_registers = self.program.rule_infos[rule_idx].num_registers;
        let default_lit_idx = self.program.rule_infos[rule_idx].default_literal_index;
        let definitions = copy_defs(&self.program.rule_infos[rule_idx].definitions);
        let destructuring = copy_opt_u32s(&self.program.rule_infos[rule_idx].destructuring_blocks);
        if definitions.len() == 0 {
            if !is_function {
                self.rule_cache.set(rule_idx, (true, Value::Undefined));
                proof {
                    assert forall|i: int| 0 <= i < self.rule_cache@.len() implies wf_val(
                        view_of((#[trigger] self.rule_cache@[i]).1),
                    ) by {
                        if i != rule_idx as int {
                            assert(self.rule_cache@[i] == old(self).rule_cache@[i]);
                        }
                    }
                }
            }
            reg_write(&mut self.registers, dest, Value::Undefined)?;
            return Ok(());
        }
        let saved_pc = self.pc;
        self.call_rule_stack.push(
            CallRuleContext {
                return_pc: saved_pc,
                dest_reg: dest,
                result_reg,
                rule_index,
                rule_type,
                current_definition_index: 0,
                current_body_index: 0,
            },
        );
        let args: Vec<Value> = match function_args {
            Some(a) => a,
            None => Vec::new(),
        };
        let pair = self.execute_rule_definitions_common(
            host,
            definitions,
            destructuring,
            rule_type,
            is_function,
            result_reg,
            num_registers,
            args,
        );
        let (final_result, inconsistent) = match pair {
            Ok(p) => p,
            Err(e) => {
                let _ = self.call_rule_stack.pop();
                return Err(e);
            },
        };
        match self.call_rule_stack.pop() {
            Some(_) => {},
            None => {
                return Err(VmError::Internal("call stack underflow".to_owned()));
            },
        }
        self.pc = saved_pc;
        let out: Value = if is_undefined(&final_result) && !inconsistent {
            if matches!(rule_type, RuleType::Complete) {
                match default_lit_idx {
                    Some(di) => {
                        if (di as usize) < self.program.literals.len() {
                            proof {
                                assert(wf_val(view_of(self.program.literals@[di as int])));
                            }
                            default_for_failed(
                                rule_type,
                                Some(&self.program.literals[di as usize]),
                            )
                        } else {
                            default_for_failed(rule_type, None)
                        }
                    },
                    None => default_for_failed(rule_type, None),
                }
            } else {
                default_for_failed(rule_type, None)
            }
        } else {
            final_result
        };
        if !is_function {
            let cached = clone_value(&out);
            if rule_idx >= self.rule_cache.len() {
                return Err(VmError::Internal("rule cache shrank during execution".to_owned()));
            }
            let ghost pre_cache = self.rule_cache@;
            self.rule_cache.set(rule_idx, (true, cached));
            proof {
                assert forall|i: int| 0 <= i < self.rule_cache@.len() implies wf_val(
                    view_of((#[trigger] self.rule_cache@[i]).1),
                ) by {
                    if i != rule_idx as int {
                        assert(self.rule_cache@[i] == pre_cache[i]);
                    }
                }
                assert forall|i: int|
                    0 <= i < old(self).rule_cache@.len() && (#[trigger] old(
                        self,
                    ).rule_cache@[i]).0 implies self.rule_cache@[i] == old(self).rule_cache@[i] by {
                    if i != rule_idx as int {
                        assert(self.rule_cache@[i] == pre_cache[i]);
                    }
                }
            }
        }
        reg_write(&mut self.registers, dest, out)?;
        proof {
            assert(view_of(self.registers@[dest as int]) == rule_result_shape(
                old(self).program,
                rule_index as int,
                final_result@,
                inconsistent,
            ));
        }
        Ok(())
    }

    /// `CallRule`: call a rule without arguments.
    fn execute_call_rule<H: BuiltinHost>(
        &mut self,
        host: &mut H,
        dest: u8,
        rule_index: u16,
    ) -> (r: Result<(), VmError>)
        requires
            old(self).wf(),
        ensures
            final(self).wf(),
            r matches Err(e) ==> !(e is InstructionLimitExceeded) && !(e
                is InvalidEntryPointIndex) && !(e is EntryPointNotFound),
            evolves(*old(self), *final(self)),
            cache_monotone(*old(self), *final(self)),
            budget_capped(*old(self), *final(self)),
            config_fixed(*old(self), *final(self)),
            final(self).register_stack@ == old(self).register_stack@,
            r is Ok ==> final(self).pc == old(self).pc && final(self).loop_stack == old(
                self,
            ).loop_stack && final(self).comprehension_stack == old(self).comprehension_stack,
        decreases budget(*old(self)), 5int, Value::Null,
    {
        self.execute_call_rule_common(host, dest, rule_index, None)
    }

    /// `FunctionCall`: read the argument registers and call the function
    /// rule with their values. Function rules are never cached.
    fn execute_function_call<H: BuiltinHost>(
        &mut self,
        host: &mut H,
        params_index: u16,
    ) -> (r: Result<(), VmError>)
        requires
            old(self).wf(),
        ensures
            final(self).wf(),
            r matches Err(e) ==> !(e is InstructionLimitExceeded) && !(e
                is InvalidEntryPointIndex) && !(e is EntryPointNotFound),
            evolves(*old(self), *final(self)),
            cache_monotone(*old(self), *final(self)),
            budget_capped(*old(self), *final(self)),
            config_fixed(*old(self), *final(self)),
            final(self).register_stack@ == old(self).register_stack@,
            r is Ok ==> final(self).pc == old(self).pc && final(self).loop_stack == old(
                self,
            ).loop_stack && final(self).comprehension_stack == old(self).comprehension_stack,
        decreases budget(*old(self)), 5int, Value::Null,
    {
        if (params_index as usize) >= self.program.instruction_data.function_call_params.len() {
            return Err(VmError::Internal("function call parameter block missing".to_owned()));
        }
        let dest = self.program.instruction_data.function_call_params[params_index as usize].dest;
        let func_rule_index =
            self.program.instruction_data.function_call_params[params_index as usize].func_rule_index;
        let arg_regs = copy_u8s(
            &self.program.instruction_data.function_call_params[params_index as usize].args,
        );
        let n = arg_regs.len();
        let mut args: Vec<Value> = Vec::new();
        let mut i: usize = 0;
        while i < n
            invariant
                i <= n,
                n == arg_regs@.len(),
                self.wf(),
                *self == *old(self),
                vals_wf(args@),
            decreases n - i,
        {
            let v = reg_read(&self.registers, arg_regs[i])?;
            let ghost a0 = args@;
            args.push(v);
            proof {
                assert forall|j: int| 0 <= j < args@.len() implies wf_val(
                    view_of(#[trigger] args@[j]),
                ) by {
                    if j < a0.len() {
                        assert(args@[j] == a0[j]);
                    }
                }
            }
            i = i + 1;
        }
        self.execute_call_rule_common(host, dest, func_rule_index, Some(args))
    }

    /// `BuiltinCall`: validate the declared arity, gather the argument
    /// values, and hand the call to the host. An unresolved builtin is
    /// reported under its name; a host failure becomes an arithmetic
    /// error wrapping the host's message; a result is written to the
    /// destination register.
    fn execute_builtin_call<H: BuiltinHost>(&mut self, host: &mut H, params_index: u16) -> (r:
        Result<(), VmError>)
        requires
            old(self).wf(),
        ensures
            final(self).wf(),
            r matches Err(e) ==> !(e is InstructionLimitExceeded) && !(e
                is InvalidEntryPointIndex) && !(e is EntryPointNotFound),
            evolves(*old(self), *final(self)),
            cache_monotone(*old(self), *final(self)),
            budget_capped(*old(self), *final(self)),
            config_fixed(*old(self), *final(self)),
            final(self).spec_executed() == old(self).spec_executed(),
            *final(self) == (RegoVM { registers: final(self).registers, ..*old(self) }),
            r matches Err(e) ==> e is Internal || e is BuiltinArgumentMismatch || e
                is BuiltinNotResolved || e is ArithmeticError,
            (params_index as int) >= old(
                self,
            ).program.instruction_data.builtin_call_params@.len() ==> (r matches Err(e) && e
                is Internal),
            ({
                let ps = old(self).program.instruction_data.builtin_call_params@;
                ((params_index as int) < ps.len() && (ps[params_index as int].builtin_index as int)
                    >= old(self).program.builtin_info_table@.len()) ==> (r matches Err(e) && e
                    is Internal)
            }),
            ({
                // an unresolved builtin is reported under its descriptor's name
                let ps = old(self).program.instruction_data.builtin_call_params@;
                ((params_index as int) < ps.len() && (ps[params_index as int].builtin_index as int)
                    < old(self).program.builtin_info_table@.len()) ==> (r matches Err(e) ==> (
                e matches VmError::BuiltinNotResolved { name } ==> name@ == old(
                    self,
                ).program.builtin_info_table@[ps[params_index as int].builtin_index as int].name@))
            }),
            (params_index as int) < old(self).program.instruction_data.builtin_call_params@.len()
                ==> ({
                let p = old(self).program.instruction_data.builtin_call_params@[params_index as int];
                (p.builtin_index as int) < old(self).program.builtin_info_table@.len() ==> ({
                    let info = old(self).program.builtin_info_table@[p.builtin_index as int];
                    p.arg_registers@.len() != info.num_args as int ==> (r matches Err(e)
                        && e matches VmError::BuiltinArgumentMismatch { expected, actual }
                        && expected == info.num_args && actual == p.arg_registers@.len())
                })
            }),
            r is Ok ==> ({
                let p = old(self).program.instruction_data.builtin_call_params@[params_index as int];
                &&& (params_index as int) < old(
                    self,
                ).program.instruction_data.builtin_call_params@.len()
                &&& (p.dest as int) < old(self).registers@.len()
                &&& final(self).registers@.len() == old(self).registers@.len()
                &&& wf_val(view_of(final(self).registers@[p.dest as int]))
                &&& (forall|j: int|
                    0 <= j < final(self).registers@.len() && j != p.dest as int
                        ==> final(self).registers@[j] == old(self).registers@[j])
            }),
    {
        if (params_index as usize) >= self.program.instruction_data.builtin_call_params.len() {
            return Err(VmError::Internal("builtin call parameter block missing".to_owned()));
        }
        let dest = self.program.instruction_data.builtin_call_params[params_index as usize].dest;
        let bidx = self.program.instruction_data.builtin_call_params[params_index as usize].builtin_index;
        let arg_regs = copy_u8s(
            &self.program.instruction_data.builtin_call_params[params_index as usize].arg_registers,
        );
        if (bidx as usize) >= self.program.builtin_info_table.len() {
            return Err(VmError::Internal("builtin descriptor missing".to_owned()));
        }
        let expected = self.program.builtin_info_table[bidx as usize].num_args;
        if arg_regs.len() != expected as usize {
            return Err(
                VmError::BuiltinArgumentMismatch { expected, actual: arg_regs.len() },
            );
        }
        let n = arg_regs.len();
        let mut args: Vec<Value> = Vec::new();
        let mut i: usize = 0;
        while i < n
            invariant
                i <= n,
                n == arg_regs@.len(),
                self.wf(),
                *self == *old(self),
                vals_wf(args@),
                (params_index as int) < old(
                    self,
                ).program.instruction_data.builtin_call_params@.len(),
                arg_regs@ == old(
                    self,
                ).program.instruction_data.builtin_call_params@[params_index as int].arg_registers@,
                bidx == old(
                    self,
                ).program.instruction_data.builtin_call_params@[params_index as int].builtin_index,
                dest == old(
                    self,
                ).program.instruction_data.builtin_call_params@[params_index as int].dest,
                (bidx as int) < old(self).program.builtin_info_table@.len(),
                arg_regs@.len() == old(
                    self,
                ).program.builtin_info_table@[bidx as int].num_args as int,
            decreases n - i,
        {
            let v = reg_read(&self.registers, arg_regs[i])?;
            let ghost a0 = args@;
            args.push(v);
            proof {
                assert forall|j: int| 0 <= j < args@.len() implies wf_val(
                    view_of(#[trigger] args@[j]),
                ) by {
                    if j < a0.len() {
                        assert(args@[j] == a0[j]);
                    }
                }
            }
            i = i + 1;
        }
        match host.call_builtin(bidx, args) {
            Some(res) => {
                match res {
                    Ok(v) => {
                        reg_write(&mut self.registers, dest, v)?;
                        Ok(())
                    },
                    Err(msg) => Err(VmError::ArithmeticError(msg)),
                }
            },
            None => Err(
                VmError::BuiltinNotResolved {
                    name: self.program.builtin_info_table[bidx as usize].name.clone(),
                },
            ),
        }
    }

    /// Resolve a literal-or-register path component to a value.
    fn resolve_component(&self, comp: LiteralOrRegister) -> (r: Result<Value, VmError>)
        requires
            self.wf(),
        ensures
            r matches Ok(v) ==> wf_val(v@),
            r matches Ok(v) ==> (match comp {
                LiteralOrRegister::Literal(idx) => (idx as int)
                    < self.program.literals@.len() && v@ == view_of(
                    self.program.literals@[idx as int],
                ),
                LiteralOrRegister::Register(reg) => (reg as int) < self.registers@.len() && v@
                    == view_of(self.registers@[reg as int]),
            }),
            r matches Err(e) ==> e is Internal || e is LiteralIndexOutOfBounds,
            (match comp {
                LiteralOrRegister::Literal(idx) => (idx as int) < self.program.literals@.len(),
                LiteralOrRegister::Register(reg) => (reg as int) < self.registers@.len(),
            }) ==> r is Ok,
    {
        match comp {
            LiteralOrRegister::Literal(idx) => {
                if (idx as usize) < self.program.literals.len() {
                    proof {
                        assert(wf_val(view_of(self.program.literals@[idx as int])));
                    }
                    Ok(clone_value(&self.program.literals[idx as usize]))
                } else {
                    Err(VmError::LiteralIndexOutOfBounds { index: idx as usize })
                }
            },
            LiteralOrRegister::Register(reg) => reg_read(&self.registers, reg),
        }
    }

    /// `ChainedIndex`: walk a path of literal-or-register components
    /// from a root register, stopping early at `Undefined`.
    fn step_chained_index(&mut self, params_index: u16) -> (r: Result<(), VmError>)
        requires
            old(self).wf(),
        ensures
            final(self).wf(),
            r matches Err(e) ==> !(e is InstructionLimitExceeded) && !(e
                is InvalidEntryPointIndex) && !(e is EntryPointNotFound),
            evolves(*old(self), *final(self)),
            cache_monotone(*old(self), *final(self)),
            budget_capped(*old(self), *final(self)),
            config_fixed(*old(self), *final(self)),
            *final(self) == (RegoVM { registers: final(self).registers, ..*old(self) }),
            r is Ok ==> ({
                let ps = old(
                    self,
                ).program.instruction_data.chained_index_params@[params_index as int];
                let path = comps_views(*old(self), ps.path_components@);
                &&& (params_index as int) < old(
                    self,
                ).program.instruction_data.chained_index_params@.len()
                &&& (ps.root as int) < old(self).registers@.len()
                &&& (ps.dest as int) < old(self).registers@.len()
                &&& final(self).registers@.len() == old(self).registers@.len()
                &&& view_of(final(self).registers@[ps.dest as int]) == index_path(
                    view_of(old(self).registers@[ps.root as int]),
                    path,
                    0,
                )
                &&& (forall|j: int|
                    0 <= j < final(self).registers@.len() && j != ps.dest as int
                        ==> final(self).registers@[j] == old(self).registers@[j])
            }),
            r matches Err(e) ==> e is InvalidChainedIndexParams || e is LiteralIndexOutOfBounds
                || e is Internal,
            ({
                // success is owed when the parameter block exists and every
                // register and literal it names is in range
                ((params_index as int) < old(
                    self,
                ).program.instruction_data.chained_index_params@.len() && ({
                    let ps = old(
                        self,
                    ).program.instruction_data.chained_index_params@[params_index as int];
                    &&& (ps.root as int) < old(self).registers@.len()
                    &&& (ps.dest as int) < old(self).registers@.len()
                    &&& (forall|j: int|
                        0 <= j < ps.path_components@.len() ==> (match #[trigger] ps.path_components@[j] {
                            LiteralOrRegister::Literal(idx) => (idx as int) < old(
                                self,
                            ).program.literals@.len(),
                            LiteralOrRegister::Register(reg) => (reg as int) < old(
                                self,
                            ).registers@.len(),
                        }))
                })) ==> r is Ok
            }),
    {
        if (params_index as usize) >= self.program.instruction_data.chained_index_params.len() {
            return Err(VmError::InvalidChainedIndexParams { index: params_index });
        }
        let dest = self.program.instruction_data.chained_index_params[params_index as usize].dest;
        let root = self.program.instruction_data.chained_index_params[params_index as usize].root;
        let comps = copy_lors(
            &self.program.instruction_data.chained_index_params[params_index as usize].path_components,
        );
        let ghost path = comps_views(*old(self), comps@);
        let ghost owed = (forall|j: int|
            0 <= j < comps@.len() ==> (match #[trigger] comps@[j] {
                LiteralOrRegister::Literal(idx) => (idx as int) < old(
                    self,
                ).program.literals@.len(),
                LiteralOrRegister::Register(reg) => (reg as int) < old(self).registers@.len(),
            }));
        let mut cur = reg_read(&self.registers, root)?;
        let ghost rootv = cur@;
        let n = comps.len();
        let mut i: usize = 0;
        while i < n
            invariant
                i <= n,
                n == comps@.len(),
                self.wf(),
                *self == *old(self),
                wf_val(cur@),
                path == comps_views(*old(self), comps@),
                path.len() == n,
                index_path(rootv, path, 0) == index_path(cur@, path, i as nat),
                owed == (forall|j: int|
                    0 <= j < comps@.len() ==> (match #[trigger] comps@[j] {
                        LiteralOrRegister::Literal(idx) => (idx as int) < old(
                            self,
                        ).program.literals@.len(),
                        LiteralOrRegister::Register(reg) => (reg as int) < old(
                            self,
                        ).registers@.len(),
                    })),
                (params_index as int) < old(
                    self,
                ).program.instruction_data.chained_index_params@.len(),
                comps@ == old(
                    self,
                ).program.instruction_data.chained_index_params@[params_index as int].path_components@,
                root == old(
                    self,
                ).program.instruction_data.chained_index_params@[params_index as int].root,
                dest == old(
                    self,
                ).program.instruction_data.chained_index_params@[params_index as int].dest,
                (root as int) < old(self).registers@.len(),
            decreases n - i,
        {
            let key = self.resolve_component(comps[i])?;
            proof {
                assert(path[i as int] == comp_view(*old(self), comps@[i as int]));
                assert(key@ == path[i as int]);
            }
            cur = value_index(&cur, &key);
            if is_undefined(&cur) {
                proof {
                    lemma_index_path_undefined(path, (i + 1) as nat);
                    lemma_index_path_undefined(path, n as nat);
                }
                i = n;
            } else {
                i = i + 1;
            }
        }
        reg_write(&mut self.registers, dest, cur)?;
        Ok(())
    }

    /// `ObjectCreate`: build an object from a template literal, value
    /// updates for literal keys, and register key/value pairs. Any
    /// `Undefined` among the inputs makes the whole object `Undefined`.
    #[verifier::rlimit(60)]
    fn step_object_create(&mut self, params_index: u16) -> (r: Result<(), VmError>)
        requires
            old(self).wf(),
        ensures
            final(self).wf(),
            r matches Err(e) ==> !(e is InstructionLimitExceeded) && !(e
                is InvalidEntryPointIndex) && !(e is EntryPointNotFound),
            evolves(*old(self), *final(self)),
            cache_monotone(*old(self), *final(self)),
            budget_capped(*old(self), *final(self)),
            config_fixed(*old(self), *final(self)),
            *final(self) == (RegoVM { registers: final(self).registers, ..*old(self) }),
            r is Ok ==> ({
                let ps = old(
                    self,
                ).program.instruction_data.object_create_params@[params_index as int];
                let lks = ps.literal_key_field_pairs@;
                let fps = ps.field_pairs@;
                let any_undef = (exists|j: int|
                    0 <= j < lks.len() && view_of(
                        old(self).registers@[#[trigger] lks[j].1 as int],
                    ) is Undefined) || (exists|j: int|
                    0 <= j < fps.len() && (view_of(
                        old(self).registers@[#[trigger] fps[j].0 as int],
                    ) is Undefined || view_of(
                        old(self).registers@[fps[j].1 as int],
                    ) is Undefined));
                &&& (params_index as int) < old(
                    self,
                ).program.instruction_data.object_create_params@.len()
                &&& (ps.dest as int) < old(self).registers@.len()
                &&& final(self).registers@.len() == old(self).registers@.len()
                &&& ({
                    let dv = view_of(final(self).registers@[ps.dest as int]);
                    if any_undef {
                        dv is Undefined
                    } else {
                        dv == obj_create_field_fold(
                            old(self).registers@,
                            ps.field_pairs@,
                            0,
                            obj_create_literal_fold(
                                old(self).program,
                                old(self).registers@,
                                ps.literal_key_field_pairs@,
                                0,
                                view_of(
                                    old(self).program.literals@[ps.template_literal_idx as int],
                                ),
                            ),
                        )
                    }
                })
                &&& (forall|j: int|
                    0 <= j < final(self).registers@.len() && j != ps.dest as int
                        ==> final(self).registers@[j] == old(self).registers@[j])
            }),
            r matches Err(e) ==> e is InvalidObjectCreateParams || e is InvalidTemplateLiteralIndex
                || e is ObjectCreateInvalidTemplate || e is Internal,
            ({
                // success is owed when the parameter block exists, every
                // register it names is in range, and the template literal
                // is an object
                ((params_index as int) < old(
                    self,
                ).program.instruction_data.object_create_params@.len() && ({
                    let ps = old(
                        self,
                    ).program.instruction_data.object_create_params@[params_index as int];
                    &&& (ps.dest as int) < old(self).registers@.len()
                    &&& (forall|j: int|
                        0 <= j < ps.literal_key_field_pairs@.len() ==> (
                        #[trigger] ps.literal_key_field_pairs@[j].1 as int) < old(
                            self,
                        ).registers@.len())
                    &&& (forall|j: int|
                        0 <= j < ps.field_pairs@.len() ==> (#[trigger] ps.field_pairs@[j].0 as int)
                            < old(self).registers@.len() && (ps.field_pairs@[j].1 as int) < old(
                            self,
                        ).registers@.len())
                    &&& (ps.template_literal_idx as int) < old(self).program.literals@.len()
                    &&& view_of(
                        old(self).program.literals@[ps.template_literal_idx as int],
                    ) is Obj
                })) ==> r is Ok
            }),
    {
        if (params_index as usize) >= self.program.instruction_data.object_create_params.len() {
            return Err(VmError::InvalidObjectCreateParams { index: params_index });
        }
        let dest = self.program.instruction_data.object_create_params[params_index as usize].dest;
        let template_idx =
            self.program.instruction_data.object_create_params[params_index as usize].template_literal_idx;
        let lit_pairs = copy_pairs_u16_u8(
            &self.program.instruction_data.object_create_params[params_index as usize].literal_key_field_pairs,
        );
        let field_pairs = copy_pairs_u8_u8(
            &self.program.instruction_data.object_create_params[params_index as usize].field_pairs,
        );
        let mut any_undefined = false;
        let n1 = lit_pairs.len();
        let ghost n2_g = field_pairs@.len();
        let mut i: usize = 0;
        while i < n1
            invariant
                i <= n1,
                n1 == lit_pairs@.len(),
                n2_g == field_pairs@.len(),
                self.wf(),
                *self == *old(self),
                (params_index as int) < old(
                    self,
                ).program.instruction_data.object_create_params@.len(),
                lit_pairs@ == old(
                    self,
                ).program.instruction_data.object_create_params@[params_index as int].literal_key_field_pairs@,
                field_pairs@ == old(
                    self,
                ).program.instruction_data.object_create_params@[params_index as int].field_pairs@,
                dest == old(
                    self,
                ).program.instruction_data.object_create_params@[params_index as int].dest,
                template_idx == old(
                    self,
                ).program.instruction_data.object_create_params@[params_index as int].template_literal_idx,
                forall|k: int|
                    0 <= k < i ==> (#[trigger] lit_pairs@[k].1 as int) < self.registers@.len(),
                any_undefined == (exists|k: int|
                    0 <= k < i && view_of(
                        self.registers@[#[trigger] lit_pairs@[k].1 as int],
                    ) is Undefined),
            decreases n1 - i,
        {
            let v = reg_read(&self.registers, lit_pairs[i].1)?;
            if is_undefined(&v) {
                any_undefined = true;
            }
            i = i + 1;
        }
        let ghost lit_undef = any_undefined;
        let n2 = field_pairs.len();
        let mut j: usize = 0;
        while j < n2
            invariant
                j <= n2,
                n2 == field_pairs@.len(),
                n1 == lit_pairs@.len(),
                self.wf(),
                *self == *old(self),
                (params_index as int) < old(
                    self,
                ).program.instruction_data.object_create_params@.len(),
                lit_pairs@ == old(
                    self,
                ).program.instruction_data.object_create_params@[params_index as int].literal_key_field_pairs@,
                field_pairs@ == old(
                    self,
                ).program.instruction_data.object_create_params@[params_index as int].field_pairs@,
                dest == old(
                    self,
                ).program.instruction_data.object_create_params@[params_index as int].dest,
                template_idx == old(
                    self,
                ).program.instruction_data.object_create_params@[params_index as int].template_literal_idx,
                lit_undef == (exists|k: int|
                    0 <= k < lit_pairs@.len() && view_of(
                        self.registers@[#[trigger] lit_pairs@[k].1 as int],
                    ) is Undefined),
                forall|k: int|
                    0 <= k < j ==> (#[trigger] field_pairs@[k].0 as int) < self.registers@.len()
                        && (field_pairs@[k].1 as int) < self.registers@.len(),
                any_undefined == (lit_undef || (exists|k: int|
                    0 <= k < j && (view_of(
                        self.registers@[#[trigger] field_pairs@[k].0 as int],
                    ) is Undefined || view_of(
                        self.registers@[field_pairs@[k].1 as int],
                    ) is Undefined))),
            decreases n2 - j,
        {
            let k = reg_read(&self.registers, field_pairs[j].0)?;
            let v = reg_read(&self.registers, field_pairs[j].1)?;
            proof {
                assert((field_pairs@[j as int].0 as int) < self.registers@.len());
                assert((field_pairs@[j as int].1 as int) < self.registers@.len());
            }
            if is_undefined(&k) || is_undefined(&v) {
                any_undefined = true;
            }
            j = j + 1;
        }
        if any_undefined {
            reg_write(&mut self.registers, dest, Value::Undefined)?;
            return Ok(());
        }
        if (template_idx as usize) >= self.program.literals.len() {
            return Err(VmError::InvalidTemplateLiteralIndex { index: template_idx });
        }
        proof {
            assert(wf_val(view_of(self.program.literals@[template_idx as int])));
        }
        let template = clone_value(&self.program.literals[template_idx as usize]);
        let ghost template_view = view_of(old(self).program.literals@[template_idx as int]);
        let mut obj = match template {
            Value::Obj(entries) => Value::Obj(entries),
            _ => {
                return Err(VmError::ObjectCreateInvalidTemplate);
            },
        };
        let mut i2: usize = 0;
        while i2 < n1
            invariant
                i2 <= n1,
                self.wf(),
                *self == *old(self),
                wf_val(obj@),
                obj@ is Obj,
                n1 == lit_pairs@.len(),
                n2 == field_pairs@.len(),
                template_view == view_of(
                    old(self).program.literals@[template_idx as int],
                ),
                obj_create_literal_fold(
                    old(self).program,
                    old(self).registers@,
                    lit_pairs@,
                    0,
                    template_view,
                ) == obj_create_literal_fold(
                    old(self).program,
                    old(self).registers@,
                    lit_pairs@,
                    i2 as nat,
                    obj@,
                ),
                (params_index as int) < old(
                    self,
                ).program.instruction_data.object_create_params@.len(),
                lit_pairs@ == old(
                    self,
                ).program.instruction_data.object_create_params@[params_index as int].literal_key_field_pairs@,
                field_pairs@ == old(
                    self,
                ).program.instruction_data.object_create_params@[params_index as int].field_pairs@,
                dest == old(
                    self,
                ).program.instruction_data.object_create_params@[params_index as int].dest,
                template_idx == old(
                    self,
                ).program.instruction_data.object_create_params@[params_index as int].template_literal_idx,
            decreases n1 - i2,
        {
            let lidx = lit_pairs[i2].0;
            if (lidx as usize) < self.program.literals.len() {
                proof {
                    assert(wf_val(view_of(self.program.literals@[lidx as int])));
                }
                let key = clone_value(&self.program.literals[lidx as usize]);
                let v = reg_read(&self.registers, lit_pairs[i2].1)?;
                obj = match obj_inserted(obj, key, v) {
                    Ok(o) => o,
                    Err(e) => {
                        proof {
                            assert(false);
                        }
                        e
                    },
                };
            }
            i2 = i2 + 1;
        }
        let ghost lit_result = obj@;
        let mut j2: usize = 0;
        while j2 < n2
            invariant
                j2 <= n2,
                self.wf(),
                *self == *old(self),
                wf_val(obj@),
                obj@ is Obj,
                n2 == field_pairs@.len(),
                obj_create_field_fold(old(self).registers@, field_pairs@, 0, lit_result)
                    == obj_create_field_fold(
                    old(self).registers@,
                    field_pairs@,
                    j2 as nat,
                    obj@,
                ),
                lit_result == obj_create_literal_fold(
                    old(self).program,
                    old(self).registers@,
                    lit_pairs@,
                    0,
                    view_of(old(self).program.literals@[template_idx as int]),
                ),
                (params_index as int) < old(
                    self,
                ).program.instruction_data.object_create_params@.len(),
                lit_pairs@ == old(
                    self,
                ).program.instruction_data.object_create_params@[params_index as int].literal_key_field_pairs@,
                field_pairs@ == old(
                    self,
                ).program.instruction_data.object_create_params@[params_index as int].field_pairs@,
                dest == old(
                    self,
                ).program.instruction_data.object_create_params@[params_index as int].dest,
                template_idx == old(
                    self,
                ).program.instruction_data.object_create_params@[params_index as int].template_literal_idx,
            decreases n2 - j2,
        {
            let key = reg_read(&self.registers, field_pairs[j2].0)?;
            let v = reg_read(&self.registers, field_pairs[j2].1)?;
            obj = match obj_inserted(obj, key, v) {
                Ok(o) => o,
                Err(e) => {
                    proof {
                        assert(false);
                    }
                    e
                },
            };
            j2 = j2 + 1;
        }
        reg_write(&mut self.registers, dest, obj)?;
        Ok(())
    }

    /// `ArrayCreate`: collect the element registers into an array, or
    /// `Undefined` when any element is `Undefined`.
    fn step_array_create(&mut self, params_index: u16) -> (r: Result<(), VmError>)
        requires
            old(self).wf(),
        ensures
            final(self).wf(),
            r matches Err(e) ==> !(e is InstructionLimitExceeded) && !(e
                is InvalidEntryPointIndex) && !(e is EntryPointNotFound),
            evolves(*old(self), *final(self)),
            cache_monotone(*old(self), *final(self)),
            budget_capped(*old(self), *final(self)),
            config_fixed(*old(self), *final(self)),
            *final(self) == (RegoVM { registers: final(self).registers, ..*old(self) }),
            r is Ok ==> ({
                let ps = old(
                    self,
                ).program.instruction_data.array_create_params@[params_index as int];
                let es = ps.element_registers@;
                &&& (params_index as int) < old(
                    self,
                ).program.instruction_data.array_create_params@.len()
                &&& (ps.dest as int) < old(self).registers@.len()
                &&& final(self).registers@.len() == old(self).registers@.len()
                &&& (forall|j: int|
                    0 <= j < es.len() ==> (#[trigger] es[j] as int) < old(self).registers@.len())
                &&& ({
                    let dv = view_of(final(self).registers@[ps.dest as int]);
                    if exists|j: int|
                        0 <= j < es.len() && view_of(
                            old(self).registers@[#[trigger] es[j] as int],
                        ) is Undefined {
                        dv is Undefined
                    } else {
                        dv == SpecValue::Arr(
                            Seq::new(
                                es.len(),
                                |j: int|
                                    if 0 <= j < es.len() {
                                        view_of(old(self).registers@[es[j] as int])
                                    } else {
                                        SpecValue::Undefined
                                    },
                            ),
                        )
                    }
                })
                &&& (forall|j: int|
                    0 <= j < final(self).registers@.len() && j != ps.dest as int
                        ==> final(self).registers@[j] == old(self).registers@[j])
            }),
            r matches Err(e) ==> e is InvalidArrayCreateParams || e is Internal,
            ({
                // success is owed when the parameter block exists and every
                // register it names is in range
                ((params_index as int) < old(
                    self,
                ).program.instruction_data.array_create_params@.len() && ({
                    let ps = old(
                        self,
                    ).program.instruction_data.array_create_params@[params_index as int];
                    &&& (ps.dest as int) < old(self).registers@.len()
                    &&& (forall|j: int|
                        0 <= j < ps.element_registers@.len() ==> (
                        #[trigger] ps.element_registers@[j] as int) < old(self).registers@.len())
                })) ==> r is Ok
            }),
    {
        if (params_index as usize) >= self.program.instruction_data.array_create_params.len() {
            return Err(VmError::InvalidArrayCreateParams { index: params_index });
        }
        let dest = self.program.instruction_data.array_create_params[params_index as usize].dest;
        let regs = copy_u8s(
            &self.program.instruction_data.array_create_params[params_index as usize].element_registers,
        );
        let n = regs.len();
        let mut any_undefined = false;
        let mut i: usize = 0;
        while i < n
            invariant
                i <= n,
                self.wf(),
                *self == *old(self),
                n == regs@.len(),
                (params_index as int) < old(
                    self,
                ).program.instruction_data.array_create_params@.len(),
                regs@ == old(
                    self,
                ).program.instruction_data.array_create_params@[params_index as int].element_registers@,
                dest == old(
                    self,
                ).program.instruction_data.array_create_params@[params_index as int].dest,
                forall|k: int| 0 <= k < i ==> (#[trigger] regs@[k] as int) < self.registers@.len(),
                any_undefined == (exists|k: int|
                    0 <= k < i && view_of(
                        self.registers@[#[trigger] regs@[k] as int],
                    ) is Undefined),
            decreases n - i,
        {
            let v = reg_read(&self.registers, regs[i])?;
            if is_undefined(&v) {
                any_undefined = true;
            }
            i = i + 1;
        }
        if any_undefined {
            reg_write(&mut self.registers, dest, Value::Undefined)?;
            return Ok(());
        }
        let mut items: Vec<Value> = Vec::new();
        let mut j: usize = 0;
        while j < n
            invariant
                j <= n,
                self.wf(),
                *self == *old(self),
                n == regs@.len(),
                (params_index as int) < old(
                    self,
                ).program.instruction_data.array_create_params@.len(),
                regs@ == old(
                    self,
                ).program.instruction_data.array_create_params@[params_index as int].element_registers@,
                dest == old(
                    self,
                ).program.instruction_data.array_create_params@[params_index as int].dest,
                forall|k: int| 0 <= k < n ==> (#[trigger] regs@[k] as int) < self.registers@.len(),
                vals_wf(items@),
                items@.len() == j,
                forall|k: int|
                    0 <= k < j ==> view_of(#[trigger] items@[k]) == view_of(
                        self.registers@[regs@[k] as int],
                    ),
            decreases n - j,
        {
            let v = reg_read(&self.registers, regs[j])?;
            let ghost i0 = items@;
            items.push(v);
            proof {
                assert forall|k: int| 0 <= k < items@.len() implies wf_val(
                    view_of(#[trigger] items@[k]),
                ) by {
                    if k < i0.len() {
                        assert(items@[k] == i0[k]);
                    }
                }
            }
            j = j + 1;
        }
        let arr = Value::Arr(items);
        proof {
            crate::value::lemma_seq_view_wf_rev(items@);
            crate::value::lemma_wf_arr(seq_view(items@));
            assert(seq_view(items@) =~= Seq::new(
                regs@.len(),
                |k: int|
                    if 0 <= k < regs@.len() {
                        view_of(self.registers@[regs@[k] as int])
                    } else {
                        SpecValue::Undefined
                    },
            ));
        }
        reg_write(&mut self.registers, dest, arr)?;
        Ok(())
    }

    /// `SetCreate`: collect the element registers into a set (ordered,
    /// deduplicated), or `Undefined` when any element is `Undefined`.
    fn step_set_create(&mut self, params_index: u16) -> (r: Result<(), VmError>)
        requires
            old(self).wf(),
        ensures
            final(self).wf(),
            r matches Err(e) ==> !(e is InstructionLimitExceeded) && !(e
                is InvalidEntryPointIndex) && !(e is EntryPointNotFound),
            evolves(*old(self), *final(self)),
            cache_monotone(*old(self), *final(self)),
            budget_capped(*old(self), *final(self)),
            config_fixed(*old(self), *final(self)),
            *final(self) == (RegoVM { registers: final(self).registers, ..*old(self) }),
            r is Ok ==> ({
                let ps = old(self).program.instruction_data.set_create_params@[params_index as int];
                let es = ps.element_registers@;
                &&& (params_index as int) < old(
                    self,
                ).program.instruction_data.set_create_params@.len()
                &&& (ps.dest as int) < old(self).registers@.len()
                &&& final(self).registers@.len() == old(self).registers@.len()
                &&& (forall|j: int|
                    0 <= j < es.len() ==> (#[trigger] es[j] as int) < old(self).registers@.len())
                &&& ({
                    let dv = view_of(final(self).registers@[ps.dest as int]);
                    if exists|j: int|
                        0 <= j < es.len() && view_of(
                            old(self).registers@[#[trigger] es[j] as int],
                        ) is Undefined {
                        dv is Undefined
                    } else {
                        dv == SpecValue::SetV(set_create_fold(*old(self), es, es.len()))
                    }
                })
                &&& (forall|j: int|
                    0 <= j < final(self).registers@.len() && j != ps.dest as int
                        ==> final(self).registers@[j] == old(self).registers@[j])
            }),
            r matches Err(e) ==> e is InvalidSetCreateParams || e is Internal,
            ({
                // success is owed when the parameter block exists and every
                // register it names is in range
                ((params_index as int) < old(
                    self,
                ).program.instruction_data.set_create_params@.len() && ({
                    let ps = old(
                        self,
                    ).program.instruction_data.set_create_params@[params_index as int];
                    &&& (ps.dest as int) < old(self).registers@.len()
                    &&& (forall|j: int|
                        0 <= j < ps.element_registers@.len() ==> (
                        #[trigger] ps.element_registers@[j] as int) < old(self).registers@.len())
                })) ==> r is Ok
            }),
    {
        if (params_index as usize) >= self.program.instruction_data.set_create_params.len() {
            return Err(VmError::InvalidSetCreateParams { index: params_index });
        }
        let dest = self.program.instruction_data.set_create_params[params_index as usize].dest;
        let regs = copy_u8s(
            &self.program.instruction_data.set_create_params[params_index as usize].element_registers,
        );
        let n = regs.len();
        let mut any_undefined = false;
        let mut i: usize = 0;
        while i < n
            invariant
                i <= n,
                self.wf(),
                *self == *old(self),
                n == regs@.len(),
                (params_index as int) < old(
                    self,
                ).program.instruction_data.set_create_params@.len(),
                regs@ == old(
                    self,
                ).program.instruction_data.set_create_params@[params_index as int].element_registers@,
                dest == old(
                    self,
                ).program.instruction_data.set_create_params@[params_index as int].dest,
                forall|k: int| 0 <= k < i ==> (#[trigger] regs@[k] as int) < self.registers@.len(),
                any_undefined == (exists|k: int|
                    0 <= k < i && view_of(
                        self.registers@[#[trigger] regs@[k] as int],
                    ) is Undefined),
            decreases n - i,
        {
            let v = reg_read(&self.registers, regs[i])?;
            if is_undefined(&v) {
                any_undefined = true;
            }
            i = i + 1;
        }
        if any_undefined {
            reg_write(&mut self.registers, dest, Value::Undefined)?;
            return Ok(());
        }
        let mut out = Value::new_set();
        let mut j: usize = 0;
        while j < n
            invariant
                j <= n,
                self.wf(),
                *self == *old(self),
                n == regs@.len(),
                (params_index as int) < old(
                    self,
                ).program.instruction_data.set_create_params@.len(),
                regs@ == old(
                    self,
                ).program.instruction_data.set_create_params@[params_index as int].element_registers@,
                dest == old(
                    self,
                ).program.instruction_data.set_create_params@[params_index as int].dest,
                forall|k: int| 0 <= k < n ==> (#[trigger] regs@[k] as int) < self.registers@.len(),
                wf_val(out@),
                out@ is SetV,
                out@ == SpecValue::SetV(set_create_fold(*old(self), regs@, j as nat)),
            decreases n - j,
        {
            let v = reg_read(&self.registers, regs[j])?;
            out = match set_added(out, v) {
                Ok(o) => o,
                Err(e) => {
                    proof {
                        assert(false);
                    }
                    e
                },
            };
            j = j + 1;
        }
        reg_write(&mut self.registers, dest, out)?;
        Ok(())
    }
}


/// Indexing a value through a path of keys; `Undefined` absorbs.
pub open spec fn index_path(v: SpecValue, path: Seq<SpecValue>, i: nat) -> SpecValue
    decreases path.len() - i,
{
    if i < path.len() {
        index_path(spec_index(v, path[i as int]), path, i + 1)
    } else {
        v
    }
}

/// Indexing anything into `Undefined` stays `Undefined`.
pub proof fn lemma_index_path_undefined(path: Seq<SpecValue>, i: nat)
    ensures
        index_path(SpecValue::Undefined, path, i) == SpecValue::Undefined,
    decreases path.len() - i,
{
    if i < path.len() {
        lemma_index_path_undefined(path, i + 1);
    }
}

/// Walking the rule tree along a path: advance one component at a time,
/// stopping early at `Undefined` or at a rule leaf; the result is the
/// node reached and how many components were consumed.
pub open spec fn walk_nodes(tree: SpecValue, path: Seq<SpecValue>, i: nat) -> (SpecValue, nat)
    decreases path.len() - i,
{
    if i >= path.len() {
        (tree, i)
    } else {
        let nxt = spec_index(tree, path[i as int]);
        match nxt {
            SpecValue::Undefined => (nxt, i + 1),
            SpecValue::Num { .. } => (nxt, i + 1),
            _ => walk_nodes(nxt, path, i + 1),
        }
    }
}

/// The value a path component stands for: a literal or a register.
pub open spec fn comp_view(vm: RegoVM, c: LiteralOrRegister) -> SpecValue {
    match c {
        LiteralOrRegister::Literal(i) => view_of(vm.program.literals@[i as int]),
        LiteralOrRegister::Register(r) => view_of(vm.registers@[r as int]),
    }
}

/// The values a component path stands for, in order.
pub open spec fn comps_views(vm: RegoVM, cs: Seq<LiteralOrRegister>) -> Seq<SpecValue> {
    Seq::new(
        cs.len(),
        |i: int|
            if 0 <= i < cs.len() {
                comp_view(vm, cs[i])
            } else {
                SpecValue::Undefined
            },
    )
}

/// The set built by adding the values of the element registers in order.
pub open spec fn set_create_fold(vm: RegoVM, es: Seq<u8>, i: nat) -> Seq<SpecValue>
    decreases i,
{
    if i == 0 {
        Seq::<SpecValue>::empty()
    } else {
        set_with(set_create_fold(vm, es, (i - 1) as nat), view_of(vm.registers@[es[i - 1] as int]))
    }
}

/// The object built by applying the literal-keyed updates in order:
/// each valid literal index binds its key to the value register's
/// content; an out-of-range literal index is skipped.
pub open spec fn obj_create_literal_fold(
    p: Program,
    regs: Seq<Value>,
    pairs: Seq<(u16, u8)>,
    i: nat,
    acc: SpecValue,
) -> SpecValue
    decreases pairs.len() - i,
{
    if i < pairs.len() {
        let lidx = pairs[i as int].0;
        let vreg = pairs[i as int].1;
        let acc2 = if (lidx as int) < p.literals@.len() && acc is Obj {
            SpecValue::Obj(
                obj_updated(
                    acc->Obj_0,
                    view_of(p.literals@[lidx as int]),
                    view_of(regs[vreg as int]),
                ),
            )
        } else {
            acc
        };
        obj_create_literal_fold(p, regs, pairs, i + 1, acc2)
    } else {
        acc
    }
}

/// The object after binding the register key/value pairs in order; the
/// last write to a key wins.
pub open spec fn obj_create_field_fold(
    regs: Seq<Value>,
    pairs: Seq<(u8, u8)>,
    i: nat,
    acc: SpecValue,
) -> SpecValue
    decreases pairs.len() - i,
{
    if i < pairs.len() {
        let acc2 = if acc is Obj {
            SpecValue::Obj(
                obj_updated(
                    acc->Obj_0,
                    view_of(regs[pairs[i as int].0 as int]),
                    view_of(regs[pairs[i as int].1 as int]),
                ),
            )
        } else {
            acc
        };
        obj_create_field_fold(regs, pairs, i + 1, acc2)
    } else {
        acc
    }
}

/// How a run of the dispatcher can end, in the fragment of the
/// instruction set that [`pure_run`] models: a finished run carries the
/// returned value; a failed one raised the body-failure condition
/// outside any loop.
pub enum PureOutcome {
    Finished(SpecValue),
    Failed,
}

/// A spec-level interpreter for the dispatcher's register-only
/// fragment, fueled by the instruction budget: loads, moves, the
/// undefined-operand routing of arithmetic and comparisons, the assert
/// instructions, and the terminals. `None` means the run leaves the
/// modeled fragment (another instruction kind, an error case, or an
/// exhausted budget); the dispatcher's contract promises nothing there
/// and everything where the model decides.
pub open spec fn pure_run(
    p: Program,
    data: SpecValue,
    input: SpecValue,
    regs: Seq<SpecValue>,
    pc: int,
    fuel: nat,
) -> Option<PureOutcome>
    decreases fuel,
{
    if pc < 0 || pc >= p.instructions@.len() {
        if regs.len() > 0 {
            Some(PureOutcome::Finished(regs[0]))
        } else {
            None
        }
    } else if fuel == 0 {
        None
    } else {
        match p.instructions@[pc] {
            Instruction::Load { dest, literal_idx } => {
                if (literal_idx as int) < p.literals@.len() && (dest as int) < regs.len() {
                    pure_run(
                        p,
                        data,
                        input,
                        regs.update(dest as int, view_of(p.literals@[literal_idx as int])),
                        pc + 1,
                        (fuel - 1) as nat,
                    )
                } else {
                    None
                }
            },
            Instruction::LoadTrue { dest } => {
                if (dest as int) < regs.len() {
                    pure_run(
                        p,
                        data,
                        input,
                        regs.update(dest as int, SpecValue::Bool(true)),
                        pc + 1,
                        (fuel - 1) as nat,
                    )
                } else {
                    None
                }
            },
            Instruction::LoadFalse { dest } => {
                if (dest as int) < regs.len() {
                    pure_run(
                        p,
                        data,
                        input,
                        regs.update(dest as int, SpecValue::Bool(false)),
                        pc + 1,
                        (fuel - 1) as nat,
                    )
                } else {
                    None
                }
            },
            Instruction::LoadNull { dest } => {
                if (dest as int) < regs.len() {
                    pure_run(
                        p,
                        data,
                        input,
                        regs.update(dest as int, SpecValue::Null),
                        pc + 1,
                        (fuel - 1) as nat,
                    )
                } else {
                    None
                }
            },
            Instruction::LoadBool { dest, value } => {
                if (dest as int) < regs.len() {
                    pure_run(
                        p,
                        data,
                        input,
                        regs.update(dest as int, SpecValue::Bool(value)),
                        pc + 1,
                        (fuel - 1) as nat,
                    )
                } else {
                    None
                }
            },
            Instruction::LoadData { dest } => {
                if (dest as int) < regs.len() {
                    pure_run(p, data, input, regs.update(dest as int, data), pc + 1, (fuel - 1) as nat)
                } else {
                    None
                }
            },
            Instruction::LoadInput { dest } => {
                if (dest as int) < regs.len() {
                    pure_run(p, data, input, regs.update(dest as int, input), pc + 1, (fuel - 1) as nat)
                } else {
                    None
                }
            },
            Instruction::Move { dest, src } => {
                if (src as int) < regs.len() && (dest as int) < regs.len() {
                    pure_run(
                        p,
                        data,
                        input,
                        regs.update(dest as int, regs[src as int]),
                        pc + 1,
                        (fuel - 1) as nat,
                    )
                } else {
                    None
                }
            },
            Instruction::Add { dest, left, right } => {
                if (left as int) < regs.len() && (right as int) < regs.len() {
                    if regs[left as int] is Undefined || regs[right as int] is Undefined {
                        Some(PureOutcome::Failed)
                    } else if regs[left as int] is Num && regs[right as int] is Num {
                        match pure_sum_step(
                            regs,
                            dest,
                            regs[left as int]->n * regs[right as int]->d + regs[right as int]->n * regs[left as int]->d,
                            regs[left as int]->d * regs[right as int]->d,
                        ) {
                            CmpStep::Step(r2) => pure_run(p, data, input, r2, pc + 1, (fuel - 1) as nat),
                            _ => None,
                        }
                    } else {
                        None
                    }
                } else {
                    None
                }
            },
            Instruction::Sub { dest, left, right } => {
                if (left as int) < regs.len() && (right as int) < regs.len() {
                    if regs[left as int] is Undefined || regs[right as int] is Undefined {
                        Some(PureOutcome::Failed)
                    } else if regs[left as int] is Num && regs[right as int] is Num {
                        match pure_sum_step(
                            regs,
                            dest,
                            regs[left as int]->n * regs[right as int]->d - regs[right as int]->n * regs[left as int]->d,
                            regs[left as int]->d * regs[right as int]->d,
                        ) {
                            CmpStep::Step(r2) => pure_run(p, data, input, r2, pc + 1, (fuel - 1) as nat),
                            _ => None,
                        }
                    } else {
                        None
                    }
                } else {
                    None
                }
            },
            Instruction::Mul { dest, left, right } => {
                if (left as int) < regs.len() && (right as int) < regs.len() {
                    if regs[left as int] is Undefined || regs[right as int] is Undefined {
                        Some(PureOutcome::Failed)
                    } else if regs[left as int] is Num && regs[right as int] is Num {
                        match pure_sum_step(
                            regs,
                            dest,
                            regs[left as int]->n * regs[right as int]->n,
                            regs[left as int]->d * regs[right as int]->d,
                        ) {
                            CmpStep::Step(r2) => pure_run(p, data, input, r2, pc + 1, (fuel - 1) as nat),
                            _ => None,
                        }
                    } else {
                        None
                    }
                } else {
                    None
                }
            },
            Instruction::Div { dest, left, right } => {
                if (left as int) < regs.len() && (right as int) < regs.len() {
                    if regs[left as int] is Undefined || regs[right as int] is Undefined {
                        Some(PureOutcome::Failed)
                    } else if regs[left as int] is Num && regs[right as int] is Num
                        && regs[right as int]->n == 0 && (dest as int) < regs.len() {
                        pure_run(
                            p,
                            data,
                            input,
                            regs.update(dest as int, SpecValue::Undefined),
                            pc + 1,
                            (fuel - 1) as nat,
                        )
                    } else {
                        None
                    }
                } else {
                    None
                }
            },
            Instruction::Mod { dest, left, right } => {
                if (left as int) < regs.len() && (right as int) < regs.len() {
                    if regs[left as int] is Undefined || regs[right as int] is Undefined {
                        Some(PureOutcome::Failed)
                    } else if regs[left as int] is Num && regs[right as int] is Num
                        && regs[right as int]->n == 0 && (dest as int) < regs.len() {
                        pure_run(
                            p,
                            data,
                            input,
                            regs.update(dest as int, SpecValue::Undefined),
                            pc + 1,
                            (fuel - 1) as nat,
                        )
                    } else {
                        None
                    }
                } else {
                    None
                }
            },
            Instruction::Eq { dest, left, right } => match pure_cmp(regs, dest, left, right, 0) {
                CmpStep::Leave => None,
                CmpStep::FailBody => Some(PureOutcome::Failed),
                CmpStep::Step(r2) => pure_run(p, data, input, r2, pc + 1, (fuel - 1) as nat),
            },
            Instruction::Ne { dest, left, right } => match pure_cmp(regs, dest, left, right, 1) {
                CmpStep::Leave => None,
                CmpStep::FailBody => Some(PureOutcome::Failed),
                CmpStep::Step(r2) => pure_run(p, data, input, r2, pc + 1, (fuel - 1) as nat),
            },
            Instruction::Lt { dest, left, right } => match pure_cmp(regs, dest, left, right, 2) {
                CmpStep::Leave => None,
                CmpStep::FailBody => Some(PureOutcome::Failed),
                CmpStep::Step(r2) => pure_run(p, data, input, r2, pc + 1, (fuel - 1) as nat),
            },
            Instruction::Le { dest, left, right } => match pure_cmp(regs, dest, left, right, 3) {
                CmpStep::Leave => None,
                CmpStep::FailBody => Some(PureOutcome::Failed),
                CmpStep::Step(r2) => pure_run(p, data, input, r2, pc + 1, (fuel - 1) as nat),
            },
            Instruction::Gt { dest, left, right } => match pure_cmp(regs, dest, left, right, 4) {
                CmpStep::Leave => None,
                CmpStep::FailBody => Some(PureOutcome::Failed),
                CmpStep::Step(r2) => pure_run(p, data, input, r2, pc + 1, (fuel - 1) as nat),
            },
            Instruction::Ge { dest, left, right } => match pure_cmp(regs, dest, left, right, 5) {
                CmpStep::Leave => None,
                CmpStep::FailBody => Some(PureOutcome::Failed),
                CmpStep::Step(r2) => pure_run(p, data, input, r2, pc + 1, (fuel - 1) as nat),
            },
            Instruction::AssertCondition { condition } => {
                if (condition as int) < regs.len() {
                    if truthy(regs[condition as int]) {
                        pure_run(p, data, input, regs, pc + 1, (fuel - 1) as nat)
                    } else {
                        Some(PureOutcome::Failed)
                    }
                } else {
                    None
                }
            },
            Instruction::AssertNotUndefined { register } => {
                if (register as int) < regs.len() {
                    if !(regs[register as int] is Undefined) {
                        pure_run(p, data, input, regs, pc + 1, (fuel - 1) as nat)
                    } else {
                        Some(PureOutcome::Failed)
                    }
                } else {
                    None
                }
            },
            Instruction::And { dest, left, right } => {
                if (left as int) < regs.len() && (right as int) < regs.len() && (dest as int)
                    < regs.len() {
                    pure_run(
                        p,
                        data,
                        input,
                        regs.update(
                            dest as int,
                            SpecValue::Bool(truthy(regs[left as int]) && truthy(regs[right as int])),
                        ),
                        pc + 1,
                        (fuel - 1) as nat,
                    )
                } else {
                    None
                }
            },
            Instruction::Or { dest, left, right } => {
                if (left as int) < regs.len() && (right as int) < regs.len() && (dest as int)
                    < regs.len() {
                    pure_run(
                        p,
                        data,
                        input,
                        regs.update(
                            dest as int,
                            SpecValue::Bool(truthy(regs[left as int]) || truthy(regs[right as int])),
                        ),
                        pc + 1,
                        (fuel - 1) as nat,
                    )
                } else {
                    None
                }
            },
            Instruction::Not { dest, operand } => {
                if (operand as int) < regs.len() && (dest as int) < regs.len() {
                    pure_run(
                        p,
                        data,
                        input,
                        regs.update(dest as int, SpecValue::Bool(!truthy(regs[operand as int]))),
                        pc + 1,
                        (fuel - 1) as nat,
                    )
                } else {
                    None
                }
            },
            Instruction::Index { dest, container, key } => {
                if (container as int) < regs.len() && (key as int) < regs.len() && (dest as int)
                    < regs.len() {
                    pure_run(
                        p,
                        data,
                        input,
                        regs.update(
                            dest as int,
                            spec_index(regs[container as int], regs[key as int]),
                        ),
                        pc + 1,
                        (fuel - 1) as nat,
                    )
                } else {
                    None
                }
            },
            Instruction::IndexLiteral { dest, container, literal_idx } => {
                if (literal_idx as int) < p.literals@.len() && (container as int) < regs.len() && (
                dest as int) < regs.len() {
                    pure_run(
                        p,
                        data,
                        input,
                        regs.update(
                            dest as int,
                            spec_index(
                                regs[container as int],
                                view_of(p.literals@[literal_idx as int]),
                            ),
                        ),
                        pc + 1,
                        (fuel - 1) as nat,
                    )
                } else {
                    None
                }
            },
            Instruction::Count { dest, collection } => {
                if (collection as int) < regs.len() && (dest as int) < regs.len()
                    && !(spec_count(regs[collection as int]) matches SpecValue::Num { n, d: _ }
                    && n > i64::MAX) {
                    pure_run(
                        p,
                        data,
                        input,
                        regs.update(dest as int, spec_count(regs[collection as int])),
                        pc + 1,
                        (fuel - 1) as nat,
                    )
                } else {
                    None
                }
            },
            Instruction::Contains { dest, collection, value } => {
                if (collection as int) < regs.len() && (value as int) < regs.len() && (dest as int)
                    < regs.len() {
                    pure_run(
                        p,
                        data,
                        input,
                        regs.update(
                            dest as int,
                            SpecValue::Bool(
                                spec_contains(regs[collection as int], regs[value as int]),
                            ),
                        ),
                        pc + 1,
                        (fuel - 1) as nat,
                    )
                } else {
                    None
                }
            },
            Instruction::ArrayNew { dest } => {
                if (dest as int) < regs.len() {
                    pure_run(
                        p,
                        data,
                        input,
                        regs.update(dest as int, SpecValue::Arr(Seq::<SpecValue>::empty())),
                        pc + 1,
                        (fuel - 1) as nat,
                    )
                } else {
                    None
                }
            },
            Instruction::SetNew { dest } => {
                if (dest as int) < regs.len() {
                    pure_run(
                        p,
                        data,
                        input,
                        regs.update(dest as int, SpecValue::SetV(Seq::<SpecValue>::empty())),
                        pc + 1,
                        (fuel - 1) as nat,
                    )
                } else {
                    None
                }
            },
            Instruction::ChainedIndex { params_index } => {
                if (params_index as int) < p.instruction_data.chained_index_params@.len() {
                    let ps = p.instruction_data.chained_index_params@[params_index as int];
                    let cs = ps.path_components@;
                    if (ps.root as int) < regs.len() && (ps.dest as int) < regs.len() && (forall|
                        j: int,
                    |
                        0 <= j < cs.len() ==> (match #[trigger] cs[j] {
                            LiteralOrRegister::Literal(idx) => (idx as int) < p.literals@.len(),
                            LiteralOrRegister::Register(reg) => (reg as int) < regs.len(),
                        })) {
                        let path = Seq::new(
                            cs.len(),
                            |j: int|
                                if 0 <= j < cs.len() {
                                    match cs[j] {
                                        LiteralOrRegister::Literal(idx) => view_of(
                                            p.literals@[idx as int],
                                        ),
                                        LiteralOrRegister::Register(reg) => regs[reg as int],
                                    }
                                } else {
                                    SpecValue::Undefined
                                },
                        );
                        pure_run(
                            p,
                            data,
                            input,
                            regs.update(
                                ps.dest as int,
                                index_path(regs[ps.root as int], path, 0),
                            ),
                            pc + 1,
                            (fuel - 1) as nat,
                        )
                    } else {
                        None
                    }
                } else {
                    None
                }
            },
            Instruction::ObjectSet { obj, key, value } => {
                if (obj as int) < regs.len() && (key as int) < regs.len() && (value as int)
                    < regs.len() && regs[obj as int] is Obj {
                    pure_run(
                        p,
                        data,
                        input,
                        regs.update(
                            obj as int,
                            SpecValue::Obj(
                                obj_updated(
                                    regs[obj as int]->Obj_0,
                                    regs[key as int],
                                    regs[value as int],
                                ),
                            ),
                        ),
                        pc + 1,
                        (fuel - 1) as nat,
                    )
                } else {
                    None
                }
            },
            Instruction::ArrayPush { arr, value } => {
                if (arr as int) < regs.len() && (value as int) < regs.len() && regs[arr as int]
                    is Arr {
                    pure_run(
                        p,
                        data,
                        input,
                        regs.update(
                            arr as int,
                            SpecValue::Arr(regs[arr as int]->Arr_0.push(regs[value as int])),
                        ),
                        pc + 1,
                        (fuel - 1) as nat,
                    )
                } else {
                    None
                }
            },
            Instruction::SetAdd { dst, value } => {
                if (dst as int) < regs.len() && (value as int) < regs.len() && regs[dst as int]
                    is SetV {
                    pure_run(
                        p,
                        data,
                        input,
                        regs.update(
                            dst as int,
                            SpecValue::SetV(set_with(regs[dst as int]->SetV_0, regs[value as int])),
                        ),
                        pc + 1,
                        (fuel - 1) as nat,
                    )
                } else {
                    None
                }
            },
            Instruction::ArrayCreate { params_index } => {
                if (params_index as int) < p.instruction_data.array_create_params@.len() {
                    let ps = p.instruction_data.array_create_params@[params_index as int];
                    let es = ps.element_registers@;
                    if (ps.dest as int) < regs.len() && (forall|j: int|
                        0 <= j < es.len() ==> (#[trigger] es[j] as int) < regs.len()) {
                        let built = if exists|j: int|
                            0 <= j < es.len() && regs[#[trigger] es[j] as int] is Undefined {
                            SpecValue::Undefined
                        } else {
                            SpecValue::Arr(
                                Seq::new(
                                    es.len(),
                                    |j: int|
                                        if 0 <= j < es.len() {
                                            regs[es[j] as int]
                                        } else {
                                            SpecValue::Undefined
                                        },
                                ),
                            )
                        };
                        pure_run(
                            p,
                            data,
                            input,
                            regs.update(ps.dest as int, built),
                            pc + 1,
                            (fuel - 1) as nat,
                        )
                    } else {
                        None
                    }
                } else {
                    None
                }
            },
            Instruction::SetCreate { params_index } => {
                if (params_index as int) < p.instruction_data.set_create_params@.len() {
                    let ps = p.instruction_data.set_create_params@[params_index as int];
                    let es = ps.element_registers@;
                    if (ps.dest as int) < regs.len() && (forall|j: int|
                        0 <= j < es.len() ==> (#[trigger] es[j] as int) < regs.len()) && (exists|
                        j: int,
                    |
                        0 <= j < es.len() && regs[#[trigger] es[j] as int] is Undefined) {
                        pure_run(
                            p,
                            data,
                            input,
                            regs.update(ps.dest as int, SpecValue::Undefined),
                            pc + 1,
                            (fuel - 1) as nat,
                        )
                    } else {
                        None
                    }
                } else {
                    None
                }
            },
            Instruction::ObjectCreate { params_index } => {
                if (params_index as int) < p.instruction_data.object_create_params@.len() {
                    let ps = p.instruction_data.object_create_params@[params_index as int];
                    let lks = ps.literal_key_field_pairs@;
                    let fps = ps.field_pairs@;
                    if (ps.dest as int) < regs.len() && (forall|j: int|
                        0 <= j < lks.len() ==> (#[trigger] lks[j].1 as int) < regs.len()) && (
                    forall|j: int|
                        0 <= j < fps.len() ==> (#[trigger] fps[j].0 as int) < regs.len() && (
                        fps[j].1 as int) < regs.len()) && (ps.template_literal_idx as int)
                        < p.literals@.len() && view_of(
                        p.literals@[ps.template_literal_idx as int],
                    ) is Obj && ((exists|j: int|
                        0 <= j < lks.len() && regs[#[trigger] lks[j].1 as int] is Undefined) || (
                    exists|j: int|
                        0 <= j < fps.len() && (regs[#[trigger] fps[j].0 as int] is Undefined
                            || regs[fps[j].1 as int] is Undefined))) {
                        pure_run(
                            p,
                            data,
                            input,
                            regs.update(ps.dest as int, SpecValue::Undefined),
                            pc + 1,
                            (fuel - 1) as nat,
                        )
                    } else {
                        None
                    }
                } else {
                    None
                }
            },
            Instruction::Halt {  } => {
                if 0 < regs.len() {
                    Some(PureOutcome::Finished(regs[0]))
                } else {
                    None
                }
            },
            Instruction::Return { value } => {
                if (value as int) < regs.len() {
                    Some(PureOutcome::Finished(regs[value as int]))
                } else {
                    None
                }
            },
            _ => None,
        }
    }
}

/// An exact arithmetic step in the modeled fragment: when the
/// cross-multiplied result is representable, the destination receives
/// its canonical reduced form; otherwise the run leaves the fragment.
pub open spec fn pure_sum_step(regs: Seq<SpecValue>, dest: u8, n: int, d: int) -> CmpStep {
    if i64::MIN <= n <= i64::MAX && d <= u64::MAX && (dest as int) < regs.len() {
        CmpStep::Step(
            regs.update(
                dest as int,
                ({
                    let rp = crate::number::reduced_of(n, d);
                    SpecValue::Num { n: rp.0, d: rp.1 }
                }),
            ),
        )
    } else {
        CmpStep::Leave
    }
}

/// What a comparison instruction does next in the modeled fragment.
pub enum CmpStep {
    Leave,
    FailBody,
    Step(Seq<SpecValue>),
}

/// The boolean a comparison instruction writes, by relation: equal, not
/// equal, below, at most, above, at least.
pub open spec fn cmp_rel_holds(rel: int, c: int) -> bool {
    if rel == 0 {
        c == 0
    } else if rel == 1 {
        c != 0
    } else if rel == 2 {
        c < 0
    } else if rel == 3 {
        c <= 0
    } else if rel == 4 {
        c > 0
    } else {
        c >= 0
    }
}

/// A comparison instruction in the modeled fragment: an `Undefined`
/// operand fails the body; defined operands write the relation over the
/// total order and continue.
pub open spec fn pure_cmp(
    regs: Seq<SpecValue>,
    dest: u8,
    left: u8,
    right: u8,
    rel: int,
) -> CmpStep {
    if (left as int) < regs.len() && (right as int) < regs.len() {
        if regs[left as int] is Undefined || regs[right as int] is Undefined {
            CmpStep::FailBody
        } else if (dest as int) < regs.len() {
            CmpStep::Step(
                regs.update(
                    dest as int,
                    SpecValue::Bool(
                        cmp_rel_holds(rel, cmp_vals(regs[left as int], regs[right as int])),
                    ),
                ),
            )
        } else {
            CmpStep::Leave
        }
    } else {
        CmpStep::Leave
    }
}

/// A value-level register update views as a view-level update.
pub proof fn lemma_seq_view_update(regs: Seq<Value>, i: int, v: Value)
    requires
        0 <= i < regs.len(),
    ensures
        seq_view(regs.update(i, v)) =~= seq_view(regs).update(i, view_of(v)),
{
}

/// A fresh vector of values with the same views.
fn copy_values(v: &Vec<Value>) -> (r: Vec<Value>)
    requires
        vals_wf(v@),
    ensures
        r@.len() == v@.len(),
        forall|i: int| 0 <= i < v@.len() ==> view_of(#[trigger] r@[i]) == view_of(v@[i]),
        vals_wf(r@),
{
    let mut r: Vec<Value> = Vec::new();
    let n = v.len();
    let mut i: usize = 0;
    while i < n
        invariant
            i <= n,
            n == v@.len(),
            vals_wf(v@),
            r@.len() == i,
            forall|j: int| 0 <= j < i ==> view_of(#[trigger] r@[j]) == view_of(v@[j]),
        decreases n - i,
    {
        proof {
            assert(wf_val(view_of(v@[i as int])));
        }
        r.push(clone_value(&v[i]));
        i = i + 1;
    }
    proof {
        assert forall|j: int| 0 <= j < r@.len() implies wf_val(view_of(#[trigger] r@[j])) by {
            assert(view_of(r@[j]) == view_of(v@[j]));
            assert(wf_val(view_of(v@[j])));
        }
    }
    r
}

impl RegoVM {
    /// Walk a rule-tree node, evaluating the rule at each leaf and
    /// binding its defined result into the accumulator at the leaf's
    /// relative path. Results are memoised per full path in the
    /// evaluation cache.
    fn traverse_rule_tree_subobject<H: BuiltinHost>(
        &mut self,
        host: &mut H,
        node: &Value,
        acc: Value,
        root_path: &Vec<Value>,
        rel_path: Vec<Value>,
    ) -> (r: Result<Value, VmError>)
        requires
            old(self).wf(),
            wf_val(node@),
            wf_val(acc@),
            vals_wf(root_path@),
            vals_wf(rel_path@),
        ensures
            final(self).wf(),
            r matches Err(e) ==> !(e is InstructionLimitExceeded) && !(e
                is InvalidEntryPointIndex) && !(e is EntryPointNotFound),
            evolves(*old(self), *final(self)),
            cache_monotone(*old(self), *final(self)),
            budget_capped(*old(self), *final(self)),
            config_fixed(*old(self), *final(self)),
            final(self).register_stack@ == old(self).register_stack@,
            r matches Ok(v) ==> wf_val(v@),
            r is Ok ==> final(self).pc == old(self).pc,
            ({
                // a rule leaf whose full path is already memoised binds the
                // cached result at the leaf's relative path, without
                // touching the machine's documents or caches
                let fullv = seq_view(root_path@) + seq_view(rel_path@);
                let cached = spec_index(
                    index_path(old(self).evaluated@, fullv, 0),
                    SpecValue::Undefined,
                );
                (node@ is Num && !(cached is Undefined)) ==> (match nested_updated(
                    acc@,
                    seq_view(rel_path@),
                    0,
                    cached,
                ) {
                    Option::Some(o) => r matches Ok(v) && v@ == o && *final(self) == (RegoVM {
                        cache_hits: final(self).cache_hits,
                        ..*old(self)
                    }) && final(self).cache_hits as int == (if old(self).cache_hits
                        < usize::MAX {
                        old(self).cache_hits + 1
                    } else {
                        old(self).cache_hits as int
                    }),
                    Option::None => r matches Err(e) && e is InvalidRuleTreeEntry,
                })
            }),
            (!(node@ is Num) && !(node@ is Obj)) ==> (r matches Err(e)
                && e is InvalidRuleTreeEntry && *final(self) == *old(self)),
        decreases budget(*old(self)), 5int, *node,
    {
        match node {
            Value::Num(m) => {
                let mut full: Vec<Value> = copy_values(root_path);
                let rel2 = copy_values(&rel_path);
                let mut k: usize = 0;
                let nrel = rel_path.len();
                while k < nrel
                    invariant
                        k <= nrel,
                        nrel == rel_path@.len(),
                        vals_wf(rel_path@),
                        vals_wf(full@),
                        full@.len() == root_path@.len() + k,
                        forall|j: int|
                            0 <= j < root_path@.len() ==> view_of(#[trigger] full@[j]) == view_of(
                                root_path@[j],
                            ),
                        forall|j: int|
                            root_path@.len() <= j < full@.len() ==> view_of(#[trigger] full@[j])
                                == view_of(rel_path@[j - root_path@.len()]),
                    decreases nrel - k,
                {
                    proof {
                        assert(wf_val(view_of(rel_path@[k as int])));
                    }
                    let ghost f0 = full@;
                    full.push(clone_value(&rel_path[k]));
                    proof {
                        assert forall|j: int| 0 <= j < full@.len() implies wf_val(
                            view_of(#[trigger] full@[j]),
                        ) by {
                            if j < f0.len() {
                                assert(full@[j] == f0[j]);
                            }
                        }
                        assert forall|j: int|
                            0 <= j < root_path@.len() implies view_of(#[trigger] full@[j])
                            == view_of(root_path@[j]) by {
                            assert(full@[j] == f0[j]);
                        }
                        assert forall|j: int|
                            root_path@.len() <= j < full@.len() implies view_of(
                            #[trigger] full@[j],
                        ) == view_of(rel_path@[j - root_path@.len()]) by {
                            if j < f0.len() {
                                assert(full@[j] == f0[j]);
                            }
                        }
                    }
                    k = k + 1;
                }
                // cache lookup: walk the evaluation cache along the path,
                // then under the terminal Undefined key
                let ghost fullv = seq_view(root_path@) + seq_view(rel_path@);
                proof {
                    assert(seq_view(full@) =~= fullv);
                }
                let mut cur = clone_value(&self.evaluated);
                let nf = full.len();
                let mut ci: usize = 0;
                while ci < nf
                    invariant
                        ci <= nf,
                        nf == full@.len(),
                        vals_wf(full@),
                        wf_val(cur@),
                        self.wf(),
                        *self == *old(self),
                        fullv == seq_view(full@),
                        index_path(old(self).evaluated@, fullv, 0) == index_path(
                            cur@,
                            fullv,
                            ci as nat,
                        ),
                    decreases nf - ci,
                {
                    proof {
                        assert(wf_val(view_of(full@[ci as int])));
                        assert(fullv[ci as int] == view_of(full@[ci as int]));
                    }
                    cur = value_index(&cur, &full[ci]);
                    ci = ci + 1;
                }
                let cached = value_index(&cur, &Value::Undefined);
                proof {
                    assert(cached@ == spec_index(
                        index_path(old(self).evaluated@, fullv, 0),
                        SpecValue::Undefined,
                    ));
                    assert(seq_view(rel2@) =~= seq_view(rel_path@));
                }
                let result: Value = if !is_undefined(&cached) {
                    if self.cache_hits < usize::MAX {
                        self.cache_hits = self.cache_hits + 1;
                    }
                    cached
                } else {
                    // evaluate the rule into a temporary register
                    if !m.is_integer() {
                        return Err(VmError::InvalidRuleIndex { rule_index: clone_value(node) });
                    }
                    let iv = crate::number::exact_int_value(m);
                    if iv < 0 || iv > u16::MAX as i128 {
                        return Err(VmError::InvalidRuleIndex { rule_index: clone_value(node) });
                    }
                    let ri = iv as u16;
                    if self.registers.len() >= u8::MAX as usize {
                        return Err(VmError::Internal("register window exhausted".to_owned()));
                    }
                    let temp = self.registers.len() as u8;
                    self.registers.push(Value::Undefined);
                    proof {
                        assert forall|j: int| 0 <= j < self.registers@.len() implies wf_val(
                            view_of(#[trigger] self.registers@[j]),
                        ) by {
                            if j < self.registers@.len() - 1 {
                                assert(self.registers@[j] == old(self).registers@[j]);
                            }
                        }
                    }
                    self.execute_call_rule_common(host, temp, ri, None)?;
                    let out = match self.registers.pop() {
                        Some(v) => v,
                        None => {
                            return Err(VmError::Internal("register window exhausted".to_owned()));
                        },
                    };
                    proof {
                        assert(wf_val(view_of(out)));
                    }
                    // memoise under full path + terminal Undefined key
                    let mut cache_path = full;
                    cache_path.push(Value::Undefined);
                    proof {
                        assert forall|j: int| 0 <= j < cache_path@.len() implies wf_val(
                            view_of(#[trigger] cache_path@[j]),
                        ) by {
                            assert(j < cache_path@.len() - 1 || cache_path@[j] == Value::Undefined);
                        }
                    }
                    let stored = clone_value(&out);
                    let mut ev = Value::Undefined;
                    core::mem::swap(&mut ev, &mut self.evaluated);
                    let ev2 = set_nested_value(ev, &cache_path, 0, stored)?;
                    self.evaluated = ev2;
                    out
                };
                if is_undefined(&result) {
                    // a failed rule contributes no key to the subobject
                    return Ok(acc);
                }
                let acc2 = set_nested_value(acc, &rel2, 0, result)?;
                Ok(acc2)
            },
            Value::Obj(entries) => {
                proof {
                    crate::value::lemma_wf_obj(kvs_view(entries@));
                    crate::value::lemma_kvs_view_wf(entries@);
                }
                let mut acc2 = acc;
                let n = entries.len();
                let mut i: usize = 0;
                while i < n
                    invariant
                        i <= n,
                        n == entries@.len(),
                        self.wf(),
                        evolves(*old(self), *self),
                        cache_monotone(*old(self), *self),
                        budget_capped(*old(self), *self),
                        config_fixed(*old(self), *self),
                        self.register_stack@ == old(self).register_stack@,
                        self.pc == old(self).pc,
                        wf_val(acc2@),
                        vals_wf(root_path@),
                        vals_wf(rel_path@),
                        *node == Value::Obj(*entries),
                        wf_val(node@),
                        forall|j: int|
                            0 <= j < entries@.len() ==> wf_val(view_of(#[trigger] entries@[j].0))
                                && wf_val(view_of(entries@[j].1)),
                    decreases n - i,
                {
                    let key = clone_value(&entries[i].0);
                    let mut rp = copy_values(&rel_path);
                    let ghost rp0 = rp@;
                    rp.push(key);
                    proof {
                        assert forall|j: int| 0 <= j < rp@.len() implies wf_val(
                            view_of(#[trigger] rp@[j]),
                        ) by {
                            if j < rp0.len() {
                                assert(rp@[j] == rp0[j]);
                            }
                        }
                        assert(decreases_to!(*node => *entries));
                        assert(decreases_to!(*entries => entries@[i as int]));
                        assert(decreases_to!(entries@[i as int] => entries@[i as int].1));
                    }
                    acc2 = self.traverse_rule_tree_subobject(host, &entries[i].1, acc2, root_path, rp)?;
                    i = i + 1;
                }
                Ok(acc2)
            },
            _ => Err(VmError::InvalidRuleTreeEntry { value: clone_value(node) }),
        }
    }

    /// Materialise the subobject for a virtual lookup that stops at an
    /// interior rule-tree node: start from the data subdocument at the
    /// same path (an empty object when undefined) and bind every rule
    /// result below the node.
    fn execute_virtual_data_document_lookup_subobject<H: BuiltinHost>(
        &mut self,
        host: &mut H,
        path_values: Vec<Value>,
        node: &Value,
    ) -> (r: Result<Value, VmError>)
        requires
            old(self).wf(),
            vals_wf(path_values@),
            wf_val(node@),
        ensures
            final(self).wf(),
            r matches Err(e) ==> !(e is InstructionLimitExceeded) && !(e
                is InvalidEntryPointIndex) && !(e is EntryPointNotFound),
            evolves(*old(self), *final(self)),
            cache_monotone(*old(self), *final(self)),
            budget_capped(*old(self), *final(self)),
            config_fixed(*old(self), *final(self)),
            final(self).register_stack@ == old(self).register_stack@,
            r matches Ok(v) ==> wf_val(v@),
            r is Ok ==> final(self).pc == old(self).pc,
        decreases budget(*old(self)), 6int, Value::Null,
    {
        let mut sub = clone_value(&self.data);
        let n = path_values.len();
        let mut i: usize = 0;
        while i < n
            invariant
                i <= n,
                n == path_values@.len(),
                vals_wf(path_values@),
                wf_val(sub@),
                self.wf(),
                *self == *old(self),
            decreases n - i,
        {
            proof {
                assert(wf_val(view_of(path_values@[i as int])));
            }
            sub = value_index(&sub, &path_values[i]);
            i = i + 1;
        }
        let start = if is_undefined(&sub) {
            Value::new_object()
        } else {
            sub
        };
        self.traverse_rule_tree_subobject(host, node, start, &path_values, Vec::new())
    }

    /// `VirtualDataDocumentLookup`: walk the rule tree from its `data`
    /// child along the path. A leaf calls the rule (applying leftover
    /// components to its result); a miss applies the whole path to the
    /// data document; an interior node with the path fully consumed
    /// materialises the subobject.
    #[verifier::rlimit(60)]
    fn execute_virtual_data_document_lookup<H: BuiltinHost>(
        &mut self,
        host: &mut H,
        params_index: u16,
    ) -> (r: Result<(), VmError>)
        requires
            old(self).wf(),
        ensures
            final(self).wf(),
            r matches Err(e) ==> !(e is InstructionLimitExceeded) && !(e
                is InvalidEntryPointIndex) && !(e is EntryPointNotFound),
            evolves(*old(self), *final(self)),
            cache_monotone(*old(self), *final(self)),
            budget_capped(*old(self), *final(self)),
            config_fixed(*old(self), *final(self)),
            final(self).register_stack@ == old(self).register_stack@,
            r is Ok ==> final(self).pc == old(self).pc,
            ({
                // a path that leaves the rule tree before it is consumed is
                // applied, whole, to the data document
                ((params_index as int) < old(
                    self,
                ).program.instruction_data.virtual_data_document_lookup_params@.len() && r is Ok)
                    ==> ({
                    let ps = old(
                        self,
                    ).program.instruction_data.virtual_data_document_lookup_params@[params_index as int];
                    let path = comps_views(*old(self), ps.path_components@);
                    let start = spec_index(old(self).program.rule_tree@, SpecValue::Text("data"@));
                    let w = walk_nodes(start, path, 0);
                    ((w.0 is Undefined || w.0 is Obj) && w.1 < path.len()) ==> ({
                        &&& (ps.dest as int) < old(self).registers@.len()
                        &&& final(self).registers@.len() == old(self).registers@.len()
                        &&& view_of(final(self).registers@[ps.dest as int]) == index_path(
                            old(self).data@,
                            path,
                            0,
                        )
                        &&& (forall|j: int|
                            0 <= j < final(self).registers@.len() && j != ps.dest as int
                                ==> final(self).registers@[j] == old(self).registers@[j])
                    })
                })
            }),
        decreases budget(*old(self)), 7int, Value::Null,
    {
        if (params_index as usize)
            >= self.program.instruction_data.virtual_data_document_lookup_params.len() {
            return Err(VmError::InvalidVirtualDataDocumentLookupParams { index: params_index });
        }
        let dest =
            self.program.instruction_data.virtual_data_document_lookup_params[params_index as usize].dest;
        let comps = copy_lors(
            &self.program.instruction_data.virtual_data_document_lookup_params[params_index as usize].path_components,
        );
        proof {
            reveal_strlit("data");
        }
        let data_key = Value::Text("data".to_owned());
        let mut node = value_index(&self.program.rule_tree, &data_key);
        let ghost path = comps_views(*old(self), comps@);
        let ghost start_node = spec_index(
            old(self).program.rule_tree@,
            SpecValue::Text("data"@),
        );
        let n = comps.len();
        let mut consumed: usize = 0;
        let mut stop = false;
        proof {
            assert(node@ == start_node);
        }
        while consumed < n && !stop
            invariant
                consumed <= n,
                n == comps@.len(),
                self.wf(),
                *self == *old(self),
                wf_val(node@),
                path == comps_views(*old(self), comps@),
                path.len() == n,
                (params_index as int) < old(
                    self,
                ).program.instruction_data.virtual_data_document_lookup_params@.len(),
                comps@ == old(
                    self,
                ).program.instruction_data.virtual_data_document_lookup_params@[params_index as int].path_components@,
                dest == old(
                    self,
                ).program.instruction_data.virtual_data_document_lookup_params@[params_index as int].dest,
                start_node == spec_index(old(self).program.rule_tree@, SpecValue::Text("data"@)),
                walk_nodes(start_node, path, 0) == (if stop {
                    (node@, consumed as nat)
                } else {
                    walk_nodes(node@, path, consumed as nat)
                }),
            decreases n - consumed,
        {
            let key = self.resolve_component(comps[consumed])?;
            proof {
                assert(path[consumed as int] == comp_view(*old(self), comps@[consumed as int]));
                assert(key@ == path[consumed as int]);
            }
            node = value_index(&node, &key);
            consumed = consumed + 1;
            match &node {
                Value::Undefined => {
                    stop = true;
                },
                Value::Num(_) => {
                    stop = true;
                },
                _ => {},
            }
        }
        let ghost w = walk_nodes(start_node, path, 0);
        proof {
            assert(w == (node@, consumed as nat));
        }
        if is_undefined(&node) && consumed >= n {
            // the walk consumed the whole path and left the rule tree
            return Err(VmError::InvalidRuleTreeEntry { value: clone_value(&node) });
        }
        match &node {
            Value::Num(m) => {
                if !m.is_integer() {
                    return Err(VmError::InvalidRuleIndex { rule_index: clone_value(&node) });
                }
                let iv = crate::number::exact_int_value(m);
                if iv < 0 || iv > u16::MAX as i128 {
                    return Err(VmError::InvalidRuleIndex { rule_index: clone_value(&node) });
                }
                let ri = iv as u16;
                self.execute_call_rule_common(host, dest, ri, None)?;
                if consumed < n {
                    let mut rule_result = reg_read(&self.registers, dest)?;
                    let mut i2: usize = consumed;
                    while i2 < n
                        invariant
                            i2 <= n,
                            n == comps@.len(),
                            self.wf(),
                            evolves(*old(self), *self),
                            cache_monotone(*old(self), *self),
                            budget_capped(*old(self), *self),
                            config_fixed(*old(self), *self),
                            self.register_stack@ == old(self).register_stack@,
                            self.pc == old(self).pc,
                            wf_val(rule_result@),
                        decreases n - i2,
                    {
                        let key = self.resolve_component(comps[i2])?;
                        rule_result = value_index(&rule_result, &key);
                        i2 = i2 + 1;
                    }
                    reg_write(&mut self.registers, dest, rule_result)?;
                }
                Ok(())
            },
            Value::Obj(_) if consumed == n => {
                let mut path_values: Vec<Value> = Vec::new();
                let mut i3: usize = 0;
                while i3 < n
                    invariant
                        i3 <= n,
                        n == comps@.len(),
                        self.wf(),
                        *self == *old(self),
                        vals_wf(path_values@),
                    decreases n - i3,
                {
                    let key = self.resolve_component(comps[i3])?;
                    let ghost p0 = path_values@;
                    path_values.push(key);
                    proof {
                        assert forall|j: int| 0 <= j < path_values@.len() implies wf_val(
                            view_of(#[trigger] path_values@[j]),
                        ) by {
                            if j < p0.len() {
                                assert(path_values@[j] == p0[j]);
                            }
                        }
                    }
                    i3 = i3 + 1;
                }
                let sub = self.execute_virtual_data_document_lookup_subobject(host, path_values, &node)?;
                reg_write(&mut self.registers, dest, sub)?;
                Ok(())
            },
            Value::Undefined | Value::Obj(_) => {
                // path not fully resolvable through the rule tree: apply
                // the whole path to the data document
                let mut result = clone_value(&self.data);
                let mut i4: usize = 0;
                while i4 < n
                    invariant
                        i4 <= n,
                        n == comps@.len(),
                        self.wf(),
                        *self == *old(self),
                        wf_val(result@),
                        path == comps_views(*old(self), comps@),
                        path.len() == n,
                        (params_index as int) < old(
                            self,
                        ).program.instruction_data.virtual_data_document_lookup_params@.len(),
                        comps@ == old(
                            self,
                        ).program.instruction_data.virtual_data_document_lookup_params@[params_index as int].path_components@,
                        dest == old(
                            self,
                        ).program.instruction_data.virtual_data_document_lookup_params@[params_index as int].dest,
                        index_path(old(self).data@, path, 0) == index_path(
                            result@,
                            path,
                            i4 as nat,
                        ),
                    decreases n - i4,
                {
                    let key = self.resolve_component(comps[i4])?;
                    proof {
                        assert(path[i4 as int] == comp_view(*old(self), comps@[i4 as int]));
                        assert(key@ == path[i4 as int]);
                    }
                    result = value_index(&result, &key);
                    i4 = i4 + 1;
                }
                reg_write(&mut self.registers, dest, result)?;
                Ok(())
            },
            _ => Err(VmError::InvalidRuleTreeEntry { value: clone_value(&node) }),
        }
    }

    /// The dispatcher: fetch, execute and advance until a terminal
    /// instruction, an error, or the instruction budget runs out.
    #[verifier::rlimit(100)]
    pub fn jump_to<H: BuiltinHost>(&mut self, host: &mut H, target: usize) -> (r: Result<
        Value,
        VmError,
    >)
        requires
            old(self).wf(),
        ensures
            final(self).wf(),
            evolves(*old(self), *final(self)),
            cache_monotone(*old(self), *final(self)),
            budget_capped(*old(self), *final(self)),
            config_fixed(*old(self), *final(self)),
            final(self).register_stack@ == old(self).register_stack@,
            r matches Ok(v) ==> wf_val(v@),
            r matches Err(e) ==> (e matches VmError::InstructionLimitExceeded { limit } ==> limit
                == old(self).max_instructions
                && final(self).spec_executed() >= final(self).spec_max_instructions()),
            r matches Err(e) ==> !(e is InvalidEntryPointIndex) && !(e is EntryPointNotFound),
            (old(self).spec_executed() >= old(self).spec_max_instructions() && target < old(
                self,
            ).program.instructions@.len()) ==> (r matches Err(e)
                && e is InstructionLimitExceeded),
            ({
                // with no loop open, the register-only fragment of the
                // instruction stream decides the run: wherever the spec
                // interpreter finishes or fails, the dispatcher agrees
                old(self).loop_stack@.len() == 0 ==> (match pure_run(
                    old(self).program,
                    old(self).data@,
                    old(self).input@,
                    seq_view(old(self).registers@),
                    target as int,
                    budget(*old(self)) as nat,
                ) {
                    Option::Some(out) => match out {
                        PureOutcome::Finished(v) => r matches Ok(x) && x@ == v,
                        PureOutcome::Failed => r matches Err(e) && e is AssertionFailed,
                    },
                    Option::None => true,
                })
            }),
            ({
                // a terminal instruction at the jump target decides the
                // result: `Halt` returns register 0, `Return` its register
                (old(self).spec_executed() < old(self).spec_max_instructions() && target < old(
                    self,
                ).program.instructions@.len()) ==> ({
                    let instr = old(self).program.instructions@[target as int];
                    &&& (instr is Halt ==> (if 0 < old(self).registers@.len() {
                        r matches Ok(v) && v@ == view_of(old(self).registers@[0])
                    } else {
                        r matches Err(e) && e is Internal
                    }))
                    &&& (instr matches Instruction::Return { value } ==> (if (value as int) < old(
                        self,
                    ).registers@.len() {
                        r matches Ok(v) && v@ == view_of(old(self).registers@[value as int])
                    } else {
                        r matches Err(e) && e is Internal
                    }))
                })
            }),
        decreases budget(*old(self)), 0int, Value::Null,
    {
        self.pc = target;
        let n_instructions = self.program.instructions.len();
        loop
            invariant
                self.wf(),
                evolves(*old(self), *self),
                cache_monotone(*old(self), *self),
                budget_capped(*old(self), *self),
                config_fixed(*old(self), *self),
                self.register_stack@ == old(self).register_stack@,
                n_instructions == self.program.instructions@.len(),
                old(self).spec_executed() >= old(self).spec_max_instructions() ==> self.pc
                    == target && self.spec_executed() == old(self).spec_executed(),
                (old(self).spec_executed() < old(self).spec_max_instructions() && target < old(
                    self,
                ).program.instructions@.len() && (old(
                    self,
                ).program.instructions@[target as int] is Halt || old(
                    self,
                ).program.instructions@[target as int] is Return)) ==> (self.pc == target
                    && self.spec_executed() == old(self).spec_executed() && self.registers == old(
                    self,
                ).registers),
                (old(self).loop_stack@.len() == 0) ==> ({
                    ||| (pure_run(
                        old(self).program,
                        old(self).data@,
                        old(self).input@,
                        seq_view(old(self).registers@),
                        target as int,
                        budget(*old(self)) as nat,
                    ) == pure_run(
                        self.program,
                        self.data@,
                        self.input@,
                        seq_view(self.registers@),
                        self.pc as int,
                        budget(*self) as nat,
                    ) && self.loop_stack@.len() == 0)
                    ||| pure_run(
                        old(self).program,
                        old(self).data@,
                        old(self).input@,
                        seq_view(old(self).registers@),
                        target as int,
                        budget(*old(self)) as nat,
                    ) is None
                }),
            ensures
                self.wf(),
                evolves(*old(self), *self),
                cache_monotone(*old(self), *self),
                budget_capped(*old(self), *self),
                config_fixed(*old(self), *self),
                self.register_stack@ == old(self).register_stack@,
                old(self).spec_executed() >= old(self).spec_max_instructions() ==> self.pc
                    == target && self.pc >= n_instructions,
                (old(self).spec_executed() < old(self).spec_max_instructions() && target < old(
                    self,
                ).program.instructions@.len() && (old(
                    self,
                ).program.instructions@[target as int] is Halt || old(
                    self,
                ).program.instructions@[target as int] is Return)) ==> self.pc
                    >= n_instructions && self.pc == target,
                (old(self).loop_stack@.len() == 0) ==> ({
                    ||| (pure_run(
                        old(self).program,
                        old(self).data@,
                        old(self).input@,
                        seq_view(old(self).registers@),
                        target as int,
                        budget(*old(self)) as nat,
                    ) == pure_run(
                        self.program,
                        self.data@,
                        self.input@,
                        seq_view(self.registers@),
                        self.pc as int,
                        budget(*self) as nat,
                    ) && self.loop_stack@.len() == 0)
                    ||| pure_run(
                        old(self).program,
                        old(self).data@,
                        old(self).input@,
                        seq_view(old(self).registers@),
                        target as int,
                        budget(*old(self)) as nat,
                    ) is None
                }),
                (old(self).loop_stack@.len() == 0) ==> ({
                    ||| pure_run(
                        old(self).program,
                        old(self).data@,
                        old(self).input@,
                        seq_view(old(self).registers@),
                        target as int,
                        budget(*old(self)) as nat,
                    ) is None
                    ||| pure_run(
                        old(self).program,
                        old(self).data@,
                        old(self).input@,
                        seq_view(old(self).registers@),
                        target as int,
                        budget(*old(self)) as nat,
                    ) == (if 0 < self.registers@.len() {
                        Some(PureOutcome::Finished(seq_view(self.registers@)[0]))
                    } else {
                        None
                    })
                }),
            decreases
                    budget(*self),
                    (if self.pc < n_instructions {
                        1int
                    } else {
                        0int
                    }),
        {
            let ghost top = *self;
            if self.pc >= n_instructions {
                break ;
            }
            if self.executed_instructions >= self.max_instructions {
                return Err(VmError::InstructionLimitExceeded { limit: self.max_instructions });
            }
            self.executed_instructions = self.executed_instructions + 1;
            let instr = self.program.instructions[self.pc];
            match instr {
                Instruction::Load { dest, literal_idx } => {
                    if (literal_idx as usize) < self.program.literals.len() {
                        proof {
                            assert(wf_val(view_of(self.program.literals@[literal_idx as int])));
                        }
                        let v = clone_value(&self.program.literals[literal_idx as usize]);
                        reg_write(&mut self.registers, dest, v)?;
                        proof {
                            lemma_seq_view_update(top.registers@, dest as int, v);
                            assert(seq_view(self.registers@) =~= seq_view(top.registers@).update(
                                dest as int,
                                view_of(top.program.literals@[literal_idx as int]),
                            ));
                        }
                    } else {
                        return Err(
                            VmError::LiteralIndexOutOfBounds { index: literal_idx as usize },
                        );
                    }
                },
                Instruction::LoadTrue { dest } => {
                    reg_write(&mut self.registers, dest, Value::Bool(true))?;
                    proof {
                        lemma_seq_view_update(top.registers@, dest as int, Value::Bool(true));
                        assert(seq_view(self.registers@) =~= seq_view(top.registers@).update(
                            dest as int,
                            SpecValue::Bool(true),
                        ));
                    }
                },
                Instruction::LoadFalse { dest } => {
                    reg_write(&mut self.registers, dest, Value::Bool(false))?;
                    proof {
                        lemma_seq_view_update(top.registers@, dest as int, Value::Bool(false));
                        assert(seq_view(self.registers@) =~= seq_view(top.registers@).update(
                            dest as int,
                            SpecValue::Bool(false),
                        ));
                    }
                },
                Instruction::LoadNull { dest } => {
                    reg_write(&mut self.registers, dest, Value::Null)?;
                    proof {
                        lemma_seq_view_update(top.registers@, dest as int, Value::Null);
                        assert(seq_view(self.registers@) =~= seq_view(top.registers@).update(
                            dest as int,
                            SpecValue::Null,
                        ));
                    }
                },
                Instruction::LoadBool { dest, value } => {
                    reg_write(&mut self.registers, dest, Value::Bool(value))?;
                    proof {
                        lemma_seq_view_update(top.registers@, dest as int, Value::Bool(value));
                        assert(seq_view(self.registers@) =~= seq_view(top.registers@).update(
                            dest as int,
                            SpecValue::Bool(value),
                        ));
                    }
                },
                Instruction::LoadData { dest } => {
                    let v = clone_value(&self.data);
                    reg_write(&mut self.registers, dest, v)?;
                    proof {
                        lemma_seq_view_update(top.registers@, dest as int, v);
                        assert(seq_view(self.registers@) =~= seq_view(top.registers@).update(
                            dest as int,
                            top.data@,
                        ));
                    }
                },
                Instruction::LoadInput { dest } => {
                    let v = clone_value(&self.input);
                    reg_write(&mut self.registers, dest, v)?;
                    proof {
                        lemma_seq_view_update(top.registers@, dest as int, v);
                        assert(seq_view(self.registers@) =~= seq_view(top.registers@).update(
                            dest as int,
                            top.input@,
                        ));
                    }
                },
                Instruction::Move { dest, src } => {
                    let v = reg_read(&self.registers, src)?;
                    reg_write(&mut self.registers, dest, v)?;
                    proof {
                        lemma_seq_view_update(top.registers@, dest as int, v);
                        assert(view_of(v) == seq_view(top.registers@)[src as int]);
                        assert(seq_view(self.registers@) =~= seq_view(top.registers@).update(
                            dest as int,
                            seq_view(top.registers@)[src as int],
                        ));
                    }
                },
                Instruction::Add { dest, left, right } => {
                    let a = reg_read(&self.registers, left)?;
                    let b = reg_read(&self.registers, right)?;
                    if is_undefined(&a) || is_undefined(&b) {
                        self.handle_condition(false)?;
                    } else {
                        let v = add_values(&a, &b)?;
                        reg_write(&mut self.registers, dest, v)?;
                        proof {
                            lemma_seq_view_update(top.registers@, dest as int, v);
                            if seq_view(top.registers@)[left as int] is Num && seq_view(
                                top.registers@,
                            )[right as int] is Num {
                                let rp = crate::number::reduced_of(
                                    seq_view(top.registers@)[left as int]->n * seq_view(top.registers@)[right as int]->d
                                    + seq_view(top.registers@)[right as int]->n * seq_view(top.registers@)[left as int]->d,
                                    seq_view(top.registers@)[left as int]->d * seq_view(
                                        top.registers@,
                                    )[right as int]->d,
                                );
                                assert(seq_view(self.registers@) =~= seq_view(
                                    top.registers@,
                                ).update(dest as int, SpecValue::Num { n: rp.0, d: rp.1 }));
                            }
                        }
                    }
                },
                Instruction::Sub { dest, left, right } => {
                    let a = reg_read(&self.registers, left)?;
                    let b = reg_read(&self.registers, right)?;
                    if is_undefined(&a) || is_undefined(&b) {
                        self.handle_condition(false)?;
                    } else {
                        let v = sub_values(&a, &b)?;
                        reg_write(&mut self.registers, dest, v)?;
                        proof {
                            lemma_seq_view_update(top.registers@, dest as int, v);
                            if seq_view(top.registers@)[left as int] is Num && seq_view(
                                top.registers@,
                            )[right as int] is Num {
                                let rp = crate::number::reduced_of(
                                    seq_view(top.registers@)[left as int]->n * seq_view(top.registers@)[right as int]->d
                                    - seq_view(top.registers@)[right as int]->n * seq_view(top.registers@)[left as int]->d,
                                    seq_view(top.registers@)[left as int]->d * seq_view(
                                        top.registers@,
                                    )[right as int]->d,
                                );
                                assert(seq_view(self.registers@) =~= seq_view(
                                    top.registers@,
                                ).update(dest as int, SpecValue::Num { n: rp.0, d: rp.1 }));
                            }
                        }
                    }
                },
                Instruction::Mul { dest, left, right } => {
                    let a = reg_read(&self.registers, left)?;
                    let b = reg_read(&self.registers, right)?;
                    if is_undefined(&a) || is_undefined(&b) {
                        self.handle_condition(false)?;
                    } else {
                        let v = mul_values(&a, &b)?;
                        reg_write(&mut self.registers, dest, v)?;
                        proof {
                            lemma_seq_view_update(top.registers@, dest as int, v);
                            if seq_view(top.registers@)[left as int] is Num && seq_view(
                                top.registers@,
                            )[right as int] is Num {
                                let rp = crate::number::reduced_of(
                                    seq_view(top.registers@)[left as int]->n * seq_view(top.registers@)[right as int]->n,
                                    seq_view(top.registers@)[left as int]->d * seq_view(
                                        top.registers@,
                                    )[right as int]->d,
                                );
                                assert(seq_view(self.registers@) =~= seq_view(
                                    top.registers@,
                                ).update(dest as int, SpecValue::Num { n: rp.0, d: rp.1 }));
                            }
                        }
                    }
                },
                Instruction::Div { dest, left, right } => {
                    let a = reg_read(&self.registers, left)?;
                    let b = reg_read(&self.registers, right)?;
                    if is_undefined(&a) || is_undefined(&b) {
                        self.handle_condition(false)?;
                    } else {
                        let v = div_values(&a, &b)?;
                        reg_write(&mut self.registers, dest, v)?;
                        proof {
                            lemma_seq_view_update(top.registers@, dest as int, v);
                            if seq_view(top.registers@)[left as int] is Num && seq_view(
                                top.registers@,
                            )[right as int] is Num && seq_view(top.registers@)[right as int]->n
                                == 0 {
                                assert(seq_view(self.registers@) =~= seq_view(
                                    top.registers@,
                                ).update(dest as int, SpecValue::Undefined));
                            }
                        }
                    }
                },
                Instruction::Mod { dest, left, right } => {
                    let a = reg_read(&self.registers, left)?;
                    let b = reg_read(&self.registers, right)?;
                    if is_undefined(&a) || is_undefined(&b) {
                        self.handle_condition(false)?;
                    } else {
                        let v = mod_values(&a, &b)?;
                        reg_write(&mut self.registers, dest, v)?;
                        proof {
                            lemma_seq_view_update(top.registers@, dest as int, v);
                            if seq_view(top.registers@)[left as int] is Num && seq_view(
                                top.registers@,
                            )[right as int] is Num && seq_view(top.registers@)[right as int]->n
                                == 0 {
                                assert(seq_view(self.registers@) =~= seq_view(
                                    top.registers@,
                                ).update(dest as int, SpecValue::Undefined));
                            }
                        }
                    }
                },
                Instruction::Eq { dest, left, right } => {
                    let a = reg_read(&self.registers, left)?;
                    let b = reg_read(&self.registers, right)?;
                    if is_undefined(&a) || is_undefined(&b) {
                        self.handle_condition(false)?;
                    } else {
                        let c = value_cmp(&a, &b);
                        let v = Value::Bool(c == 0);
                        reg_write(&mut self.registers, dest, v)?;
                        proof {
                            lemma_seq_view_update(top.registers@, dest as int, v);
                            assert(seq_view(self.registers@) =~= seq_view(top.registers@).update(
                                dest as int,
                                SpecValue::Bool(
                                    cmp_rel_holds(
                                        0,
                                        cmp_vals(
                                            seq_view(top.registers@)[left as int],
                                            seq_view(top.registers@)[right as int],
                                        ),
                                    ),
                                ),
                            ));
                        }
                    }
                },
                Instruction::Ne { dest, left, right } => {
                    let a = reg_read(&self.registers, left)?;
                    let b = reg_read(&self.registers, right)?;
                    if is_undefined(&a) || is_undefined(&b) {
                        self.handle_condition(false)?;
                    } else {
                        let c = value_cmp(&a, &b);
                        let v = Value::Bool(c != 0);
                        reg_write(&mut self.registers, dest, v)?;
                        proof {
                            lemma_seq_view_update(top.registers@, dest as int, v);
                            assert(seq_view(self.registers@) =~= seq_view(top.registers@).update(
                                dest as int,
                                SpecValue::Bool(
                                    cmp_rel_holds(
                                        1,
                                        cmp_vals(
                                            seq_view(top.registers@)[left as int],
                                            seq_view(top.registers@)[right as int],
                                        ),
                                    ),
                                ),
                            ));
                        }
                    }
                },
                Instruction::Lt { dest, left, right } => {
                    let a = reg_read(&self.registers, left)?;
                    let b = reg_read(&self.registers, right)?;
                    if is_undefined(&a) || is_undefined(&b) {
                        self.handle_condition(false)?;
                    } else {
                        let c = value_cmp(&a, &b);
                        let v = Value::Bool(c < 0);
                        reg_write(&mut self.registers, dest, v)?;
                        proof {
                            lemma_seq_view_update(top.registers@, dest as int, v);
                            assert(seq_view(self.registers@) =~= seq_view(top.registers@).update(
                                dest as int,
                                SpecValue::Bool(
                                    cmp_rel_holds(
                                        2,
                                        cmp_vals(
                                            seq_view(top.registers@)[left as int],
                                            seq_view(top.registers@)[right as int],
                                        ),
                                    ),
                                ),
                            ));
                        }
                    }
                },
                Instruction::Le { dest, left, right } => {
                    let a = reg_read(&self.registers, left)?;
                    let b = reg_read(&self.registers, right)?;
                    if is_undefined(&a) || is_undefined(&b) {
                        self.handle_condition(false)?;
                    } else {
                        let c = value_cmp(&a, &b);
                        let v = Value::Bool(c <= 0);
                        reg_write(&mut self.registers, dest, v)?;
                        proof {
                            lemma_seq_view_update(top.registers@, dest as int, v);
                            assert(seq_view(self.registers@) =~= seq_view(top.registers@).update(
                                dest as int,
                                SpecValue::Bool(
                                    cmp_rel_holds(
                                        3,
                                        cmp_vals(
                                            seq_view(top.registers@)[left as int],
                                            seq_view(top.registers@)[right as int],
                                        ),
                                    ),
                                ),
                            ));
                        }
                    }
                },
                Instruction::Gt { dest, left, right } => {
                    let a = reg_read(&self.registers, left)?;
                    let b = reg_read(&self.registers, right)?;
                    if is_undefined(&a) || is_undefined(&b) {
                        self.handle_condition(false)?;
                    } else {
                        let c = value_cmp(&a, &b);
                        let v = Value::Bool(c > 0);
                        reg_write(&mut self.registers, dest, v)?;
                        proof {
                            lemma_seq_view_update(top.registers@, dest as int, v);
                            assert(seq_view(self.registers@) =~= seq_view(top.registers@).update(
                                dest as int,
                                SpecValue::Bool(
                                    cmp_rel_holds(
                                        4,
                                        cmp_vals(
                                            seq_view(top.registers@)[left as int],
                                            seq_view(top.registers@)[right as int],
                                        ),
                                    ),
                                ),
                            ));
                        }
                    }
                },
                Instruction::Ge { dest, left, right } => {
                    let a = reg_read(&self.registers, left)?;
                    let b = reg_read(&self.registers, right)?;
                    if is_undefined(&a) || is_undefined(&b) {
                        self.handle_condition(false)?;
                    } else {
                        let c = value_cmp(&a, &b);
                        let v = Value::Bool(c >= 0);
                        reg_write(&mut self.registers, dest, v)?;
                        proof {
                            lemma_seq_view_update(top.registers@, dest as int, v);
                            assert(seq_view(self.registers@) =~= seq_view(top.registers@).update(
                                dest as int,
                                SpecValue::Bool(
                                    cmp_rel_holds(
                                        5,
                                        cmp_vals(
                                            seq_view(top.registers@)[left as int],
                                            seq_view(top.registers@)[right as int],
                                        ),
                                    ),
                                ),
                            ));
                        }
                    }
                },
                Instruction::And { dest, left, right } => {
                    let a = reg_read(&self.registers, left)?;
                    let b = reg_read(&self.registers, right)?;
                    let v = Value::Bool(to_bool_value(&a) && to_bool_value(&b));
                    reg_write(&mut self.registers, dest, v)?;
                    proof {
                        lemma_seq_view_update(top.registers@, dest as int, v);
                        assert(seq_view(self.registers@) =~= seq_view(top.registers@).update(
                            dest as int,
                            SpecValue::Bool(truthy(seq_view(top.registers@)[left as int]) && truthy(
                                seq_view(top.registers@)[right as int],
                            )),
                        ));
                    }
                },
                Instruction::Or { dest, left, right } => {
                    let a = reg_read(&self.registers, left)?;
                    let b = reg_read(&self.registers, right)?;
                    let v = Value::Bool(to_bool_value(&a) || to_bool_value(&b));
                    reg_write(&mut self.registers, dest, v)?;
                    proof {
                        lemma_seq_view_update(top.registers@, dest as int, v);
                        assert(seq_view(self.registers@) =~= seq_view(top.registers@).update(
                            dest as int,
                            SpecValue::Bool(truthy(seq_view(top.registers@)[left as int]) || truthy(
                                seq_view(top.registers@)[right as int],
                            )),
                        ));
                    }
                },
                Instruction::Not { dest, operand } => {
                    let a = reg_read(&self.registers, operand)?;
                    let v = Value::Bool(!to_bool_value(&a));
                    reg_write(&mut self.registers, dest, v)?;
                    proof {
                        lemma_seq_view_update(top.registers@, dest as int, v);
                        assert(seq_view(self.registers@) =~= seq_view(top.registers@).update(
                            dest as int,
                            SpecValue::Bool(!truthy(seq_view(top.registers@)[operand as int])),
                        ));
                    }
                },
                Instruction::BuiltinCall { params_index } => {
                    self.execute_builtin_call(host, params_index)?;
                },
                Instruction::FunctionCall { params_index } => {
                    self.execute_function_call(host, params_index)?;
                },
                Instruction::Return { value } => {
                    let v = reg_read(&self.registers, value)?;
                    return Ok(v);
                },
                Instruction::CallRule { dest, rule_index } => {
                    self.execute_call_rule(host, dest, rule_index)?;
                },
                Instruction::RuleInit { result_reg, rule_index } => {
                    self.execute_rule_init(result_reg, rule_index)?;
                },
                Instruction::DestructuringSuccess {  } => {
                    break ;
                },
                Instruction::RuleReturn {  } => {
                    self.execute_rule_return()?;
                    break ;
                },
                Instruction::ObjectSet { obj, key, value } => {
                    let k = reg_read(&self.registers, key)?;
                    let v = reg_read(&self.registers, value)?;
                    let o = reg_read(&self.registers, obj)?;
                    match obj_inserted(o, k, v) {
                        Ok(o2) => {
                            reg_write(&mut self.registers, obj, o2)?;
                            proof {
                                lemma_seq_view_update(top.registers@, obj as int, o2);
                                assert(seq_view(self.registers@) =~= seq_view(
                                    top.registers@,
                                ).update(
                                    obj as int,
                                    SpecValue::Obj(
                                        obj_updated(
                                            seq_view(top.registers@)[obj as int]->Obj_0,
                                            seq_view(top.registers@)[key as int],
                                            seq_view(top.registers@)[value as int],
                                        ),
                                    ),
                                ));
                            }
                        },
                        Err(_) => {
                            return Err(VmError::RegisterNotObject { register: obj });
                        },
                    }
                },
                Instruction::ObjectCreate { params_index } => {
                    self.step_object_create(params_index)?;
                    proof {
                        if (params_index as int) < top.program.instruction_data.object_create_params@.len() {
                            let ps = top.program.instruction_data.object_create_params@[params_index as int];
                            let lks = ps.literal_key_field_pairs@;
                            let fps = ps.field_pairs@;
                            let regs0 = seq_view(top.registers@);
                            if (ps.dest as int) < regs0.len() && (forall|j: int|
                                0 <= j < lks.len() ==> (#[trigger] lks[j].1 as int) < regs0.len())
                                && (forall|j: int|
                                0 <= j < fps.len() ==> (#[trigger] fps[j].0 as int) < regs0.len()
                                    && (fps[j].1 as int) < regs0.len()) && (
                            ps.template_literal_idx as int) < top.program.literals@.len()
                                && view_of(
                                top.program.literals@[ps.template_literal_idx as int],
                            ) is Obj && ((exists|j: int|
                                0 <= j < lks.len() && regs0[#[trigger] lks[j].1 as int]
                                    is Undefined) || (exists|j: int|
                                0 <= j < fps.len() && (regs0[#[trigger] fps[j].0 as int]
                                    is Undefined || regs0[fps[j].1 as int] is Undefined))) {
                                if exists|j: int|
                                    0 <= j < lks.len() && regs0[#[trigger] lks[j].1 as int]
                                        is Undefined {
                                    let w = choose|j: int|
                                        0 <= j < lks.len() && regs0[#[trigger] lks[j].1 as int]
                                            is Undefined;
                                    assert(view_of(top.registers@[lks[w].1 as int]) is Undefined);
                                } else {
                                    let w = choose|j: int|
                                        0 <= j < fps.len() && (regs0[#[trigger] fps[j].0 as int]
                                            is Undefined || regs0[fps[j].1 as int] is Undefined);
                                    assert(regs0[fps[w].0 as int] == view_of(
                                        top.registers@[fps[w].0 as int],
                                    ));
                                    assert(regs0[fps[w].1 as int] == view_of(
                                        top.registers@[fps[w].1 as int],
                                    ));
                                }
                                assert(seq_view(self.registers@) =~= regs0.update(
                                    ps.dest as int,
                                    SpecValue::Undefined,
                                ));
                            }
                        }
                    }
                },
                Instruction::Index { dest, container, key } => {
                    let k = reg_read(&self.registers, key)?;
                    let c = reg_read(&self.registers, container)?;
                    let v = value_index(&c, &k);
                    reg_write(&mut self.registers, dest, v)?;
                    proof {
                        lemma_seq_view_update(top.registers@, dest as int, v);
                        assert(seq_view(self.registers@) =~= seq_view(top.registers@).update(
                            dest as int,
                            spec_index(
                                seq_view(top.registers@)[container as int],
                                seq_view(top.registers@)[key as int],
                            ),
                        ));
                    }
                },
                Instruction::IndexLiteral { dest, container, literal_idx } => {
                    if (literal_idx as usize) < self.program.literals.len() {
                        proof {
                            assert(wf_val(view_of(self.program.literals@[literal_idx as int])));
                        }
                        let k = clone_value(&self.program.literals[literal_idx as usize]);
                        let c = reg_read(&self.registers, container)?;
                        let v = value_index(&c, &k);
                        reg_write(&mut self.registers, dest, v)?;
                        proof {
                            lemma_seq_view_update(top.registers@, dest as int, v);
                            assert(seq_view(self.registers@) =~= seq_view(top.registers@).update(
                                dest as int,
                                spec_index(
                                    seq_view(top.registers@)[container as int],
                                    view_of(top.program.literals@[literal_idx as int]),
                                ),
                            ));
                        }
                    } else {
                        return Err(
                            VmError::LiteralIndexOutOfBounds { index: literal_idx as usize },
                        );
                    }
                },
                Instruction::ArrayNew { dest } => {
                    let v = Value::new_array();
                    reg_write(&mut self.registers, dest, v)?;
                    proof {
                        lemma_seq_view_update(top.registers@, dest as int, v);
                        assert(seq_view(self.registers@) =~= seq_view(top.registers@).update(
                            dest as int,
                            SpecValue::Arr(Seq::<SpecValue>::empty()),
                        ));
                    }
                },
                Instruction::ArrayPush { arr, value } => {
                    let v = reg_read(&self.registers, value)?;
                    let a = reg_read(&self.registers, arr)?;
                    match arr_pushed(a, v) {
                        Ok(a2) => {
                            reg_write(&mut self.registers, arr, a2)?;
                            proof {
                                lemma_seq_view_update(top.registers@, arr as int, a2);
                                assert(seq_view(self.registers@) =~= seq_view(
                                    top.registers@,
                                ).update(
                                    arr as int,
                                    SpecValue::Arr(
                                        seq_view(top.registers@)[arr as int]->Arr_0.push(
                                            seq_view(top.registers@)[value as int],
                                        ),
                                    ),
                                ));
                            }
                        },
                        Err(_) => {
                            return Err(VmError::RegisterNotArray { register: arr });
                        },
                    }
                },
                Instruction::ArrayCreate { params_index } => {
                    self.step_array_create(params_index)?;
                    proof {
                        if (params_index as int) < top.program.instruction_data.array_create_params@.len() {
                            let ps = top.program.instruction_data.array_create_params@[params_index as int];
                            let es = ps.element_registers@;
                            let regs0 = seq_view(top.registers@);
                            if (ps.dest as int) < regs0.len() && (forall|j: int|
                                0 <= j < es.len() ==> (#[trigger] es[j] as int) < regs0.len()) {
                                assert forall|j: int| 0 <= j < es.len() implies (
                                regs0[#[trigger] es[j] as int] is Undefined) == (view_of(
                                    top.registers@[es[j] as int],
                                ) is Undefined) by {
                                    assert(regs0[es[j] as int] == view_of(
                                        top.registers@[es[j] as int],
                                    ));
                                }
                                if exists|j: int|
                                    0 <= j < es.len() && regs0[#[trigger] es[j] as int]
                                        is Undefined {
                                    let w = choose|j: int|
                                        0 <= j < es.len() && regs0[#[trigger] es[j] as int]
                                            is Undefined;
                                    assert(view_of(top.registers@[es[w] as int]) is Undefined);
                                    assert(seq_view(self.registers@) =~= regs0.update(
                                        ps.dest as int,
                                        SpecValue::Undefined,
                                    ));
                                } else {
                                    assert(!(exists|j: int|
                                        0 <= j < es.len() && view_of(
                                            top.registers@[#[trigger] es[j] as int],
                                        ) is Undefined)) by {
                                        if exists|j: int|
                                            0 <= j < es.len() && view_of(
                                                top.registers@[#[trigger] es[j] as int],
                                            ) is Undefined {
                                            let w2 = choose|j: int|
                                                0 <= j < es.len() && view_of(
                                                    top.registers@[#[trigger] es[j] as int],
                                                ) is Undefined;
                                            assert(regs0[es[w2] as int] is Undefined);
                                        }
                                    }
                                    assert(Seq::new(
                                        es.len(),
                                        |j: int|
                                            if 0 <= j < es.len() {
                                                view_of(top.registers@[es[j] as int])
                                            } else {
                                                SpecValue::Undefined
                                            },
                                    ) =~= Seq::new(
                                        es.len(),
                                        |j: int|
                                            if 0 <= j < es.len() {
                                                regs0[es[j] as int]
                                            } else {
                                                SpecValue::Undefined
                                            },
                                    ));
                                    assert(seq_view(self.registers@) =~= regs0.update(
                                        ps.dest as int,
                                        SpecValue::Arr(
                                            Seq::new(
                                                es.len(),
                                                |j: int|
                                                    if 0 <= j < es.len() {
                                                        regs0[es[j] as int]
                                                    } else {
                                                        SpecValue::Undefined
                                                    },
                                            ),
                                        ),
                                    ));
                                }
                            }
                        }
                    }
                },
                Instruction::SetNew { dest } => {
                    let v = Value::new_set();
                    reg_write(&mut self.registers, dest, v)?;
                    proof {
                        lemma_seq_view_update(top.registers@, dest as int, v);
                        assert(seq_view(self.registers@) =~= seq_view(top.registers@).update(
                            dest as int,
                            SpecValue::SetV(Seq::<SpecValue>::empty()),
                        ));
                    }
                },
                Instruction::SetAdd { dst, value } => {
                    let v = reg_read(&self.registers, value)?;
                    let t = reg_read(&self.registers, dst)?;
                    match set_added(t, v) {
                        Ok(t2) => {
                            reg_write(&mut self.registers, dst, t2)?;
                            proof {
                                lemma_seq_view_update(top.registers@, dst as int, t2);
                                assert(seq_view(self.registers@) =~= seq_view(
                                    top.registers@,
                                ).update(
                                    dst as int,
                                    SpecValue::SetV(
                                        set_with(
                                            seq_view(top.registers@)[dst as int]->SetV_0,
                                            seq_view(top.registers@)[value as int],
                                        ),
                                    ),
                                ));
                            }
                        },
                        Err(_) => {
                            return Err(VmError::RegisterNotSet { register: dst });
                        },
                    }
                },
                Instruction::SetCreate { params_index } => {
                    self.step_set_create(params_index)?;
                    proof {
                        if (params_index as int) < top.program.instruction_data.set_create_params@.len() {
                            let ps = top.program.instruction_data.set_create_params@[params_index as int];
                            let es = ps.element_registers@;
                            let regs0 = seq_view(top.registers@);
                            if (ps.dest as int) < regs0.len() && (forall|j: int|
                                0 <= j < es.len() ==> (#[trigger] es[j] as int) < regs0.len()) && (
                            exists|j: int|
                                0 <= j < es.len() && regs0[#[trigger] es[j] as int] is Undefined) {
                                let w = choose|j: int|
                                    0 <= j < es.len() && regs0[#[trigger] es[j] as int]
                                        is Undefined;
                                assert(view_of(top.registers@[es[w] as int]) is Undefined);
                                assert(seq_view(self.registers@) =~= regs0.update(
                                    ps.dest as int,
                                    SpecValue::Undefined,
                                ));
                            }
                        }
                    }
                },
                Instruction::Contains { dest, collection, value } => {
                    let v = reg_read(&self.registers, value)?;
                    let c = reg_read(&self.registers, collection)?;
                    let b = value_contains(&c, &v);
                    reg_write(&mut self.registers, dest, Value::Bool(b))?;
                    proof {
                        lemma_seq_view_update(top.registers@, dest as int, Value::Bool(b));
                        assert(seq_view(self.registers@) =~= seq_view(top.registers@).update(
                            dest as int,
                            SpecValue::Bool(
                                spec_contains(
                                    seq_view(top.registers@)[collection as int],
                                    seq_view(top.registers@)[value as int],
                                ),
                            ),
                        ));
                    }
                },
                Instruction::Count { dest, collection } => {
                    let c = reg_read(&self.registers, collection)?;
                    match count_value(&c) {
                        Some(v) => {
                            proof {
                                assert(v@ == spec_count(seq_view(top.registers@)[collection as int]));
                            }
                            reg_write(&mut self.registers, dest, v)?;
                            proof {
                                lemma_seq_view_update(top.registers@, dest as int, v);
                                assert(seq_view(self.registers@) =~= seq_view(
                                    top.registers@,
                                ).update(
                                    dest as int,
                                    spec_count(seq_view(top.registers@)[collection as int]),
                                ));
                            }
                        },
                        None => {
                            return Err(
                                VmError::Internal("collection length exceeds the number range".to_owned()),
                            );
                        },
                    }
                },
                Instruction::AssertCondition { condition } => {
                    let v = reg_read(&self.registers, condition)?;
                    let passed = to_bool_value(&v);
                    self.handle_condition(passed)?;
                },
                Instruction::AssertNotUndefined { register } => {
                    let v = reg_read(&self.registers, register)?;
                    self.handle_condition(!is_undefined(&v))?;
                },
                Instruction::LoopStart { params_index } => {
                    if (params_index as usize) >= self.program.instruction_data.loop_params.len() {
                        return Err(VmError::Internal("loop parameter block missing".to_owned()));
                    }
                    let p = self.program.instruction_data.loop_params[params_index as usize];
                    self.execute_loop_start(p)?;
                },
                Instruction::LoopNext { body_start, loop_end } => {
                    self.execute_loop_next(body_start, loop_end)?;
                },
                Instruction::Halt {  } => {
                    let v = reg_read(&self.registers, 0)?;
                    return Ok(v);
                },
                Instruction::ChainedIndex { params_index } => {
                    let ghost pre = *self;
                    self.step_chained_index(params_index)?;
                    proof {
                        if (params_index as int) < top.program.instruction_data.chained_index_params@.len() {
                            let ps = top.program.instruction_data.chained_index_params@[params_index as int];
                            let cs = ps.path_components@;
                            let regs0 = seq_view(top.registers@);
                            if (ps.root as int) < regs0.len() && (ps.dest as int) < regs0.len()
                                && (forall|j: int|
                                0 <= j < cs.len() ==> (match #[trigger] cs[j] {
                                    LiteralOrRegister::Literal(idx) => (idx as int)
                                        < top.program.literals@.len(),
                                    LiteralOrRegister::Register(reg) => (reg as int)
                                        < regs0.len(),
                                })) {
                                assert(comps_views(pre, cs) =~= comps_views(top, cs));
                                assert(comps_views(top, cs) =~= Seq::new(
                                    cs.len(),
                                    |j: int|
                                        if 0 <= j < cs.len() {
                                            match cs[j] {
                                                LiteralOrRegister::Literal(idx) => view_of(
                                                    top.program.literals@[idx as int],
                                                ),
                                                LiteralOrRegister::Register(reg) => regs0[reg as int],
                                            }
                                        } else {
                                            SpecValue::Undefined
                                        },
                                ));
                                assert(seq_view(self.registers@) =~= regs0.update(
                                    ps.dest as int,
                                    index_path(
                                        regs0[ps.root as int],
                                        comps_views(top, cs),
                                        0,
                                    ),
                                ));
                            }
                        }
                    }
                },
                Instruction::VirtualDataDocumentLookup { params_index } => {
                    self.execute_virtual_data_document_lookup(host, params_index)?;
                },
                Instruction::ComprehensionBegin { params_index } => {
                    if (params_index as usize)
                        >= self.program.instruction_data.comprehension_begin_params.len() {
                        return Err(
                            VmError::InvalidComprehensionBeginParams { index: params_index },
                        );
                    }
                    let p =
                        self.program.instruction_data.comprehension_begin_params[params_index as usize];
                    self.execute_comprehension_begin(p)?;
                },
                Instruction::ComprehensionYield { value_reg, key_reg } => {
                    self.execute_comprehension_yield(value_reg, key_reg)?;
                },
                Instruction::ComprehensionEnd {  } => {
                    self.execute_comprehension_end()?;
                },
            }
            if self.pc == usize::MAX {
                return Err(VmError::Internal("program counter out of range".to_owned()));
            }
            self.pc = self.pc + 1;
        }
        let v = reg_read(&self.registers, 0)?;
        proof {
            assert(view_of(v) == seq_view(self.registers@)[0]);
        }
        Ok(v)
    }

    /// Run the program's main entry point, after resetting all
    /// per-execution state.
    pub fn execute<H: BuiltinHost>(&mut self, host: &mut H) -> (r: Result<Value, VmError>)
        requires
            old(self).wf(),
        ensures
            final(self).wf(),
            config_fixed(*old(self), *final(self)),
            r matches Ok(v) ==> wf_val(v@),
            r matches Err(e) ==> (e matches VmError::InstructionLimitExceeded { limit } ==> limit
                == old(self).max_instructions),
            final(self).spec_executed() <= final(self).spec_max_instructions(),
            ({
                // from the freshly reset state — null registers, a zeroed
                // counter — the register-only fragment of the program
                // decides the run wherever the spec interpreter does
                match pure_run(
                    old(self).program,
                    old(self).data@,
                    old(self).input@,
                    Seq::new(old(self).base_register_count as nat, |i: int| SpecValue::Null),
                    old(self).program.main_entry_point as int,
                    old(self).max_instructions as nat,
                ) {
                    Option::Some(out) => match out {
                        PureOutcome::Finished(v) => r matches Ok(x) && x@ == v,
                        PureOutcome::Failed => r matches Err(e) && e is AssertionFailed,
                    },
                    Option::None => true,
                }
            }),
    {
        self.reset_execution_state();
        proof {
            assert(seq_view(self.registers@) =~= Seq::new(
                old(self).base_register_count as nat,
                |i: int| SpecValue::Null,
            ));
        }
        let entry = self.program.main_entry_point;
        self.jump_to(host, entry)
    }

    /// Run the entry point at the given table index.
    pub fn execute_entry_point_by_index<H: BuiltinHost>(
        &mut self,
        host: &mut H,
        index: usize,
    ) -> (r: Result<Value, VmError>)
        requires
            old(self).wf(),
        ensures
            final(self).wf(),
            config_fixed(*old(self), *final(self)),
            r matches Ok(v) ==> wf_val(v@),
            index >= old(self).program.entry_points@.len() ==> (r matches Err(e) && e matches
                VmError::InvalidEntryPointIndex { index: i, max_index } && i == index && max_index
                == (if old(self).program.entry_points@.len() >= 1 {
                old(self).program.entry_points@.len() - 1
            } else {
                0int
            })),
            r matches Err(e) ==> (e matches VmError::InstructionLimitExceeded { limit } ==> limit
                == old(self).max_instructions),
            r matches Err(e) ==> ((e is InvalidEntryPointIndex) ==> *final(self) == *old(self)),
            final(self).spec_executed() <= final(self).spec_max_instructions() || (r matches Err(
                e,
            ) && (e is InvalidEntryPointIndex || e is Internal)),
    {
        if index >= self.program.entry_points.len() {
            let max_index = if self.program.entry_points.len() >= 1 {
                self.program.entry_points.len() - 1
            } else {
                0
            };
            return Err(VmError::InvalidEntryPointIndex { index, max_index });
        }
        let entry_pc = self.program.entry_points[index].1;
        if entry_pc >= self.program.instructions.len() {
            return Err(VmError::Internal("entry point outside the program".to_owned()));
        }
        self.reset_execution_state();
        self.validate_vm_state()?;
        self.jump_to(host, entry_pc)
    }

    /// Run the entry point with the given name; an unknown name reports
    /// every available entry point.
    pub fn execute_entry_point_by_name<H: BuiltinHost>(
        &mut self,
        host: &mut H,
        name: &str,
    ) -> (r: Result<Value, VmError>)
        requires
            old(self).wf(),
        ensures
            final(self).wf(),
            config_fixed(*old(self), *final(self)),
            r matches Ok(v) ==> wf_val(v@),
            (forall|i: int|
                0 <= i < old(self).program.entry_points@.len()
                    ==> (#[trigger] old(self).program.entry_points@[i]).0@ != name@) ==> (
            r matches Err(e) && e matches VmError::EntryPointNotFound { name: n, available } && n@
                == name@ && available@.len() == old(self).program.entry_points@.len() && (forall|
                i: int,
            |
                0 <= i < available@.len() ==> #[trigger] available@[i]@
                    == old(self).program.entry_points@[i].0@)),
            r matches Err(e) ==> (e matches VmError::InstructionLimitExceeded { limit } ==> limit
                == old(self).max_instructions),
            r matches Err(e) ==> ((e is EntryPointNotFound) ==> *final(self) == *old(self)),
            final(self).spec_executed() <= final(self).spec_max_instructions() || (r matches Err(
                e,
            ) && (e is EntryPointNotFound || e is Internal)),
    {
        let entry_pc = match self.program.get_entry_point(name) {
            Some(pc) => pc,
            None => {
                let available = entry_point_names(&self.program);
                return Err(
                    VmError::EntryPointNotFound { name: name.to_owned(), available },
                );
            },
        };
        if entry_pc >= self.program.instructions.len() {
            return Err(VmError::Internal("entry point outside the program".to_owned()));
        }
        self.reset_execution_state();
        self.validate_vm_state()?;
        self.jump_to(host, entry_pc)
    }
}


// ------------------------------------------------------------------
// Laws of the iteration modes
// ------------------------------------------------------------------

/// How many of a run of iteration outcomes succeeded.
pub open spec fn count_true(s: Seq<bool>) -> nat
    decreases s.len(),
{
    if s.len() == 0 {
        0
    } else {
        count_true(s.drop_last()) + (if s.last() {
            1nat
        } else {
            0nat
        })
    }
}

/// A loop over an empty collection is vacuous: `Any` is false, `Every`
/// is true, `ForEach` is false.
pub proof fn lemma_loop_vacuity()
    ensures
        empty_loop_result(LoopMode::Any) == false,
        empty_loop_result(LoopMode::Every) == true,
        empty_loop_result(LoopMode::ForEach) == false,
{
}

/// The loop result computed from the success accounting agrees with the
/// quantifier each mode stands for: `Any` holds exactly when some
/// iteration succeeded, `Every` exactly when all did, and `ForEach`
/// reports whether any did.
pub proof fn lemma_loop_semantics(mode: LoopMode, outcomes: Seq<bool>)
    ensures
        loop_final_result(mode, count_true(outcomes), outcomes.len()) == (match mode {
            LoopMode::Any => exists|i: int| 0 <= i < outcomes.len() && outcomes[i],
            LoopMode::Every => forall|i: int| 0 <= i < outcomes.len() ==> outcomes[i],
            LoopMode::ForEach => exists|i: int| 0 <= i < outcomes.len() && outcomes[i],
        }),
    decreases outcomes.len(),
{
    lemma_count_true_bounds(outcomes);
    if outcomes.len() == 0 {
        assert(!(exists|i: int| 0 <= i < outcomes.len() && outcomes[i]));
    } else {
        let prefix = outcomes.drop_last();
        lemma_loop_semantics(mode, prefix);
        lemma_count_true_bounds(prefix);
        assert(forall|i: int| 0 <= i < prefix.len() ==> prefix[i] == outcomes[i]);
        if outcomes.last() {
            assert(outcomes[outcomes.len() - 1]);
            assert(exists|i: int| 0 <= i < outcomes.len() && outcomes[i]);
        } else {
            assert(!outcomes[outcomes.len() - 1]);
        }
        if exists|i: int| 0 <= i < prefix.len() && prefix[i] {
            let w = choose|i: int| 0 <= i < prefix.len() && prefix[i];
            assert(outcomes[w]);
        }
        if exists|i: int| 0 <= i < outcomes.len() && outcomes[i] {
            let w = choose|i: int| 0 <= i < outcomes.len() && outcomes[i];
            if w < prefix.len() {
                assert(prefix[w]);
            }
        }
    }
}

/// The success count never exceeds the number of iterations.
pub proof fn lemma_count_true_bounds(s: Seq<bool>)
    ensures
        count_true(s) <= s.len(),
    decreases s.len(),
{
    if s.len() > 0 {
        lemma_count_true_bounds(s.drop_last());
    }
}

} // verus!
