//! A core is a block of memory in which Redcode programs reside. This is
//! where the simulation of a battle takes place.

use vstd::prelude::*;
use vstd::std_specs::ops::AddSpec;

use crate::load_file::offset::normalized;
use crate::load_file::{Instruction, Offset, Warrior};
use crate::mars::chance::Source;
use crate::mars::opcode::{execute, spec_execute};
use crate::mars::process::{count_of, Entry};

pub mod address;
pub mod battle;
pub mod chance;
pub mod invariants;
pub mod modifier;
pub mod opcode;
pub mod process;
pub mod runs;

pub use battle::BattleResult;

verus! {

/// A warrior is known by its place in the list that was loaded.
pub type WarriorID = usize;

/// The limits of a battle.
#[derive(Copy, Clone, Debug, PartialEq, Eq, Structural)]
pub struct CoreConfig {
    /// Number of instruction cells.
    pub core_size: i32,
    /// Stop the battle after this many steps.
    pub max_cycles: i32,
    /// How many threads a warrior may have at most.
    pub max_processes: i32,
    /// Warriors longer than this are rejected.
    pub max_warrior_length: i32,
    /// Minimum gap between the places of two warriors.
    pub min_distance: i32,
    /// The size of the private storage of a warrior. Reserved.
    pub p_space: i32,
    /// Whether a record of the cells is asked for.
    pub log: bool,
}

impl Default for CoreConfig {
    fn default() -> (r: CoreConfig)
        ensures
            r == CoreConfig::spec_default(),
    {
        CoreConfig {
            core_size: 8_000,
            max_cycles: 80_000,
            max_processes: 8_000,
            max_warrior_length: 100,
            min_distance: 100,
            p_space: 500,
            log: false,
        }
    }
}

impl CoreConfig {
    /// The limits of a standard battle.
    pub open spec fn spec_default() -> CoreConfig {
        CoreConfig {
            core_size: 8_000,
            max_cycles: 80_000,
            max_processes: 8_000,
            max_warrior_length: 100,
            min_distance: 100,
            p_space: 500,
            log: false,
        }
    }
}

/// An error occurred during loading or core creation.
#[derive(Copy, Clone, Debug, PartialEq, Eq, Structural)]
#[non_exhaustive]
pub enum Error {
    /// The warrior was longer than allowed.
    WarriorTooLong,
    /// The min distance between warriors is too large.
    MinDistanceTooLarge,
    /// The specified core size was larger than the allowed max.
    InvalidCoreSize(u32),
    /// A warrior was loaded before.
    WarriorAlreadyLoaded(process::Error),
    /// The warrior holds an opcode that cannot be executed.
    UnsupportedOpcode,
    /// The origin of the warrior is no address.
    InvalidOrigin,
}

/// Why a warrior cannot be loaded, if it cannot.
pub open spec fn warrior_error(warrior: Warrior, max_warrior_length: int) -> Option<Error> {
    if warrior.program.instructions@.len() > max_warrior_length {
        Some(Error::WarriorTooLong)
    } else if !executable(warrior.program.instructions@) {
        Some(Error::UnsupportedOpcode)
    } else if warrior.program.spec_origin() > i32::MAX {
        Some(Error::InvalidOrigin)
    } else {
        None
    }
}

/// The error of the first warrior that cannot be loaded, if there is one.
pub open spec fn first_error(warriors: Seq<Warrior>, max_warrior_length: int) -> Option<Error>
    decreases warriors.len(),
{
    if warriors.len() == 0 {
        None
    } else {
        match first_error(warriors.drop_last(), max_warrior_length) {
            Some(error) => Some(error),
            None => warrior_error(warriors.last(), max_warrior_length),
        }
    }
}

/// The cells after the instructions were written one after the other from
/// the cell `at` on, each with its numbers reduced to the size of the core.
/// Behind the last cell the first one follows.
pub open spec fn placed(cells: Seq<Instruction>, at: int, instructions: Seq<Instruction>) -> Seq<
    Instruction,
>
    decreases instructions.len(),
{
    if instructions.len() == 0 {
        cells
    } else {
        let size = cells.len() as int;
        placed(cells, at, instructions.drop_last()).update(
            (at + instructions.len() - 1) % size,
            instructions.last().normalized(size),
        )
    }
}

/// The cells after each warrior was written to its place, in order.
pub open spec fn loaded_cells(
    cells: Seq<Instruction>,
    warriors: Seq<Warrior>,
    placements: Seq<i32>,
) -> Seq<Instruction>
    decreases warriors.len(),
{
    if warriors.len() == 0 || placements.len() == 0 {
        cells
    } else {
        placed(
            loaded_cells(cells, warriors.drop_last(), placements.drop_last()),
            placements.last() as int % (cells.len() as int),
            warriors.last().program.instructions@,
        )
    }
}

/// The thread that a warrior starts with: its first, at the origin of the
/// warrior as it lies in the core.
pub open spec fn first_thread(id: int, warrior: Warrior, placement: int, size: int) -> Entry {
    Entry {
        id: id as usize,
        thread: 0,
        offset: Offset::spec_new(placement + warrior.program.spec_origin(), size),
    }
}

/// The queue after loading: one thread for each warrior, in order.
pub open spec fn first_threads(warriors: Seq<Warrior>, placements: Seq<i32>, size: int) -> Seq<
    Entry,
> {
    Seq::new(
        warriors.len(),
        |i: int| first_thread(i, warriors[i], placements[i] as int, size),
    )
}

/// The distance from the place of one warrior to that of the next, before
/// chance moves them.
pub open spec fn spacing(config: CoreConfig, count: int) -> int {
    config.core_size as int / count
}

/// Why a list of warriors cannot be loaded into a core with the given
/// limits, if it cannot: the warriors do not fit at the distance asked for,
/// or one of them cannot be loaded.
pub open spec fn load_error(config: CoreConfig, warriors: Seq<Warrior>) -> Option<Error> {
    let count = warriors.len() as int;
    if count == 0 {
        None
    } else if spacing(config, count) < config.min_distance {
        Some(Error::MinDistanceTooLarge)
    } else if first_error(warriors, config.max_warrior_length as int).is_some() {
        first_error(warriors, config.max_warrior_length as int)
    } else if count >= 2 && config.min_distance >= spacing(config, count)
        - config.max_warrior_length {
        Some(Error::MinDistanceTooLarge)
    } else {
        None
    }
}

/// Whether the places are among those that chance may give the warriors:
/// the first warrior lies at the start of the core, and each other one in
/// its own stretch of the core, at least `min_distance` from its start and
/// more than `max_warrior_length` from its end.
pub open spec fn admissible(config: CoreConfig, placements: Seq<i32>) -> bool {
    let count = placements.len() as int;
    &&& count > 0 ==> placements[0] == 0
    &&& forall|i: int|
        1 <= i < count ==> i * spacing(config, count) + config.min_distance <= (
        #[trigger] placements[i]) < (i + 1) * spacing(config, count) - config.max_warrior_length
}

/// Where no warrior has an error before the warrior `i`, and that one has
/// one, it is the first error of the list.
pub proof fn lemma_first_error_found(warriors: Seq<Warrior>, max_warrior_length: int, i: int)
    requires
        0 <= i < warriors.len(),
        first_error(warriors.take(i), max_warrior_length).is_none(),
        warrior_error(warriors[i], max_warrior_length).is_some(),
    ensures
        first_error(warriors, max_warrior_length) == warrior_error(warriors[i], max_warrior_length),
    decreases warriors.len(),
{
    if i == warriors.len() - 1 {
        assert(warriors.drop_last() =~= warriors.take(i));
    } else {
        assert(warriors.drop_last().take(i) =~= warriors.take(i));
        lemma_first_error_found(warriors.drop_last(), max_warrior_length, i);
    }
}

/// In a list without a first error no warrior has an error.
pub proof fn lemma_no_error_each(warriors: Seq<Warrior>, max_warrior_length: int, i: int)
    requires
        0 <= i < warriors.len(),
        first_error(warriors, max_warrior_length).is_none(),
    ensures
        warrior_error(warriors[i], max_warrior_length).is_none(),
    decreases warriors.len(),
{
    if i < warriors.len() - 1 {
        lemma_no_error_each(warriors.drop_last(), max_warrior_length, i);
    }
}

/// What a step of the simulation did.
#[derive(Copy, Clone, Debug, PartialEq, Eq, Structural)]
pub enum StepResult {
    /// A thread of the warrior was executed. If the thread ended and was
    /// the last of its warrior, the reason is given.
    Continue(WarriorID, Option<process::Error>),
    /// No thread was left to execute.
    Halt,
}

/// The state of a battle, as far as its course depends on it.
pub struct State {
    /// The cells of the core.
    pub cells: Seq<Instruction>,
    /// The threads that wait, the next one to run first.
    pub entries: Seq<Entry>,
    /// The thread id that the next new thread of a warrior gets.
    pub next_ids: Map<usize, usize>,
    /// How many steps were executed.
    pub steps_taken: int,
}

impl State {
    /// The thread id that the next new thread of the warrior gets.
    pub open spec fn next_id(self, id: usize) -> usize {
        if self.next_ids.contains_key(id) {
            self.next_ids[id]
        } else {
            0
        }
    }

    /// One step of the simulation: the state afterwards and what is
    /// reported.
    ///
    /// The first thread leaves the queue and its instruction is executed.
    /// If that ends the thread, the thread is gone; if it was the last of
    /// its warrior, the reason is reported. Otherwise the thread joins the
    /// end of the queue at the cell where it goes on. After `SPL` it is the
    /// cell after the instruction where the thread goes on, and a new thread
    /// follows it into the queue at the cell that `SPL` points to, unless
    /// the warrior then has `max_processes` threads already.
    pub open spec fn step(self, max_processes: int) -> (State, StepResult) {
        if self.entries.len() == 0 {
            (self, StepResult::Halt)
        } else {
            let entry = self.entries[0];
            let rest = self.entries.drop_first();
            let size = self.cells.len() as int;
            let (cells, outcome) = spec_execute(self.cells, entry.offset.spec_value());
            let steps_taken = self.steps_taken + 1;
            match outcome {
                Err(error) => (
                    State { cells, entries: rest, next_ids: self.next_ids, steps_taken },
                    StepResult::Continue(
                        entry.id,
                        if count_of(rest, entry.id) == 0 {
                            Some(error)
                        } else {
                            None
                        },
                    ),
                ),
                Ok(executed) => {
                    let distance = match executed.program_counter_offset {
                        Some(distance) => distance,
                        None => Offset::spec_new(1, size),
                    };
                    let target = entry.offset.add_spec(distance);
                    let next = entry.offset.add_spec(Offset::spec_new(1, size));
                    let continued = rest.push(
                        Entry { id: entry.id, thread: entry.thread, offset: next },
                    );
                    let state = if !executed.should_split {
                        State {
                            cells,
                            entries: rest.push(
                                Entry { id: entry.id, thread: entry.thread, offset: target },
                            ),
                            next_ids: self.next_ids,
                            steps_taken,
                        }
                    } else if count_of(continued, entry.id) < max_processes {
                        State {
                            cells,
                            entries: continued.push(
                                Entry {
                                    id: entry.id,
                                    thread: self.next_id(entry.id),
                                    offset: target,
                                },
                            ),
                            next_ids: self.next_ids.insert(
                                entry.id,
                                (self.next_id(entry.id) + 1) as usize,
                            ),
                            steps_taken,
                        }
                    } else {
                        State { cells, entries: continued, next_ids: self.next_ids, steps_taken }
                    };
                    (state, StepResult::Continue(entry.id, None))
                },
            }
        }
    }
}

impl Default for Core {
    /// A core with the standard limits.
    fn default() -> (r: Core)
        ensures
            r.wf(),
            r.spec_config() == CoreConfig::spec_default(),
            r.cells() == Seq::new(8_000, |i: int| Instruction::spec_default()),
            r.queue().entries() == Seq::<Entry>::empty(),
            r.spec_steps_taken() == 0,
            r.spec_num_warriors() == 0,
    {
        Core::new(CoreConfig::default())
    }
}

/// No cell holds an opcode that works on the private storage of a
/// warrior. Such an opcode is recognised and cannot be executed.
pub open spec fn executable(cells: Seq<Instruction>) -> bool {
    forall|i: int| 0 <= i < cells.len() ==> !(#[trigger] cells[i]).opcode.is_p_space()
}

/// The full memory core at a given point in time.
pub struct Core {
    pub(crate) config: CoreConfig,
    pub(crate) instructions: Vec<Instruction>,
    pub(crate) process_queue: process::Queue,
    pub(crate) steps_taken: i32,
    pub(crate) num_warriors: usize,
}

impl Core {
    /// The cells of the core.
    pub open(crate) spec fn cells(self) -> Seq<Instruction> {
        self.instructions@
    }

    /// The limits that the core was made with.
    pub open(crate) spec fn spec_config(self) -> CoreConfig {
        self.config
    }

    /// The process queue of the core.
    pub open(crate) spec fn queue(self) -> process::Queue {
        self.process_queue
    }

    /// How many steps were executed.
    pub open(crate) spec fn spec_steps_taken(self) -> int {
        self.steps_taken as int
    }

    /// How many warriors were loaded.
    pub open(crate) spec fn spec_num_warriors(self) -> nat {
        self.num_warriors as nat
    }

    /// The state of the battle in this core.
    pub open spec fn state(self) -> State {
        State {
            cells: self.cells(),
            entries: self.queue().entries(),
            next_ids: self.queue().next_thread_ids(),
            steps_taken: self.spec_steps_taken(),
        }
    }

    /// This core is what loading the warriors at the given places makes of
    /// `before`: the instructions of each warrior lie at its place, one
    /// thread for each warrior waits at its origin, in the order of the
    /// warriors, and each warrior has been given its first thread id.
    pub open spec fn loaded_from(
        self,
        before: Core,
        warriors: Seq<Warrior>,
        placements: Seq<i32>,
    ) -> bool {
        &&& self.cells() == loaded_cells(before.cells(), warriors, placements)
        &&& self.queue().entries() == first_threads(warriors, placements, before.size())
        &&& self.spec_num_warriors() == warriors.len()
        &&& forall|id: usize|
            id < warriors.len() ==> #[trigger] self.queue().next_id(id) == 1
    }

    /// The number of cells.
    pub open spec fn size(self) -> int {
        self.cells().len() as int
    }

    /// The core has as many cells as its limits say, at least one, and every
    /// thread in its queue points into it.
    pub open spec fn wf(self) -> bool {
        &&& self.size() == self.spec_config().core_size
        &&& self.size() > 0
        &&& executable(self.cells())
        &&& self.spec_steps_taken() >= 0
        &&& self.queue().wf()
        &&& forall|i: int|
            0 <= i < self.queue().entries().len() ==> {
                let entry = #[trigger] self.queue().entries()[i];
                &&& entry.offset.modulus() == self.size()
                &&& 0 <= entry.offset.spec_value() < self.size()
                &&& entry.id < self.spec_num_warriors()
                &&& entry.thread < self.queue().next_id(entry.id)
            }
        &&& forall|id: usize| #[trigger]
            self.queue().next_thread_ids().contains_key(id) ==> self.queue().next_thread_ids()[id]
                <= self.spec_steps_taken() + 1
        &&& forall|id: usize|
            id < self.spec_num_warriors() ==> #[trigger] self.queue().thread_counts().contains_key(
                id,
            )
        &&& forall|id: usize| #[trigger]
            self.queue().next_thread_ids().contains_key(id) ==> id < self.spec_num_warriors()
    }

    /// Everything but the cells is as in `other`.
    pub open spec fn same_but_cells(self, other: Core) -> bool {
        &&& self.spec_config() == other.spec_config()
        &&& self.queue() == other.queue()
        &&& self.spec_steps_taken() == other.spec_steps_taken()
        &&& self.spec_num_warriors() == other.spec_num_warriors()
        &&& self.size() == other.size()
    }

    /// Create a new core with the given limits. Every cell holds the
    /// default instruction and no thread is waiting.
    pub fn new(config: CoreConfig) -> (r: Self)
        requires
            config.core_size > 0,
        ensures
            r.wf(),
            r.spec_config() == config,
            r.cells() == Seq::new(config.core_size as nat, |i: int| Instruction::spec_default()),
            r.queue().entries() == Seq::<process::Entry>::empty(),
            r.queue().thread_counts() == Map::<usize, usize>::empty(),
            r.queue().next_thread_ids() == Map::<usize, usize>::empty(),
            r.spec_steps_taken() == 0,
            r.spec_num_warriors() == 0,
    {
        let mut instructions: Vec<Instruction> = Vec::new();
        let mut i: i32 = 0;
        while i < config.core_size
            invariant
                0 <= i <= config.core_size,
                instructions@ == Seq::new(i as nat, |k: int| Instruction::spec_default()),
            decreases config.core_size - i,
        {
            instructions.push(Instruction::default());
            i = i + 1;
            assert(instructions@ =~= Seq::new(i as nat, |k: int| Instruction::spec_default()));
        }
        Self {
            config,
            instructions,
            process_queue: process::Queue::new(),
            steps_taken: 0,
            num_warriors: 0,
        }
    }

    /// How many steps were executed.
    pub fn steps_taken(&self) -> (n: i32)
        ensures
            n == self.spec_steps_taken(),
    {
        self.steps_taken
    }

    /// How many warriors were loaded.
    pub fn num_warriors(&self) -> (n: usize)
        ensures
            n == self.spec_num_warriors(),
    {
        self.num_warriors
    }

    /// The limits that the core was made with.
    pub fn config(&self) -> (r: &CoreConfig)
        ensures
            *r == self.spec_config(),
    {
        &self.config
    }

    /// The process queue of the core.
    pub fn process_queue(&self) -> (r: &process::Queue)
        ensures
            *r == self.queue(),
    {
        &self.process_queue
    }

    /// How many threads a warrior has. The warrior must have been loaded.
    pub fn thread_count(&self, warrior: WarriorID) -> (n: usize)
        requires
            self.wf(),
            warrior < self.spec_num_warriors(),
        ensures
            n == count_of(self.queue().entries(), warrior),
    {
        proof {
            assert(self.queue().thread_counts().contains_key(warrior));
        }
        self.process_queue.thread_count(warrior)
    }

    /// The cell that the next thread in the queue executes. There must be
    /// such a thread.
    pub fn program_counter(&self) -> (pc: Offset)
        requires
            self.queue().entries().len() > 0,
        ensures
            pc == self.queue().entries()[0].offset,
    {
        match self.process_queue.peek() {
            Ok(entry) => entry.offset,
            Err(_) => Offset::new(0, 1),
        }
    }

    /// The offset that a number denotes in this core.
    pub fn offset(&self, value: i32) -> (r: Offset)
        requires
            self.wf(),
        ensures
            r == Offset::spec_new(value as int, self.size()),
            r.spec_value() == normalized(value as int, self.size()),
            r.modulus() == self.size(),
    {
        Offset::new(value, self.len())
    }

    /// Get the number of instructions in the core (available to programs
    /// as `CORESIZE`).
    pub fn len(&self) -> (n: i32)
        requires
            self.wf(),
        ensures
            n == self.size(),
    {
        self.config.core_size
    }

    /// Whether the core is empty or not (almost always `false`).
    pub fn is_empty(&self) -> (r: bool)
        ensures
            r == (self.size() == 0),
    {
        self.instructions.len() == 0
    }

    /// Get an instruction from a given index in the core. The index is
    /// taken modulo the size of the core.
    pub fn get(&self, index: i32) -> (r: &Instruction)
        requires
            self.wf(),
        ensures
            *r == self.cells()[normalized(index as int, self.size())],
    {
        self.get_offset(self.offset(index))
    }

    /// Get an instruction from a given offset in the core.
    pub fn get_offset(&self, offset: Offset) -> (r: &Instruction)
        requires
            self.wf(),
            offset.modulus() == self.size(),
        ensures
            *r == self.cells()[offset.spec_value()],
    {
        let index: i32 = offset.value();
        &self.instructions[index as usize]
    }

    /// The cells from `start` up to `end`, which is left out.
    pub fn window(&self, start: usize, end: usize) -> (r: &[Instruction])
        requires
            start <= end <= self.size(),
        ensures
            r@ == self.cells().subrange(start as int, end as int),
    {
        vstd::slice::slice_subrange(self.instructions.as_slice(), start, end)
    }

    /// Get a mutable instruction from a given index in the core. The index
    /// is taken modulo the size of the core.
    pub fn get_mut(&mut self, index: i32) -> (r: &mut Instruction)
        requires
            old(self).wf(),
        ensures
            *r == old(self).cells()[normalized(index as int, old(self).size())],
            final(self).cells() == old(self).cells().update(
                normalized(index as int, old(self).size()),
                *final(r),
            ),
            final(self).spec_config() == old(self).spec_config(),
            final(self).queue() == old(self).queue(),
            final(self).spec_steps_taken() == old(self).spec_steps_taken(),
            final(self).spec_num_warriors() == old(self).spec_num_warriors(),
    {
        let offset = self.offset(index);
        self.get_offset_mut(offset)
    }

    /// Get a mutable instruction from a given offset in the core.
    pub fn get_offset_mut(&mut self, offset: Offset) -> (r: &mut Instruction)
        requires
            old(self).wf(),
            offset.modulus() == old(self).size(),
        ensures
            *r == old(self).cells()[offset.spec_value()],
            final(self).cells() == old(self).cells().update(offset.spec_value(), *final(r)),
            final(self).spec_config() == old(self).spec_config(),
            final(self).queue() == old(self).queue(),
            final(self).spec_steps_taken() == old(self).spec_steps_taken(),
            final(self).spec_num_warriors() == old(self).spec_num_warriors(),
    {
        let index: i32 = offset.value();
        &mut self.instructions[index as usize]
    }

    /// Write an instruction at a given index into the core. The index is
    /// taken modulo the size of the core.
    pub fn set(&mut self, index: i32, value: Instruction)
        requires
            old(self).wf(),
            !value.opcode.is_p_space(),
        ensures
            final(self).wf(),
            final(self).cells() == old(self).cells().update(
                normalized(index as int, old(self).size()),
                value,
            ),
            final(self).spec_config() == old(self).spec_config(),
            final(self).queue() == old(self).queue(),
            final(self).spec_steps_taken() == old(self).spec_steps_taken(),
            final(self).spec_num_warriors() == old(self).spec_num_warriors(),
    {
        let offset = self.offset(index);
        self.set_offset(offset, value);
    }

    /// Write an instruction at a given offset into the core.
    pub fn set_offset(&mut self, index: Offset, value: Instruction)
        requires
            old(self).wf(),
            !value.opcode.is_p_space(),
            index.modulus() == old(self).size(),
        ensures
            final(self).wf(),
            final(self).cells() == old(self).cells().update(index.spec_value(), value),
            final(self).spec_config() == old(self).spec_config(),
            final(self).queue() == old(self).queue(),
            final(self).spec_steps_taken() == old(self).spec_steps_taken(),
            final(self).spec_num_warriors() == old(self).spec_num_warriors(),
    {
        let at: i32 = index.value();
        self.instructions.set(at as usize, value);
    }

    /// A core without warriors has no thread in its queue.
    pub proof fn lemma_nothing_loaded(self)
        requires
            self.wf(),
            self.spec_num_warriors() == 0,
        ensures
            self.queue().entries() =~= Seq::<Entry>::empty(),
            self.queue().next_thread_ids() =~= Map::<usize, usize>::empty(),
    {
        if self.queue().entries().len() > 0 {
            assert(self.queue().entries()[0].id < self.spec_num_warriors());
        }
    }

    /// Whether a warrior can be loaded into this core.
    pub fn check_warrior(&self, warrior: &Warrior) -> (r: Result<(), Error>)
        ensures
            r == match warrior_error(*warrior, self.spec_config().max_warrior_length as int) {
                Some(error) => Err::<(), Error>(error),
                None => Ok::<(), Error>(()),
            },
    {
        let length: usize = warrior.len();
        if self.config.max_warrior_length < 0 || length
            > self.config.max_warrior_length as usize {
            return Err(Error::WarriorTooLong);
        }
        let mut i: usize = 0;
        while i < length
            invariant
                0 <= i <= length,
                length == warrior.program.instructions@.len(),
                length <= self.spec_config().max_warrior_length,
                executable(warrior.program.instructions@.take(i as int)),
            decreases length - i,
        {
            if warrior.program.instructions[i].opcode.uses_p_space() {
                assert(warrior.program.instructions@[i as int].opcode.is_p_space());
                return Err(Error::UnsupportedOpcode);
            }
            assert(warrior.program.instructions@.take(i + 1).drop_last()
                =~= warrior.program.instructions@.take(i as int));
            i = i + 1;
        }
        proof {
            assert(warrior.program.instructions@.take(length as int)
                =~= warrior.program.instructions@);
        }
        match warrior.program.origin {
            Some(origin) => {
                if origin > i32::MAX as usize {
                    return Err(Error::InvalidOrigin);
                }
            },
            None => {},
        }
        Ok(())
    }

    /// The instruction with the numbers of its fields reduced to the size
    /// of this core.
    pub fn normalize(&self, instruction: Instruction) -> (r: Instruction)
        requires
            self.wf(),
        ensures
            r == instruction.normalized(self.size()),
    {
        let mut instruction = instruction;
        let a = self.offset(instruction.a_field.unwrap_value());
        instruction.a_field.set_value(a);
        let b = self.offset(instruction.b_field.unwrap_value());
        instruction.b_field.set_value(b);
        instruction
    }

    /// Load one warrior: write its instructions into the core from the
    /// given offset on, and queue its first thread at its origin. The
    /// warrior gets the next free id.
    pub fn load_warrior(&mut self, id: WarriorID, offset: Offset, warrior: &Warrior) -> (r: Result<
        (),
        Error,
    >)
        requires
            old(self).wf(),
            offset.modulus() == old(self).size(),
            id == old(self).spec_num_warriors(),
            id < usize::MAX,
        ensures
            final(self).wf(),
            final(self).spec_config() == old(self).spec_config(),
            final(self).spec_steps_taken() == old(self).spec_steps_taken(),
            match r {
                Err(error) => {
                    &&& warrior_error(*warrior, old(self).spec_config().max_warrior_length as int)
                        == Some(error)
                    &&& final(self).state() == old(self).state()
                    &&& final(self).spec_num_warriors() == old(self).spec_num_warriors()
                },
                Ok(()) => {
                    &&& warrior_error(
                        *warrior,
                        old(self).spec_config().max_warrior_length as int,
                    ).is_none()
                    &&& final(self).cells() == placed(
                        old(self).cells(),
                        offset.spec_value(),
                        warrior.program.instructions@,
                    )
                    &&& final(self).queue().entries() == old(self).queue().entries().push(
                        first_thread(id as int, *warrior, offset.spec_value(), old(self).size()),
                    )
                    &&& final(self).queue().next_thread_ids() == old(
                        self,
                    ).queue().next_thread_ids().insert(id, 1)
                    &&& final(self).spec_num_warriors() == id + 1
                },
            },
    {
        if let Err(error) = self.check_warrior(warrior) {
            return Err(error);
        }
        proof {
            use_type_invariant(&offset);
        }
        let length: usize = warrior.len();
        let mut i: usize = 0;
        while i < length
            invariant
                0 <= i <= length,
                length == warrior.program.instructions@.len(),
                length <= i32::MAX,
                executable(warrior.program.instructions@),
                self.wf(),
                self.same_but_cells(*old(self)),
                offset.modulus() == self.size(),
                self.cells() == placed(
                    old(self).cells(),
                    offset.spec_value(),
                    warrior.program.instructions@.take(i as int),
                ),
            decreases length - i,
        {
            let instruction = self.normalize(warrior.program.instructions[i]);
            let at = offset + (i as i32);
            proof {
                let size = self.size();
                let taken = warrior.program.instructions@.take(i + 1);
                assert(taken.drop_last() =~= warrior.program.instructions@.take(i as int));
                assert(taken.last() == warrior.program.instructions@[i as int]);
                vstd::arithmetic::div_mod::lemma_add_mod_noop_right(
                    offset.spec_value(),
                    i as int,
                    size,
                );
            }
            self.set_offset(at, instruction);
            i = i + 1;
        }
        proof {
            assert(warrior.program.instructions@.take(length as int)
                =~= warrior.program.instructions@);
        }
        let origin: i32 = match warrior.program.origin {
            Some(origin) => origin as i32,
            None => 0,
        };
        let start = offset + origin;
        proof {
            vstd::arithmetic::div_mod::lemma_add_mod_noop_right(
                offset.spec_value(),
                origin as int,
                self.size(),
            );
            if self.queue().next_thread_ids().contains_key(id) {
                assert(id < self.spec_num_warriors());
            }
            if self.queue().thread_counts().contains_key(id) {
            } else {
                process::lemma_absent_count_is_zero(self.queue(), id);
            }
        }
        self.process_queue.push(id, start, None);
        self.num_warriors = id + 1;
        proof {
            assert forall|i: int| 0 <= i < self.queue().entries().len() implies {
                let entry = #[trigger] self.queue().entries()[i];
                &&& entry.offset.modulus() == self.size()
                &&& 0 <= entry.offset.spec_value() < self.size()
                &&& entry.id < self.spec_num_warriors()
                &&& entry.thread < self.queue().next_id(entry.id)
            } by {
                if i < old(self).queue().entries().len() {
                    assert(self.queue().entries()[i] == old(self).queue().entries()[i]);
                }
            }
            assert(self.wf());
        }
        Ok(())
    }

    /// Whether every warrior of a list can be loaded into this core; if
    /// not, the error of the first that cannot.
    pub fn check_warriors(&self, warriors: &[Warrior]) -> (r: Result<(), Error>)
        ensures
            r == match first_error(warriors@, self.spec_config().max_warrior_length as int) {
                Some(error) => Err::<(), Error>(error),
                None => Ok::<(), Error>(()),
            },
    {
        let mut i: usize = 0;
        while i < warriors.len()
            invariant
                0 <= i <= warriors@.len(),
                first_error(
                    warriors@.take(i as int),
                    self.spec_config().max_warrior_length as int,
                ).is_none(),
            decreases warriors@.len() - i,
        {
            if let Err(error) = self.check_warrior(&warriors[i]) {
                proof {
                    lemma_first_error_found(
                        warriors@,
                        self.spec_config().max_warrior_length as int,
                        i as int,
                    );
                }
                return Err(error);
            }
            assert(warriors@.take(i + 1).drop_last() =~= warriors@.take(i as int));
            i = i + 1;
        }
        assert(warriors@.take(warriors@.len() as int) =~= warriors@);
        Ok(())
    }

    /// Load warriors at the given places: the instructions of each are
    /// written into the core from its place on, and its first thread is
    /// queued at its origin. Nothing is loaded if one of the warriors cannot
    /// be.
    pub fn load_warriors_at(&mut self, warriors: &[Warrior], placements: &[i32]) -> (r: Result<
        (),
        Error,
    >)
        requires
            old(self).wf(),
            old(self).spec_num_warriors() == 0,
            warriors@.len() == placements@.len(),
        ensures
            final(self).wf(),
            final(self).spec_config() == old(self).spec_config(),
            final(self).spec_steps_taken() == old(self).spec_steps_taken(),
            match r {
                Err(error) => {
                    &&& first_error(warriors@, old(self).spec_config().max_warrior_length as int)
                        == Some(error)
                    &&& final(self).state() == old(self).state()
                    &&& final(self).spec_num_warriors() == 0
                },
                Ok(()) => {
                    &&& first_error(
                        warriors@,
                        old(self).spec_config().max_warrior_length as int,
                    ).is_none()
                    &&& final(self).loaded_from(*old(self), warriors@, placements@)
                },
            },
    {
        if let Err(error) = self.check_warriors(warriors) {
            return Err(error);
        }
        let count: usize = warriors.len();
        let mut id: usize = 0;
        proof {
            self.lemma_nothing_loaded();
            assert(self.queue().entries() =~= first_threads(
                warriors@.take(0),
                placements@.take(0),
                self.size(),
            ));
        }
        while id < count
            invariant
                0 <= id <= count,
                count == warriors@.len(),
                count == placements@.len(),
                first_error(warriors@, self.spec_config().max_warrior_length as int).is_none(),
                self.wf(),
                self.spec_config() == old(self).spec_config(),
                self.spec_steps_taken() == old(self).spec_steps_taken(),
                self.size() == old(self).size(),
                self.loaded_from(
                    *old(self),
                    warriors@.take(id as int),
                    placements@.take(id as int),
                ),
            decreases count - id,
        {
            let offset = self.offset(placements[id]);
            proof {
                lemma_no_error_each(
                    warriors@,
                    self.spec_config().max_warrior_length as int,
                    id as int,
                );
                vstd::arithmetic::div_mod::lemma_add_mod_noop_right(
                    warriors@[id as int].program.spec_origin() as int,
                    placements@[id as int] as int,
                    self.size(),
                );
            }
            let ghost before = *self;
            let loaded = self.load_warrior(id, offset, &warriors[id]);
            proof {
                let some = warriors@.take(id + 1);
                let places = placements@.take(id + 1);
                assert(some.drop_last() =~= warriors@.take(id as int));
                assert(places.drop_last() =~= placements@.take(id as int));
                assert(some.last() == warriors@[id as int]);
                assert(places.last() == placements@[id as int]);
                assert(self.queue().entries() =~= first_threads(some, places, self.size()));
                assert(self.cells() == loaded_cells(old(self).cells(), some, places));
                assert forall|k: usize| k < some.len() implies #[trigger] self.queue().next_id(k)
                    == 1 by {
                    if k < id {
                        assert(before.queue().next_id(k) == 1);
                    }
                }
            }
            id = id + 1;
        }
        proof {
            assert(warriors@.take(count as int) =~= warriors@);
            assert(placements@.take(count as int) =~= placements@);
        }
        Ok(())
    }

    /// Load warriors for a battle. The first one lies at the start of the
    /// core. The others are spread over the core at equal distances, each
    /// moved on by chance within its stretch of the core.
    pub fn load_warriors(&mut self, warriors: &[Warrior]) -> (r: Result<(), Error>)
        requires
            old(self).wf(),
            old(self).spec_num_warriors() == 0,
        ensures
            final(self).wf(),
            final(self).spec_config() == old(self).spec_config(),
            final(self).spec_steps_taken() == old(self).spec_steps_taken(),
            match r {
                Err(error) => {
                    &&& load_error(old(self).spec_config(), warriors@) == Some(error)
                    &&& final(self).state() == old(self).state()
                    &&& final(self).spec_num_warriors() == 0
                },
                Ok(()) => {
                    &&& load_error(old(self).spec_config(), warriors@).is_none()
                    &&& exists|placements: Seq<i32>|
                        {
                            &&& placements.len() == warriors@.len()
                            &&& admissible(old(self).spec_config(), placements)
                            &&& #[trigger] final(self).loaded_from(
                                *old(self),
                                warriors@,
                                placements,
                            )
                        }
                },
            },
    {
        let mut source = Source::thread();
        self.load_warriors_from(warriors, &mut source)
    }

    /// Load warriors for a battle as `load_warriors` does, with chance
    /// from the given source, which stays of its kind.
    pub fn load_warriors_from(&mut self, warriors: &[Warrior], source: &mut Source) -> (r: Result<
        (),
        Error,
    >)
        requires
            old(self).wf(),
            old(self).spec_num_warriors() == 0,
        ensures
            final(self).wf(),
            final(self).spec_config() == old(self).spec_config(),
            final(self).spec_steps_taken() == old(self).spec_steps_taken(),
            final(source).is_seeded() == old(source).is_seeded(),
            match r {
                Err(error) => {
                    &&& load_error(old(self).spec_config(), warriors@) == Some(error)
                    &&& final(self).state() == old(self).state()
                    &&& final(self).spec_num_warriors() == 0
                },
                Ok(()) => {
                    &&& load_error(old(self).spec_config(), warriors@).is_none()
                    &&& exists|placements: Seq<i32>|
                        {
                            &&& placements.len() == warriors@.len()
                            &&& admissible(old(self).spec_config(), placements)
                            &&& #[trigger] final(self).loaded_from(
                                *old(self),
                                warriors@,
                                placements,
                            )
                        }
                },
            },
    {
        let count: usize = warriors.len();
        let mut placements: Vec<i32> = Vec::new();
        if count == 0 {
            proof {
                self.lemma_nothing_loaded();
                assert(self.queue().entries() =~= first_threads(
                    warriors@,
                    placements@,
                    self.size(),
                ));
                assert(self.loaded_from(*old(self), warriors@, placements@));
            }
            return Ok(());
        }
        let core_size: i32 = self.len();
        let stride: i32 = if count > core_size as usize {
            0
        } else {
            core_size / (count as i32)
        };
        proof {
            if count > core_size {
                vstd::arithmetic::div_mod::lemma_basic_div(core_size as int, count as int);
            }
        }
        if stride < self.config.min_distance {
            return Err(Error::MinDistanceTooLarge);
        }
        if let Err(error) = self.check_warriors(warriors) {
            return Err(error);
        }
        proof {
            // the first warrior has a length, which the limit admits
            lemma_no_error_each(warriors@, self.spec_config().max_warrior_length as int, 0);
        }
        let low: i32 = self.config.min_distance;
        let high: i32 = stride - self.config.max_warrior_length;
        if count >= 2 && low >= high {
            return Err(Error::MinDistanceTooLarge);
        }
        placements.push(0);
        let mut i: usize = 1;
        while i < count
            invariant
                1 <= i <= count,
                source.is_seeded() == old(source).is_seeded(),
                count == warriors@.len(),
                placements@.len() == i,
                placements@[0] == 0,
                count >= 2 ==> low < high,
                low == self.spec_config().min_distance,
                high == stride - self.spec_config().max_warrior_length,
                stride == spacing(self.spec_config(), count as int),
                core_size == self.spec_config().core_size,
                core_size > 0,
                0 <= stride <= core_size,
                stride > 0 ==> count <= core_size,
                self.spec_config().max_warrior_length >= 0,
                forall|k: int|
                    1 <= k < i ==> k * stride + low <= (#[trigger] placements@[k]) < k * stride
                        + high,
            decreases count - i,
        {
            let moved: i32 = source.pick(low, high);
            proof {
                let n = count as int;
                let s = stride as int;
                if s > 0 {
                    vstd::arithmetic::div_mod::lemma_fundamental_div_mod(core_size as int, n);
                    vstd::arithmetic::div_mod::lemma_mod_bound(core_size as int, n);
                    assert(n * s <= core_size) by (nonlinear_arith)
                        requires
                            core_size == n * s + (core_size as int % n),
                            0 <= core_size as int % n,
                    ;
                    assert(0 <= i * s && (i + 1) * s <= n * s && (i + 1) * s == i * s + s)
                        by (nonlinear_arith)
                        requires
                            1 <= i,
                            i + 1 <= n,
                            s > 0,
                    ;
                    assert((i as i64) * (stride as i64) == i * s);
                } else {
                    assert(i * s == 0 && (i + 1) * s == 0) by (nonlinear_arith)
                        requires
                            s == 0,
                    ;
                }
            }
            let start: i64 = if stride == 0 {
                0
            } else {
                (i as i64) * (stride as i64)
            };
            let place: i64 = start + moved as i64;
            placements.push(place as i32);
            i = i + 1;
        }
        proof {
            assert(admissible(self.spec_config(), placements@)) by {
                assert forall|k: int| 1 <= k < count implies k * spacing(
                    self.spec_config(),
                    count as int,
                ) + self.spec_config().min_distance <= (#[trigger] placements@[k]) < (k + 1)
                    * spacing(self.spec_config(), count as int)
                    - self.spec_config().max_warrior_length by {
                    assert((k + 1) * stride == k * stride + stride) by (nonlinear_arith);
                }
            }
        }
        let loaded = self.load_warriors_at(warriors, placements.as_slice());
        loaded
    }

    /// Run a single cycle of simulation: execute the instruction of the
    /// first thread in the queue and put the thread back where it goes on.
    pub fn step(&mut self) -> (r: StepResult)
        requires
            old(self).wf(),
            old(self).spec_steps_taken() < i32::MAX,
        ensures
            final(self).wf(),
            final(self).spec_config() == old(self).spec_config(),
            final(self).spec_num_warriors() == old(self).spec_num_warriors(),
            final(self).state() == old(self).state().step(
                old(self).spec_config().max_processes as int,
            ).0,
            r == old(self).state().step(old(self).spec_config().max_processes as int).1,
            r == StepResult::Halt <==> old(self).queue().entries().len() == 0,
            final(self).spec_steps_taken() == old(self).spec_steps_taken() + if r
                == StepResult::Halt {
                0int
            } else {
                1int
            },
    {
        let current_process = match self.process_queue.pop() {
            Ok(entry) => entry,
            Err(_) => {
                return StepResult::Halt;
            },
        };
        let pc = current_process.offset;
        let id = current_process.id;
        proof {
            use_type_invariant(&pc);
            assert(old(self).queue().entries()[0] == current_process);
        }
        self.steps_taken = self.steps_taken + 1;
        proof {
            assert forall|i: int| 0 <= i < self.queue().entries().len() implies {
                let entry = #[trigger] self.queue().entries()[i];
                &&& entry.offset.modulus() == self.size()
                &&& 0 <= entry.offset.spec_value() < self.size()
                &&& entry.id < self.spec_num_warriors()
                &&& entry.thread < self.queue().next_id(entry.id)
            } by {
                assert(self.queue().entries()[i] == old(self).queue().entries()[i + 1]);
            }
            assert(self.wf());
        }
        let result = execute(self, pc);
        match result {
            Err(err) => {
                proof {
                    assert(self.queue().thread_counts().contains_key(id));
                    assert(self.queue().thread_counts()[id] == count_of(
                        self.queue().entries(),
                        id,
                    ));
                    assert(self.queue().entries() == old(self).queue().entries().drop_first());
                }
                if self.process_queue.thread_count(id) < 1 {
                    StepResult::Continue(id, Some(err))
                } else {
                    // The thread ended, but the warrior is still alive
                    StepResult::Continue(id, None)
                }
            },
            Ok(result) => {
                // Either the opcode changed the program counter, or the
                // thread goes on in the next cell
                let distance = match result.program_counter_offset {
                    Some(distance) => distance,
                    None => self.offset(1),
                };
                if result.should_split {
                    // The old thread goes on behind the instruction, and the
                    // new one starts where the instruction points to
                    self.process_queue.push(id, pc + 1, Some(current_process.thread));
                    let room = self.config.max_processes > 0 && self.process_queue.thread_count(id)
                        < self.config.max_processes as usize;
                    if room {
                        self.process_queue.push(id, pc + distance, None);
                    }
                } else {
                    self.process_queue.push(id, pc + distance, Some(current_process.thread));
                }
                StepResult::Continue(id, None)
            },
        }
    }
}

} // verus!
