//! What holds of every core: facts about the queue, the thread counts and
//! the number of steps, proved from the definitions of the other modules.

use vstd::prelude::*;

use vstd::std_specs::ops::AddSpec;

use crate::load_file::{AddressMode, Field, Instruction, Modifier, Offset, Opcode, Warrior};
use crate::mars::address::{resolve, Side};
use crate::mars::opcode::{committed, fails_under, spec_execute, Executed};
use crate::mars::process::Error;
use crate::mars::battle::{battle, BattleResult};
use crate::mars::process::{count_of, lemma_count_drop_first, Entry};
use crate::mars::{first_thread, Core, CoreConfig, State, StepResult, WarriorID};

verus! {

/// The sum of the thread counts of the warriors `0` to `num_warriors - 1`.
pub open spec fn total_threads(counts: Map<WarriorID, usize>, num_warriors: nat) -> nat
    decreases num_warriors,
{
    if num_warriors == 0 {
        0
    } else {
        total_threads(counts, (num_warriors - 1) as nat) + counts[(num_warriors
            - 1) as usize] as nat
    }
}

/// How many of the entries belong to one of the warriors `0` to
/// `num_warriors - 1`.
pub open spec fn entries_of_first(entries: Seq<Entry>, num_warriors: nat) -> nat
    decreases num_warriors,
{
    if num_warriors == 0 {
        0
    } else {
        entries_of_first(entries, (num_warriors - 1) as nat) + count_of(
            entries,
            (num_warriors - 1) as usize,
        )
    }
}

/// One more entry makes one more among the entries of the first warriors
/// if it belongs to one of them, and leaves their number otherwise.
proof fn lemma_entries_of_first_push(entries: Seq<Entry>, num_warriors: nat)
    requires
        entries.len() > 0,
        num_warriors <= usize::MAX,
    ensures
        entries_of_first(entries, num_warriors) == entries_of_first(
            entries.drop_last(),
            num_warriors,
        ) + if entries.last().id < num_warriors {
            1nat
        } else {
            0nat
        },
    decreases num_warriors,
{
    if num_warriors > 0 {
        lemma_entries_of_first_push(entries, (num_warriors - 1) as nat);
    }
}

/// Where every entry belongs to one of the first warriors, the entries of
/// these warriors are all the entries.
proof fn lemma_entries_of_first_is_len(entries: Seq<Entry>, num_warriors: nat)
    requires
        num_warriors <= usize::MAX,
        forall|i: int| 0 <= i < entries.len() ==> (#[trigger] entries[i]).id < num_warriors,
    ensures
        entries_of_first(entries, num_warriors) == entries.len(),
    decreases entries.len(),
{
    if entries.len() == 0 {
        assert(entries =~= Seq::<Entry>::empty());
        lemma_entries_of_first_none(num_warriors);
    } else {
        assert forall|i: int| 0 <= i < entries.drop_last().len() implies (
        #[trigger] entries.drop_last()[i]).id < num_warriors by {
            assert(entries.drop_last()[i] == entries[i]);
        }
        lemma_entries_of_first_is_len(entries.drop_last(), num_warriors);
        lemma_entries_of_first_push(entries, num_warriors);
        assert(entries.last() == entries[entries.len() - 1]);
    }
}

/// Without entries no warrior has one.
proof fn lemma_entries_of_first_none(num_warriors: nat)
    ensures
        entries_of_first(Seq::<Entry>::empty(), num_warriors) == 0,
    decreases num_warriors,
{
    if num_warriors > 0 {
        lemma_entries_of_first_none((num_warriors - 1) as nat);
    }
}

/// Where the counts are right for the first warriors, their sum is the
/// number of entries of these warriors.
proof fn lemma_total_is_entries_of_first(
    counts: Map<WarriorID, usize>,
    entries: Seq<Entry>,
    num_warriors: nat,
)
    requires
        num_warriors <= usize::MAX,
        forall|id: WarriorID| id < num_warriors ==> #[trigger] counts[id] == count_of(entries, id),
    ensures
        total_threads(counts, num_warriors) == entries_of_first(entries, num_warriors),
    decreases num_warriors,
{
    if num_warriors > 0 {
        lemma_total_is_entries_of_first(counts, entries, (num_warriors - 1) as nat);
    }
}

/// In every core the thread counts of the warriors add up to the length of
/// the queue.
pub proof fn lemma_thread_counts_add_up(core: Core)
    requires
        core.wf(),
    ensures
        total_threads(core.queue().thread_counts(), core.spec_num_warriors())
            == core.queue().entries().len(),
{
    let entries = core.queue().entries();
    let counts = core.queue().thread_counts();
    let n = core.spec_num_warriors();
    assert forall|id: WarriorID| id < n implies #[trigger] counts[id] == count_of(entries, id) by {
        assert(counts.contains_key(id));
    }
    lemma_total_is_entries_of_first(counts, entries, n);
    lemma_entries_of_first_is_len(entries, n);
}

/// A step that executes a thread takes the number of steps up by one, and
/// one that finds no thread leaves the state as it is.
pub proof fn lemma_step_counts(state: State, max_processes: int)
    ensures
        state.step(max_processes).1 == StepResult::Halt ==> state.step(max_processes).0 == state,
        state.step(max_processes).1 != StepResult::Halt ==> state.step(
            max_processes,
        ).0.steps_taken == state.steps_taken + 1,
        state.step(max_processes).1 == StepResult::Halt <==> state.entries.len() == 0,
{
}

/// In a battle the number of steps never goes down, and it goes up to
/// `max_cycles` at most.
pub proof fn lemma_battle_counts(
    state: State,
    losses: Map<WarriorID, BattleResult>,
    config: CoreConfig,
    num_warriors: nat,
)
    ensures
        battle(state, losses, config, num_warriors).0.steps_taken >= state.steps_taken,
        state.steps_taken <= config.max_cycles ==> battle(
            state,
            losses,
            config,
            num_warriors,
        ).0.steps_taken <= config.max_cycles,
    decreases config.max_cycles - state.steps_taken,
{
    if state.steps_taken < config.max_cycles {
        let (next, result) = state.step(config.max_processes as int);
        match result {
            StepResult::Halt => {},
            StepResult::Continue(id, error) => {
                let after = match error {
                    Some(error) => losses.insert(id, BattleResult::Loss(error)),
                    None => losses,
                };
                lemma_battle_counts(next, after, config, num_warriors);
            },
        }
    }
}

/// After loading, each warrior has exactly one thread in the queue: its
/// first, at the origin of the warrior as it lies in the core.
pub proof fn lemma_one_thread_each(
    core: Core,
    before: Core,
    warriors: Seq<Warrior>,
    placements: Seq<i32>,
    id: WarriorID,
)
    requires
        before.wf(),
        warriors.len() == placements.len(),
        core.loaded_from(before, warriors, placements),
        id < warriors.len(),
    ensures
        count_of(core.queue().entries(), id) == 1,
        core.queue().entries()[id as int].id == id,
        core.queue().entries()[id as int].thread == 0,
        core.queue().entries()[id as int].offset == Offset::spec_new(
            placements[id as int] + warriors[id as int].program.spec_origin(),
            before.size(),
        ),
        core.queue().entries()[id as int].offset.spec_value() == (placements[id as int]
            + warriors[id as int].program.spec_origin()) % before.size(),
{
    let entries = core.queue().entries();
    assert(entries[id as int] == first_thread(
        id as int,
        warriors[id as int],
        placements[id as int] as int,
        before.size(),
    ));
    lemma_count_of_numbered(entries, id);
}

/// Where each entry belongs to the warrior whose number is its place in
/// the queue, each warrior has one entry.
proof fn lemma_count_of_numbered(entries: Seq<Entry>, id: WarriorID)
    requires
        forall|i: int| 0 <= i < entries.len() ==> (#[trigger] entries[i]).id == i,
    ensures
        count_of(entries, id) == if id < entries.len() {
            1nat
        } else {
            0nat
        },
    decreases entries.len(),
{
    if entries.len() > 0 {
        assert forall|i: int| 0 <= i < entries.drop_last().len() implies (
        #[trigger] entries.drop_last()[i]).id == i by {
            assert(entries.drop_last()[i] == entries[i]);
        }
        lemma_count_of_numbered(entries.drop_last(), id);
        assert(entries.last() == entries[entries.len() - 1]);
    }
}

/// How many threads a warrior may have: `max_processes`, and one in any
/// case.
pub open spec fn thread_limit(max_processes: int) -> int {
    if max_processes > 1 {
        max_processes
    } else {
        1
    }
}

/// No warrior has more threads in the queue than it may have.
pub open spec fn within_limit(entries: Seq<Entry>, max_processes: int) -> bool {
    forall|id: WarriorID| #[trigger] count_of(entries, id) <= thread_limit(max_processes)
}

/// One more entry makes one more for its warrior and leaves the others.
pub proof fn lemma_count_push(entries: Seq<Entry>, entry: Entry, id: WarriorID)
    ensures
        count_of(entries.push(entry), id) == count_of(entries, id) + if entry.id == id {
            1nat
        } else {
            0nat
        },
{
    assert(entries.push(entry).drop_last() =~= entries);
}

/// A step leaves no warrior with more threads than it may have, if none
/// had more before.
pub proof fn lemma_step_keeps_limit(state: State, max_processes: int)
    requires
        within_limit(state.entries, max_processes),
    ensures
        within_limit(state.step(max_processes).0.entries, max_processes),
{
    if state.entries.len() > 0 {
        let entry = state.entries[0];
        let rest = state.entries.drop_first();
        let after = state.step(max_processes).0.entries;
        assert forall|id: WarriorID| #[trigger]
            count_of(after, id) <= thread_limit(max_processes) by {
            lemma_count_drop_first(state.entries, id);
            assert(count_of(state.entries, id) <= thread_limit(max_processes));
            if after != rest {
                let first = after[rest.len() as int];
                let continued = rest.push(first);
                lemma_count_push(rest, first, id);
                if after != continued {
                    let second = after[rest.len() as int + 1];
                    assert(after =~= continued.push(second));
                    lemma_count_push(continued, second, id);
                    lemma_count_push(rest, first, entry.id);
                } else {
                    assert(after =~= rest.push(first));
                }
            }
        }
    }
}

/// A battle leaves no warrior with more threads than it may have, if none
/// had more before.
pub proof fn lemma_battle_keeps_limit(
    state: State,
    losses: Map<WarriorID, BattleResult>,
    config: CoreConfig,
    num_warriors: nat,
)
    requires
        within_limit(state.entries, config.max_processes as int),
    ensures
        within_limit(
            battle(state, losses, config, num_warriors).0.entries,
            config.max_processes as int,
        ),
    decreases config.max_cycles - state.steps_taken,
{
    if state.steps_taken < config.max_cycles {
        let (next, result) = state.step(config.max_processes as int);
        lemma_step_keeps_limit(state, config.max_processes as int);
        match result {
            StepResult::Halt => {},
            StepResult::Continue(id, error) => {
                let after = match error {
                    Some(error) => losses.insert(id, BattleResult::Loss(error)),
                    None => losses,
                };
                lemma_battle_keeps_limit(next, after, config, num_warriors);
            },
        }
    }
}

/// After loading, no warrior has more threads than it may have.
pub proof fn lemma_loading_keeps_limit(
    core: Core,
    before: Core,
    warriors: Seq<Warrior>,
    placements: Seq<i32>,
    max_processes: int,
)
    requires
        core.loaded_from(before, warriors, placements),
    ensures
        within_limit(core.queue().entries(), max_processes),
{
    assert forall|id: WarriorID| #[trigger]
        count_of(core.queue().entries(), id) <= thread_limit(max_processes) by {
        lemma_count_of_numbered(core.queue().entries(), id);
    }
}

/// Where no warrior has more threads than it may have, the entries of the
/// first warriors are no more than these warriors may have together.
proof fn lemma_entries_of_first_bounded(entries: Seq<Entry>, num_warriors: nat, max_processes: int)
    requires
        within_limit(entries, max_processes),
    ensures
        entries_of_first(entries, num_warriors) <= num_warriors * thread_limit(max_processes),
    decreases num_warriors,
{
    if num_warriors > 0 {
        lemma_entries_of_first_bounded(entries, (num_warriors - 1) as nat, max_processes);
        assert(count_of(entries, (num_warriors - 1) as usize) <= thread_limit(max_processes));
        assert(num_warriors * thread_limit(max_processes) == (num_warriors - 1) * thread_limit(
            max_processes,
        ) + thread_limit(max_processes)) by (nonlinear_arith);
    }
}

/// The queue of a core in which no warrior has more threads than it may
/// have is no longer than the warriors may have threads together.
pub proof fn lemma_queue_is_bounded(core: Core)
    requires
        core.wf(),
        within_limit(core.queue().entries(), core.spec_config().max_processes as int),
    ensures
        core.queue().entries().len() <= core.spec_num_warriors() * thread_limit(
            core.spec_config().max_processes as int,
        ),
{
    lemma_entries_of_first_is_len(core.queue().entries(), core.spec_num_warriors());
    lemma_entries_of_first_bounded(
        core.queue().entries(),
        core.spec_num_warriors(),
        core.spec_config().max_processes as int,
    );
}

/// Executing a `DAT` ends the thread, whatever else the instruction holds.
pub proof fn lemma_dat_ends_the_thread(cells: Seq<Instruction>, pc: int)
    requires
        0 <= pc < cells.len(),
        cells[pc].opcode == Opcode::Dat,
    ensures
        spec_execute(cells, pc).1 == Err::<Executed, Error>(
            Error::ExecuteDat(Offset::spec_new(pc, cells.len() as int)),
        ),
{
}

/// A `DAT` whose fields are immediate leaves the cells as they are.
pub proof fn lemma_dat_of_numbers_leaves_the_cells(cells: Seq<Instruction>, pc: int)
    requires
        0 <= pc < cells.len(),
        cells[pc].opcode == Opcode::Dat,
        cells[pc].a_field.address_mode == AddressMode::Immediate,
        cells[pc].b_field.address_mode == AddressMode::Immediate,
    ensures
        spec_execute(cells, pc).0 == cells,
{
}

/// A division whose divisor is zero on one side only writes the other
/// side and fails: here the divisor, the B-operand, holds zero as its
/// A-number.
pub proof fn lemma_division_by_zero_writes_the_other_side(
    cells: Seq<Instruction>,
    at: int,
    a: Instruction,
    b: Instruction,
)
    requires
        0 <= at < cells.len(),
        b.number(Side::A, cells.len() as int) == 0,
        b.number(Side::B, cells.len() as int) != 0,
    ensures
        fails_under(Opcode::Div, Modifier::F, b, cells.len() as int),
        committed(cells, at, Opcode::Div, Modifier::F, a, b) == cells.update(
            at,
            cells[at].with_number(
                Side::B,
                (a.number(Side::B, cells.len() as int) / b.number(Side::B, cells.len() as int))
                    % (cells.len() as int),
            ),
        ),
{
}

/// The instruction that copies itself to the next cell.
pub open spec fn imp() -> Instruction {
    Instruction {
        opcode: Opcode::Mov,
        modifier: Modifier::I,
        a_field: Field { address_mode: AddressMode::Direct, value: 0 },
        b_field: Field { address_mode: AddressMode::Direct, value: 1 },
    }
}

/// Executing `MOV.I $0, $1` writes the instruction into the next cell,
/// behind the last cell into the first, and lets the thread go on there.
pub proof fn lemma_imp_moves_on(cells: Seq<Instruction>, pc: int)
    requires
        0 <= pc < cells.len(),
        cells[pc] == imp(),
    ensures
        spec_execute(cells, pc) == (
            cells.update((pc + 1) % (cells.len() as int), imp()),
            Ok::<Executed, Error>(Executed { program_counter_offset: None, should_split: false }),
        ),
{
    let size = cells.len() as int;
    vstd::arithmetic::div_mod::lemma_small_mod(pc as nat, size as nat);
    vstd::arithmetic::div_mod::lemma_add_mod_noop_right(pc, 1, size);
    assert(0int % size == 0);
    assert(resolve(cells, pc, imp().a_field) == (cells, pc, imp()));
}

/// A thread that executes `JMP $0` stays where it is: the step is no halt,
/// and cells and queue are afterwards as they were before.
pub proof fn lemma_jump_to_itself_stays(state: State, max_processes: int)
    requires
        state.entries.len() == 1,
        state.entries[0].offset.modulus() == state.cells.len(),
        0 <= state.entries[0].offset.spec_value() < state.cells.len(),
        ({
            let cell = state.cells[state.entries[0].offset.spec_value()];
            &&& cell.opcode == Opcode::Jmp
            &&& cell.a_field == (Field { address_mode: AddressMode::Direct, value: 0 })
            &&& cell.b_field.address_mode == AddressMode::Direct
        }),
    ensures
        state.step(max_processes).1 == StepResult::Continue(state.entries[0].id, None),
        state.step(max_processes).0.cells == state.cells,
        state.step(max_processes).0.entries == state.entries,
        state.step(max_processes).0.steps_taken == state.steps_taken + 1,
{
    let entry = state.entries[0];
    let pc = entry.offset.spec_value();
    let size = state.cells.len() as int;
    vstd::arithmetic::div_mod::lemma_small_mod(pc as nat, size as nat);
    assert(0int % size == 0);
    let cell = state.cells[pc];
    assert(resolve(state.cells, pc, cell.a_field) == (state.cells, pc, state.cells[pc]));
    let (after, outcome) = spec_execute(state.cells, pc);
    assert(after == state.cells);
    assert(outcome == Ok::<Executed, Error>(
        Executed {
            program_counter_offset: Some(Offset::spec_new(0, size)),
            should_split: false,
        },
    ));
    assert(entry.offset.add_spec(Offset::spec_new(0, size)) == entry.offset);
    assert(state.entries.drop_first().push(entry) =~= state.entries);
}

/// A single warrior whose only thread executes `JMP $0` is stepped until
/// the cycles are used up, and has not lost then.
pub proof fn lemma_jump_to_itself_uses_up_the_cycles(
    state: State,
    losses: Map<WarriorID, BattleResult>,
    config: CoreConfig,
)
    requires
        state.steps_taken <= config.max_cycles,
        state.entries.len() == 1,
        state.entries[0].offset.modulus() == state.cells.len(),
        0 <= state.entries[0].offset.spec_value() < state.cells.len(),
        ({
            let cell = state.cells[state.entries[0].offset.spec_value()];
            &&& cell.opcode == Opcode::Jmp
            &&& cell.a_field == (Field { address_mode: AddressMode::Direct, value: 0 })
            &&& cell.b_field.address_mode == AddressMode::Direct
        }),
    ensures
        battle(state, losses, config, 1).0.steps_taken == config.max_cycles,
        battle(state, losses, config, 1).0.cells == state.cells,
        battle(state, losses, config, 1).0.entries == state.entries,
        battle(state, losses, config, 1).1 == losses,
    decreases config.max_cycles - state.steps_taken,
{
    if state.steps_taken < config.max_cycles {
        lemma_jump_to_itself_stays(state, config.max_processes as int);
        let next = state.step(config.max_processes as int).0;
        lemma_jump_to_itself_uses_up_the_cycles(next, losses, config);
    }
}

/// The state after a number of steps.
pub open spec fn stepped(state: State, max_processes: int, steps: nat) -> State
    decreases steps,
{
    if steps == 0 {
        state
    } else {
        stepped(state, max_processes, (steps - 1) as nat).step(max_processes).0
    }
}

/// A single thread that executes `MOV.I $0, $1` writes the instruction
/// into the next cell and goes on there.
pub proof fn lemma_imp_steps(state: State, max_processes: int)
    requires
        state.entries.len() == 1,
        state.entries[0].offset.modulus() == state.cells.len(),
        state.cells.len() <= i32::MAX,
        0 <= state.entries[0].offset.spec_value() < state.cells.len(),
        state.cells[state.entries[0].offset.spec_value()] == imp(),
    ensures
        ({
            let entry = state.entries[0];
            let next = (entry.offset.spec_value() + 1) % (state.cells.len() as int);
            let after = state.step(max_processes).0;
            &&& state.step(max_processes).1 == StepResult::Continue(entry.id, None)
            &&& after.cells == state.cells.update(next, imp())
            &&& after.entries == seq![
                Entry {
                    id: entry.id,
                    thread: entry.thread,
                    offset: Offset::spec_new(next, state.cells.len() as int),
                },
            ]
            &&& after.steps_taken == state.steps_taken + 1
        }),
{
    let entry = state.entries[0];
    let pc = entry.offset.spec_value();
    let size = state.cells.len() as int;
    lemma_imp_moves_on(state.cells, pc);
    vstd::arithmetic::div_mod::lemma_mod_bound(1, size);
    vstd::arithmetic::div_mod::lemma_mod_bound(pc + 1, size);
    vstd::arithmetic::div_mod::lemma_add_mod_noop_right(pc, 1, size);
    vstd::arithmetic::div_mod::lemma_mod_twice(pc + 1, size);
    let target = entry.offset.add_spec(Offset::spec_new(1, size));
    assert(target == Offset::spec_new((pc + 1) % size, size));
    assert(state.entries.drop_first().push(
        Entry { id: entry.id, thread: entry.thread, offset: target },
    ) =~= seq![Entry { id: entry.id, thread: entry.thread, offset: target }]);
}

/// A single thread that begins at the first cell with `MOV.I $0, $1` has
/// after `steps` steps written the instruction into each cell up to the
/// one where it stands, and stands in the cell `steps` modulo the size of
/// the core: after as many steps as the core has cells, in the first cell
/// again.
pub proof fn lemma_imp_runs_round_the_core(state: State, max_processes: int, steps: nat)
    requires
        state.entries.len() == 1,
        state.entries[0].offset == Offset::spec_new(0, state.cells.len() as int),
        0 < state.cells.len() <= i32::MAX,
        state.cells[0] == imp(),
        steps <= state.cells.len(),
    ensures
        ({
            let after = stepped(state, max_processes, steps);
            let size = state.cells.len() as int;
            &&& after.cells.len() == size
            &&& after.entries.len() == 1
            &&& after.entries[0].offset == Offset::spec_new(steps as int, size)
            &&& after.steps_taken == state.steps_taken + steps
            &&& forall|k: int| 0 <= k <= steps && k < size ==> after.cells[k] == imp()
            &&& forall|k: int| steps < k < size ==> after.cells[k] == state.cells[k]
        }),
    decreases steps,
{
    let size = state.cells.len() as int;
    if steps > 0 {
        lemma_imp_runs_round_the_core(state, max_processes, (steps - 1) as nat);
        let before = stepped(state, max_processes, (steps - 1) as nat);
        vstd::arithmetic::div_mod::lemma_small_mod((steps - 1) as nat, size as nat);
        vstd::arithmetic::div_mod::lemma_mod_bound(steps as int, size);
        if steps < size {
            vstd::arithmetic::div_mod::lemma_small_mod(steps, size as nat);
        } else {
            vstd::arithmetic::div_mod::lemma_mod_self_0(size);
        }
        lemma_imp_steps(before, max_processes);
    } else {
        vstd::arithmetic::div_mod::lemma_small_mod(0, size as nat);
    }
}

} // verus!
