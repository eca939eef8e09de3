//! Running a battle to its end and telling what became of each warrior.

use std::collections::HashMap;

use vstd::prelude::*;

use crate::mars::process;
use crate::mars::{Core, CoreConfig, State, StepResult, WarriorID};

verus! {

broadcast use vstd::std_specs::hash::group_hash_axioms;

/// What became of a warrior in a battle.
#[derive(Copy, Clone, Debug, PartialEq, Eq, Structural)]
pub enum BattleResult {
    /// The warrior alone survived.
    Win,
    /// The last thread of the warrior ended, for the given reason.
    Loss(process::Error),
    /// The warrior survived, and so did another.
    Tie,
}

/// Whether a battle of several warriors is decided: at most one of them
/// has not lost.
pub open spec fn decided(losses: Map<WarriorID, BattleResult>, num_warriors: nat) -> bool {
    num_warriors > 1 && losses.len() + 1 >= num_warriors
}

/// The course of a battle from a state on, with the losses so far: the
/// state in which it ends, and the losses then.
///
/// Steps are executed until `max_cycles` steps were taken in all, no thread
/// is left, or the battle is decided. A warrior has lost when a step reports
/// the end of its last thread.
pub open spec fn battle(
    state: State,
    losses: Map<WarriorID, BattleResult>,
    config: CoreConfig,
    num_warriors: nat,
) -> (State, Map<WarriorID, BattleResult>)
    decreases config.max_cycles - state.steps_taken,
{
    if state.steps_taken >= config.max_cycles {
        (state, losses)
    } else {
        let (next, result) = state.step(config.max_processes as int);
        match result {
            StepResult::Halt => (state, losses),
            StepResult::Continue(id, error) => {
                let losses = match error {
                    Some(error) => losses.insert(id, BattleResult::Loss(error)),
                    None => losses,
                };
                if decided(losses, num_warriors) {
                    (next, losses)
                } else {
                    battle(next, losses, config, num_warriors)
                }
            },
        }
    }
}

/// What became of each warrior, given those that lost: the others have
/// tied if there are several of them, and a single one has won.
pub open spec fn outcomes(losses: Map<WarriorID, BattleResult>, num_warriors: nat) -> Map<
    WarriorID,
    BattleResult,
> {
    Map::new(
        |id: WarriorID| id < num_warriors,
        |id: WarriorID|
            if losses.contains_key(id) {
                losses[id]
            } else if losses.len() + 1 < num_warriors {
                BattleResult::Tie
            } else {
                BattleResult::Win
            },
    )
}

impl Core {
    /// Run a core to completion. Reports what happened to each warrior.
    pub fn run(&mut self) -> (results: HashMap<WarriorID, BattleResult>)
        requires
            old(self).wf(),
        ensures
            final(self).wf(),
            final(self).spec_config() == old(self).spec_config(),
            final(self).spec_num_warriors() == old(self).spec_num_warriors(),
            final(self).state() == battle(
                old(self).state(),
                Map::empty(),
                old(self).spec_config(),
                old(self).spec_num_warriors(),
            ).0,
            results@ == outcomes(
                battle(
                    old(self).state(),
                    Map::empty(),
                    old(self).spec_config(),
                    old(self).spec_num_warriors(),
                ).1,
                old(self).spec_num_warriors(),
            ),
    {
        let mut results: HashMap<WarriorID, BattleResult> = HashMap::new();
        let ghost start = battle(
            old(self).state(),
            Map::empty(),
            old(self).spec_config(),
            old(self).spec_num_warriors(),
        );
        while self.steps_taken < self.config.max_cycles
            invariant_except_break
                start == battle(
                    self.state(),
                    results@,
                    self.spec_config(),
                    self.spec_num_warriors(),
                ),
            invariant
                self.wf(),
                self.spec_config() == old(self).spec_config(),
                self.spec_num_warriors() == old(self).spec_num_warriors(),
                forall|id: WarriorID| #[trigger]
                    results@.contains_key(id) ==> id < self.spec_num_warriors(),
            ensures
                start == (self.state(), results@),
            decreases self.spec_config().max_cycles - self.spec_steps_taken(),
        {
            let ghost before = self.state();
            match self.step() {
                StepResult::Halt => {
                    break ;
                },
                StepResult::Continue(id, error) => {
                    proof {
                        assert(before.entries[0].id == id);
                    }
                    if let Some(error) = error {
                        results.insert(id, BattleResult::Loss(error));
                    }
                    // With more than one warrior battling and a single
                    // survivor, the battle is over
                    if self.num_warriors > 1 && results.len() >= self.num_warriors - 1 {
                        break ;
                    }
                },
            }
        }
        let ghost losses = results@;
        let tied: bool = self.num_warriors > 1 && results.len() < self.num_warriors - 1;
        let mut id: usize = 0;
        while id < self.num_warriors
            invariant
                0 <= id <= self.spec_num_warriors(),
                tied == (losses.len() + 1 < self.spec_num_warriors()),
                forall|k: WarriorID| #[trigger]
                    losses.contains_key(k) ==> k < self.spec_num_warriors(),
                results@ == Map::new(
                    |k: WarriorID| losses.contains_key(k) || k < id,
                    |k: WarriorID|
                        if losses.contains_key(k) {
                            losses[k]
                        } else if tied {
                            BattleResult::Tie
                        } else {
                            BattleResult::Win
                        },
                ),
            decreases self.spec_num_warriors() - id,
        {
            if !results.contains_key(&id) {
                if tied {
                    results.insert(id, BattleResult::Tie);
                } else {
                    results.insert(id, BattleResult::Win);
                }
            }
            id = id + 1;
            proof {
                assert(results@ =~= Map::new(
                    |k: WarriorID| losses.contains_key(k) || k < id,
                    |k: WarriorID|
                        if losses.contains_key(k) {
                            losses[k]
                        } else if tied {
                            BattleResult::Tie
                        } else {
                            BattleResult::Win
                        },
                ));
            }
        }
        proof {
            assert(results@ =~= outcomes(losses, self.spec_num_warriors()));
        }
        results
    }
}

} // verus!
