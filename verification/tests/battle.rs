use std::collections::HashMap;

use corewars::load_file::{Field, Instruction, Modifier, Opcode, Program, Warrior};
use corewars::mars::chance::Source;
use corewars::mars::process::{Entry, Error as TaskError};
use corewars::mars::{BattleResult, Core, CoreConfig, Error, StepResult};
use corewars::parser;

fn warrior(source: &str) -> Warrior {
    parser::parse(source).expect("Failed to parse warrior").0
}

fn core_with(config: CoreConfig, sources: &[&str], placements: &[i32]) -> Core {
    let warriors: Vec<Warrior> = sources.iter().map(|source| warrior(source)).collect();
    let mut core = Core::new(config);
    core.load_warriors_at(&warriors, placements)
        .expect("Failed to load warriors");
    core
}

fn entries(core: &Core) -> Vec<Entry> {
    let queue = core.process_queue();
    (0..queue.len())
        .map(|place| *queue.get(place).unwrap())
        .collect()
}

fn imp() -> Instruction {
    Instruction {
        opcode: Opcode::Mov,
        modifier: Modifier::I,
        a_field: Field::direct(0),
        b_field: Field::direct(1),
    }
}

const DWARF: &str = "
    ADD #4, $3
    MOV $2, @2
    JMP $-2, $0
    DAT #0, #0
";

#[test]
fn imp_runs_round_the_core() {
    let config = CoreConfig {
        core_size: 128,
        ..CoreConfig::default()
    };
    let mut core = core_with(config, &["MOV $0, $1"], &[0]);
    for _ in 0..128 {
        assert_eq!(core.step(), StepResult::Continue(0, None));
    }
    assert_eq!(core.steps_taken(), 128);
    assert_eq!(core.program_counter().value(), 0);
    assert!(core.window(0, 128).iter().all(|cell| *cell == imp()));
    core.step();
    assert_eq!(core.steps_taken(), 129);
    assert_eq!(core.program_counter().value(), 1);
}

#[test]
fn dwarf_alone_wins() {
    let mut core = core_with(CoreConfig::default(), &[DWARF], &[0]);
    let results = core.run();
    assert_eq!(results, HashMap::from([(0, BattleResult::Win)]));
    assert_eq!(core.steps_taken(), 80_000);
    // every fourth cell was bombed, and the dwarf itself was spared
    assert_eq!(core.get(7).opcode, Opcode::Dat);
    assert_eq!(core.get(7999).opcode, Opcode::Dat);
    assert_eq!(core.get(0).opcode, Opcode::Add);
    assert_eq!(core.get(1).opcode, Opcode::Mov);
    assert_eq!(core.get(2).opcode, Opcode::Jmp);
}

#[test]
fn suicide_loses() {
    let mut core = core_with(CoreConfig::default(), &["DAT #0, #0"], &[0]);
    let at = core.offset(0);
    let results = core.run();
    assert_eq!(
        results,
        HashMap::from([(0, BattleResult::Loss(TaskError::ExecuteDat(at)))])
    );
    assert_eq!(core.steps_taken(), 1);

    let mut core = core_with(CoreConfig::default(), &["DAT #0, #0"], &[1234]);
    assert_eq!(
        core.step(),
        StepResult::Continue(0, Some(TaskError::ExecuteDat(core.offset(1234))))
    );
    assert_eq!(core.step(), StepResult::Halt);
    assert_eq!(core.steps_taken(), 1);
}

#[test]
fn no_warriors_is_no_battle() {
    let mut core = Core::new(CoreConfig::default());
    assert_eq!(core.load_warriors(&[]), Ok(()));
    let results = core.run();
    assert!(results.is_empty());
    assert_eq!(core.steps_taken(), 0);
    assert_eq!(core.step(), StepResult::Halt);
    assert_eq!(core.steps_taken(), 0);
}

#[test]
fn two_imps_chase_each_other() {
    let config = CoreConfig {
        core_size: 200,
        min_distance: 100,
        ..CoreConfig::default()
    };
    // chance has no place to put the second warrior
    let imps = vec![warrior("MOV $0, $1"), warrior("MOV $0, $1")];
    let mut core = Core::new(config);
    assert_eq!(
        core.load_warriors_from(&imps, &mut Source::seeded(1)),
        Err(Error::MinDistanceTooLarge)
    );
    assert_eq!(core.num_warriors(), 0);
    assert_eq!(core.process_queue().len(), 0);

    // placed by hand, neither imp ever meets a `DAT`
    assert_eq!(core.load_warriors_at(&imps, &[0, 100]), Ok(()));
    let results = core.run();
    assert_eq!(
        results,
        HashMap::from([(0, BattleResult::Tie), (1, BattleResult::Tie)])
    );
    assert_eq!(core.steps_taken(), 80_000);
}

#[test]
fn one_warrior_kills_the_other() {
    let config = CoreConfig {
        core_size: 200,
        ..CoreConfig::default()
    };
    // the dwarf bombs the cells 7, 11, 15, ...; the other warrior sits at 11
    let mut core = core_with(config, &[DWARF, "JMP $0"], &[0, 11]);
    let results = core.run();
    assert_eq!(results.len(), 2);
    assert_eq!(results[&0], BattleResult::Win);
    assert_eq!(
        results[&1],
        BattleResult::Loss(TaskError::ExecuteDat(core.offset(11)))
    );
    assert!(core.steps_taken() < 80_000);
    assert_eq!(core.thread_count(1), 0);
    assert_eq!(core.thread_count(0), 1);
}

#[test]
fn division_by_zero_loses() {
    let mut core = core_with(CoreConfig::default(), &["DIV.AB #0, $1\nDAT #4, #0"], &[0]);
    assert_eq!(
        core.step(),
        StepResult::Continue(0, Some(TaskError::DivideByZero))
    );
    let mut core = core_with(CoreConfig::default(), &["DIV.AB #0, $1\nDAT #4, #0"], &[0]);
    assert_eq!(
        core.run(),
        HashMap::from([(0, BattleResult::Loss(TaskError::DivideByZero))])
    );
    assert_eq!(core.steps_taken(), 1);
}

#[test]
fn division_writes_the_side_that_can_be_divided() {
    let mut core = core_with(
        CoreConfig::default(),
        &["DIV.F $1, $2\nDAT #9, #8\nDAT #0, #4"],
        &[0],
    );
    assert_eq!(
        core.step(),
        StepResult::Continue(0, Some(TaskError::DivideByZero))
    );
    assert_eq!(
        *core.get(2),
        Instruction::new(Opcode::Dat, Field::immediate(0), Field::immediate(2))
    );
}

#[test]
fn splitting_stops_at_the_limit() {
    let config = CoreConfig {
        max_processes: 3,
        ..CoreConfig::default()
    };
    let mut core = core_with(config, &["SPL $0, $0\nJMP $-1, $0"], &[0]);
    let mut most = 0;
    for step in 0..200 {
        assert_eq!(core.step(), StepResult::Continue(0, None));
        let threads = core.thread_count(0);
        assert!(threads <= 3);
        assert_eq!(threads, core.process_queue().len());
        if step >= 10 {
            assert_eq!(threads, 3);
        }
        most = most.max(threads);
    }
    assert_eq!(most, 3);
    assert_eq!(core.steps_taken(), 200);
}

#[test]
fn split_queues_the_old_thread_first() {
    let mut core = core_with(CoreConfig::default(), &["SPL $5, $0"], &[10]);
    assert_eq!(core.step(), StepResult::Continue(0, None));
    assert_eq!(
        entries(&core),
        vec![
            Entry {
                id: 0,
                thread: 0,
                offset: core.offset(11)
            },
            Entry {
                id: 0,
                thread: 1,
                offset: core.offset(15)
            },
        ]
    );
    assert_eq!(core.thread_count(0), 2);
}

#[test]
fn a_limit_of_one_thread_keeps_the_old_thread() {
    let config = CoreConfig {
        max_processes: 1,
        ..CoreConfig::default()
    };
    let mut core = core_with(config, &["SPL $5, $0"], &[0]);
    assert_eq!(core.step(), StepResult::Continue(0, None));
    assert_eq!(
        entries(&core),
        vec![Entry {
            id: 0,
            thread: 0,
            offset: core.offset(1)
        }]
    );
}

#[test]
fn jump_to_itself_runs_until_the_cycles_are_used_up() {
    let config = CoreConfig {
        max_cycles: 100,
        ..CoreConfig::default()
    };
    let mut core = core_with(config, &["JMP $0"], &[0]);
    for taken in 1..=5 {
        assert_eq!(core.step(), StepResult::Continue(0, None));
        assert_eq!(core.steps_taken(), taken);
        assert_eq!(core.program_counter().value(), 0);
    }
    let results = core.run();
    assert_eq!(core.steps_taken(), 100);
    assert_eq!(results, HashMap::from([(0, BattleResult::Win)]));
    // a battle that is over stays over
    assert_eq!(core.run(), HashMap::from([(0, BattleResult::Win)]));
    assert_eq!(core.steps_taken(), 100);
}

#[test]
fn warriors_take_turns() {
    let config = CoreConfig {
        core_size: 100,
        ..CoreConfig::default()
    };
    let nops = "for 10\nNOP 0\nrof";
    let mut core = core_with(config, &[nops, nops, nops], &[0, 30, 60]);
    for round in 0..5 {
        for id in 0..3 {
            assert_eq!(
                core.program_counter().value(),
                (id as i32 * 30 + round) % 100
            );
            assert_eq!(core.step(), StepResult::Continue(id, None));
        }
    }
    assert_eq!(core.steps_taken(), 15);
}

#[test]
fn the_last_of_several_warriors_wins() {
    let config = CoreConfig {
        core_size: 100,
        ..CoreConfig::default()
    };
    let mut core = core_with(
        config,
        &["NOP 0\nNOP 0\nDAT 0", "JMP 0", "DAT 0"],
        &[0, 30, 60],
    );
    let results = core.run();
    assert_eq!(
        results,
        HashMap::from([
            (0, BattleResult::Loss(TaskError::ExecuteDat(core.offset(2)))),
            (1, BattleResult::Win),
            (2, BattleResult::Loss(TaskError::ExecuteDat(core.offset(60)))),
        ])
    );
    // the battle ended when the second warrior had lost
    assert_eq!(core.steps_taken(), 6);
}

#[test]
fn several_survivors_tie() {
    let config = CoreConfig {
        core_size: 100,
        max_cycles: 50,
        ..CoreConfig::default()
    };
    let mut core = core_with(config, &["JMP 0", "DAT 0", "JMP 0"], &[0, 30, 60]);
    let results = core.run();
    assert_eq!(
        results,
        HashMap::from([
            (0, BattleResult::Tie),
            (1, BattleResult::Loss(TaskError::ExecuteDat(core.offset(30)))),
            (2, BattleResult::Tie),
        ])
    );
    assert_eq!(core.steps_taken(), 50);
}

#[test]
fn a_thread_may_end_while_its_warrior_lives() {
    let mut core = core_with(CoreConfig::default(), &["SPL 2\nDAT 0\nJMP 0"], &[0]);
    assert_eq!(core.step(), StepResult::Continue(0, None));
    assert_eq!(core.thread_count(0), 2);
    // the old thread runs into the `DAT`
    assert_eq!(core.step(), StepResult::Continue(0, None));
    assert_eq!(core.thread_count(0), 1);
    assert_eq!(core.step(), StepResult::Continue(0, None));
    assert_eq!(
        entries(&core),
        vec![Entry {
            id: 0,
            thread: 1,
            offset: core.offset(2)
        }]
    );
}

#[test]
fn steps_are_counted_one_by_one() {
    let mut core = core_with(CoreConfig::default(), &["NOP 0\nNOP 0\nDAT 0"], &[0]);
    let mut before = core.steps_taken();
    loop {
        let result = core.step();
        let after = core.steps_taken();
        if result == StepResult::Halt {
            assert_eq!(after, before);
            break;
        }
        assert_eq!(after, before + 1);
        before = after;
    }
    assert_eq!(before, 3);
}

#[test]
fn loading_queues_one_thread_for_each_warrior() {
    let config = CoreConfig {
        core_size: 1000,
        ..CoreConfig::default()
    };
    let sources = ["org 2\nNOP 0\nNOP 0\nNOP 0", "NOP 1", "NOP 2\nstart NOP 3\nend start"];
    let core = core_with(config, &sources, &[990, -5, 2500]);
    assert_eq!(core.num_warriors(), 3);
    assert_eq!(
        entries(&core),
        vec![
            Entry {
                id: 0,
                thread: 0,
                offset: core.offset(992)
            },
            Entry {
                id: 1,
                thread: 0,
                offset: core.offset(995)
            },
            Entry {
                id: 2,
                thread: 0,
                offset: core.offset(501)
            },
        ]
    );
    for id in 0..3 {
        assert_eq!(core.thread_count(id), 1);
    }
    assert_eq!(core.steps_taken(), 0);
    assert_eq!(core.get(995).a_field.value, 1);
    assert_eq!(core.get(500).a_field.value, 2);
    assert_eq!(core.get(501).a_field.value, 3);
}

#[test]
fn loading_reduces_the_numbers_and_wraps_round_the_core() {
    let config = CoreConfig {
        core_size: 10,
        min_distance: 0,
        ..CoreConfig::default()
    };
    let core = core_with(config, &["MOV -1, 25\nJMP #10, <-11\nNOP 9"], &[9]);
    assert_eq!(
        *core.get(9),
        Instruction::new(Opcode::Mov, Field::direct(9), Field::direct(5))
    );
    assert_eq!(core.get(0).a_field, Field::immediate(0));
    assert_eq!(core.get(0).b_field.value, 9);
    assert_eq!(core.get(1).opcode, Opcode::Nop);
    assert_eq!(core.get(1).a_field.value, 9);
    assert_eq!(*core.get(2), Instruction::default());
}

#[test]
fn chance_keeps_the_warriors_apart() {
    let warriors = vec![warrior(DWARF), warrior(DWARF), warrior("MOV 0, 1")];
    for seed in 0..50 {
        let mut core = Core::new(CoreConfig::default());
        core.load_warriors_from(&warriors, &mut Source::seeded(seed))
            .expect("Failed to load warriors");
        let found = entries(&core);
        assert_eq!(found.len(), 3);
        assert_eq!(found[0].offset.value(), 0);
        // 8000 / 3 is 2666
        for id in 1..3 {
            let start = found[id].offset.value();
            let low = id as i32 * 2666 + 100;
            let high = (id as i32 + 1) * 2666 - 100;
            assert!(low <= start && start < high);
            assert_eq!((found[id].id, found[id].thread), (id, 0));
        }
        assert_eq!(core.get(found[1].offset.value()).opcode, Opcode::Add);
        assert_eq!(core.get(found[2].offset.value()).opcode, Opcode::Mov);
    }
}

#[test]
fn chance_gives_more_than_one_place() {
    let warriors = vec![warrior(DWARF), warrior(DWARF)];
    let mut seeded = std::collections::HashSet::new();
    let mut unseeded = std::collections::HashSet::new();
    for seed in 0..20 {
        let mut core = Core::new(CoreConfig::default());
        core.load_warriors_from(&warriors, &mut Source::seeded(seed))
            .unwrap();
        seeded.insert(entries(&core)[1].offset.value());
        let mut core = Core::new(CoreConfig::default());
        core.load_warriors_from(&warriors, &mut Source::thread())
            .unwrap();
        unseeded.insert(entries(&core)[1].offset.value());
    }
    // the places are not all the least that is admitted
    assert!(seeded.len() > 1);
    assert!(unseeded.len() > 1);
    assert!(seeded.iter().any(|place| *place != 4100));
    assert!(unseeded.iter().any(|place| *place != 4100));
}

#[test]
fn the_same_seed_gives_the_same_places() {
    let warriors = vec![warrior(DWARF), warrior(DWARF)];
    let mut first = Core::new(CoreConfig::default());
    first
        .load_warriors_from(&warriors, &mut Source::seeded(94))
        .unwrap();
    let mut second = Core::new(CoreConfig::default());
    second
        .load_warriors_from(&warriors, &mut Source::seeded(94))
        .unwrap();
    assert_eq!(entries(&first), entries(&second));
    assert_eq!(first.run(), second.run());
    assert_eq!(first.steps_taken(), second.steps_taken());
}

#[test]
fn chance_of_the_thread_keeps_the_warriors_apart() {
    let warriors = vec![warrior(DWARF), warrior(DWARF)];
    for _ in 0..20 {
        let mut core = Core::new(CoreConfig::default());
        core.load_warriors(&warriors).expect("Failed to load warriors");
        let found = entries(&core);
        assert_eq!(found[0].offset.value(), 0);
        let start = found[1].offset.value();
        assert!(4100 <= start && start < 7900);
    }
}

#[test]
fn loading_errors() {
    let long = Warrior {
        program: Program {
            instructions: vec![Instruction::default(); 101],
            origin: None,
        },
        ..Warrior::default()
    };
    let fits = Warrior {
        program: Program {
            instructions: vec![Instruction::default(); 100],
            origin: None,
        },
        ..Warrior::default()
    };
    let unsupported = Warrior {
        program: Program {
            instructions: vec![
                Instruction::default(),
                Instruction::new(Opcode::Ldp, Field::direct(0), Field::direct(0)),
            ],
            origin: None,
        },
        ..Warrior::default()
    };
    let nowhere = Warrior {
        program: Program {
            instructions: vec![Instruction::default()],
            origin: Some(usize::MAX),
        },
        ..Warrior::default()
    };

    let mut core = Core::new(CoreConfig::default());
    assert_eq!(core.load_warriors(&[fits.clone()]), Ok(()));
    let mut core = Core::new(CoreConfig::default());
    assert_eq!(core.load_warriors(&[long.clone()]), Err(Error::WarriorTooLong));
    assert_eq!(
        core.load_warriors(&[fits.clone(), unsupported.clone()]),
        Err(Error::UnsupportedOpcode)
    );
    assert_eq!(
        core.load_warriors(&[nowhere.clone(), long.clone()]),
        Err(Error::InvalidOrigin)
    );
    assert_eq!(
        core.load_warriors_at(&[fits.clone(), long.clone()], &[0, 4000]),
        Err(Error::WarriorTooLong)
    );
    assert_eq!(core.check_warrior(&long), Err(Error::WarriorTooLong));
    assert_eq!(core.check_warrior(&fits), Ok(()));
    assert_eq!(
        core.check_warriors(&[fits.clone(), nowhere.clone(), unsupported.clone()]),
        Err(Error::InvalidOrigin)
    );
    // nothing was loaded by the calls that failed
    assert_eq!(core.num_warriors(), 0);
    assert_eq!(core.process_queue().len(), 0);
    assert!(core.window(0, 8000).iter().all(|cell| *cell == Instruction::default()));

    // 81 warriors lie 98 cells apart, which is less than the distance asked for
    let many = vec![fits.clone(); 81];
    assert_eq!(core.load_warriors(&many), Err(Error::MinDistanceTooLarge));
    // the distance comes before the warriors
    let many_long = vec![long.clone(); 81];
    assert_eq!(core.load_warriors(&many_long), Err(Error::MinDistanceTooLarge));
    // 40 warriors lie 200 cells apart, and chance has no room left
    let some = vec![fits.clone(); 40];
    assert_eq!(core.load_warriors(&some), Err(Error::MinDistanceTooLarge));
    let some = vec![fits.clone(); 39];
    assert_eq!(core.load_warriors(&some), Ok(()));
    assert_eq!(core.num_warriors(), 39);
}

#[test]
fn normalize_reduces_both_numbers() {
    let core = Core::new(CoreConfig {
        core_size: 100,
        ..CoreConfig::default()
    });
    let reduced = core.normalize(Instruction::new(
        Opcode::Mov,
        Field::immediate(-1),
        Field::direct(250),
    ));
    assert_eq!(
        reduced,
        Instruction {
            opcode: Opcode::Mov,
            modifier: Modifier::AB,
            a_field: Field::immediate(99),
            b_field: Field::direct(50),
        }
    );
}
