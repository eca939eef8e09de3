use corewars::load_file::{Field, Instruction, Opcode, Program, Warrior};
use corewars::mars::runs::Run;
use corewars::mars::{Core, CoreConfig, Error, StepResult};
use corewars::parser;

/// Create a core from a string
fn build_core(program: &str) -> Core {
    let (warrior, _) = parser::parse(program).expect("Failed to parse warrior");

    let mut core = Core::new(CoreConfig {
        max_cycles: 8000,
        ..CoreConfig::default()
    });
    core.load_warriors(&vec![warrior])
        .expect("Failed to load warrior");
    core
}

#[test]
fn new_core() {
    let core = Core::new(CoreConfig {
        core_size: 128,
        ..CoreConfig::default()
    });
    assert_eq!(core.len(), 128);
}

#[test]
fn load_program() {
    let mut core = Core::new(CoreConfig {
        core_size: 128,
        ..CoreConfig::default()
    });

    let (warrior, _) = parser::parse(
        "
        mov $1, #1
        jmp #-1, #2
        jmp #-1, #2
        ",
    )
    .expect("Failed to parse warrior");

    core.load_warriors(&vec![warrior])
        .expect("Failed to load warrior");
    let expected_core_size = 128_i32;
    assert_eq!(core.len(), expected_core_size);

    let jmp_target = (expected_core_size - 1).try_into().unwrap();

    assert_eq!(
        core.window(0, 4),
        &[
            Instruction::new(Opcode::Mov, Field::direct(1), Field::immediate(1)),
            Instruction::new(
                Opcode::Jmp,
                Field::immediate(jmp_target),
                Field::immediate(2)
            ),
            Instruction::new(
                Opcode::Jmp,
                Field::immediate(jmp_target),
                Field::immediate(2)
            ),
            Instruction::default(),
        ]
    );
}

#[test]
fn load_program_too_long() {
    let mut core = Core::new(CoreConfig {
        core_size: 128,
        ..CoreConfig::default()
    });
    let warrior = Warrior {
        program: Program {
            instructions: vec![
                Instruction::new(Opcode::Dat, Field::direct(1), Field::direct(1),);
                255
            ],
            origin: None,
        },
        ..Warrior::default()
    };

    let error = core
        .load_warriors(&vec![warrior])
        .expect_err("Should have failed to load warrior: too long");
    assert_eq!(error, Error::WarriorTooLong);

    assert_eq!(core.len(), 128);
    // nothing was written and nothing was queued
    assert!(core.window(0, 128).iter().all(|cell| *cell == Instruction::default()));
    assert_eq!(core.step(), StepResult::Halt);
}

#[test]
fn wrap_program_counter_on_overflow() {
    let mut core = build_core("mov $0, $1");

    for i in 0..core.len() {
        assert_eq!(core.program_counter().value(), i);
        core.step();
    }

    assert_eq!(core.program_counter().value(), 0);
    core.step();
    assert_eq!(core.program_counter().value(), 1);
}

#[test]
fn new_core_holds_the_default_instruction() {
    let core = Core::new(CoreConfig {
        core_size: 16,
        ..CoreConfig::default()
    });
    assert!(!core.is_empty());
    assert_eq!(core.steps_taken(), 0);
    for index in 0..16 {
        assert_eq!(
            *core.get(index),
            Instruction::new(Opcode::Dat, Field::direct(0), Field::direct(0))
        );
    }
}

#[test]
fn cells_are_found_modulo_the_size_of_the_core() {
    let mut core = Core::new(CoreConfig {
        core_size: 10,
        ..CoreConfig::default()
    });
    let nop = Instruction::new(Opcode::Nop, Field::immediate(1), Field::immediate(2));
    core.set(13, nop);
    assert_eq!(*core.get(3), nop);
    assert_eq!(*core.get(-7), nop);
    assert_eq!(*core.get(23), nop);
    *core.get_mut(-1) = nop;
    assert_eq!(*core.get(9), nop);
    assert_eq!(core.window(9, 10), &[nop]);
    assert_eq!(core.offset(-1).value(), 9);
}

#[test]
fn cells_fall_into_runs() {
    let mut core = Core::new(CoreConfig {
        core_size: 12,
        ..CoreConfig::default()
    });
    assert_eq!(
        core.runs(),
        vec![Run {
            start: 0,
            length: 12
        }]
    );
    let nop = Instruction::new(Opcode::Nop, Field::direct(0), Field::direct(0));
    let imp = Instruction::new(Opcode::Mov, Field::direct(0), Field::direct(1));
    core.set(0, nop);
    core.set(4, imp);
    core.set(5, imp);
    core.set(6, nop);
    core.set(11, nop);
    let runs: Vec<(usize, usize)> = core.runs().iter().map(|r| (r.start, r.length)).collect();
    assert_eq!(runs, vec![(0, 1), (1, 3), (4, 2), (6, 1), (7, 4), (11, 1)]);
    assert_eq!(runs.iter().map(|r| r.1).sum::<usize>(), 12);
}

#[test]
fn default_core_has_the_standard_limits() {
    let core = Core::default();
    assert_eq!(core.len(), 8000);
    assert_eq!(*core.config(), CoreConfig::default());
    assert_eq!(core.num_warriors(), 0);
    assert_eq!(core.process_queue().len(), 0);
}

#[test]
fn default_config_has_the_standard_limits() {
    let config = CoreConfig::default();
    assert_eq!(config.core_size, 8000);
    assert_eq!(config.max_cycles, 80000);
    assert_eq!(config.max_processes, 8000);
    assert_eq!(config.max_warrior_length, 100);
    assert_eq!(config.min_distance, 100);
    assert_eq!(config.p_space, 500);
    assert!(!config.log);
}
