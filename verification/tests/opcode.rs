use corewars::load_file::{Field, Instruction, Modifier, Opcode};
use corewars::mars::opcode::execute;
use corewars::mars::process::Error;
use corewars::mars::{Core, CoreConfig};
use corewars::parser;

/// Create a core from a string
fn build_core(program: &str) -> Core {
    let (warrior, _) = parser::parse(program).expect("Failed to parse warrior");

    let mut core = Core::new(CoreConfig {
        max_cycles: 8000,
        ..CoreConfig::default()
    });
    core.load_warriors(&vec![warrior])
        .expect("Failed to load warrior");
    core
}

#[test]
fn execute_dat() {
    let mut core = build_core("dat #0, #0");
    let pc = core.offset(0);
    let err = execute(&mut core, pc).unwrap_err();
    assert_eq!(err, Error::ExecuteDat(pc));
}

#[test]
fn execute_dat_with_postincrement() {
    let mut core = build_core("dat >1, >2");
    let pc = core.offset(0);

    let err = execute(&mut core, pc).unwrap_err();

    assert_eq!(err, Error::ExecuteDat(pc));
    assert_eq!(
        core.window(1, 3),
        &[
            Instruction::new(Opcode::Dat, Field::direct(0), Field::direct(1)),
            Instruction::new(Opcode::Dat, Field::direct(0), Field::direct(1)),
        ]
    );
}

#[test]
fn execute_mov() {
    let instruction = Instruction {
        opcode: Opcode::Mov,
        modifier: Modifier::I,
        a_field: Field::direct(0),
        b_field: Field::direct(1),
    };
    let mut core = build_core("mov.i $0, $1");
    let pc = core.offset(0);
    let result = execute(&mut core, pc).expect("Failed to execute");
    assert!(result.program_counter_offset.is_none());

    assert_eq!(
        core.window(0, 4),
        &vec![
            instruction.clone(),
            instruction,
            Instruction::default(),
            Instruction::default(),
        ][..]
    );
}

#[test]
fn execute_nop() {
    let mut core = build_core("nop #0, #0");
    let pc = core.offset(0);
    let result = execute(&mut core, pc).unwrap();
    assert!(result.program_counter_offset.is_none());
}

fn perform_arithmetic(opcode: &str, expected_result: i32) {
    let mut core = build_core(&format!(
        "
        {}.a $1, $2
        dat #1, #0
        dat #2, #0
        ",
        opcode
    ));

    let pc = core.offset(0);
    let result = execute(&mut core, pc).unwrap();

    assert!(result.program_counter_offset.is_none());

    assert_eq!(
        *core.get(2),
        Instruction::new(
            Opcode::Dat,
            Field::immediate(expected_result),
            Field::immediate(0)
        )
    );
}

#[test]
fn perform_arithmetic_add() {
    perform_arithmetic("add", 3);
}

#[test]
fn perform_arithmetic_sub() {
    perform_arithmetic("sub", 1);
}

#[test]
fn perform_arithmetic_mul() {
    perform_arithmetic("mul", 2);
}

#[test]
fn add_with_predecrement() {
    let mut core = build_core(
        "
        add.f $1, <1
        dat.f $1, $1
    ",
    );

    let pc = core.offset(0);
    let result = execute(&mut core, pc).unwrap();

    assert!(result.program_counter_offset.is_none());

    // The a-operand should be from before the predecrement, but the
    // b-operand should be from after it, resulting in (1+1=2, 1+0=1)
    assert_eq!(
        *core.get(1),
        Instruction::new(Opcode::Dat, Field::direct(2), Field::direct(1))
    );
}

#[test]
fn execute_div() {
    let mut core = build_core(
        "
        div $1, $2
        dat #8, #7
        dat #4, #2
        ",
    );
    let pc = core.offset(0);
    let result = execute(&mut core, pc).unwrap();
    assert!(result.program_counter_offset.is_none());

    assert_eq!(
        *core.get(2),
        Instruction::new(Opcode::Dat, Field::immediate(2), Field::immediate(3)),
    );
}

fn execute_div_by_zero(divisor: Instruction, result: &Instruction) {
    let mut core = build_core(
        "
        div.f   $1, $2
        dat     #4, #6
        ",
    );

    core.set(2, divisor);
    let pc = core.offset(0);
    let err = execute(&mut core, pc).unwrap_err();

    assert_eq!(err, Error::DivideByZero);
    assert_eq!(core.get(2), result);
}

#[test]
fn execute_div_by_zero_a_zero() {
    execute_div_by_zero(
        Instruction::new(Opcode::Dat, Field::direct(0), Field::direct(2)),
        &Instruction::new(Opcode::Dat, Field::direct(0), Field::direct(3)),
    );
}

#[test]
fn execute_div_by_zero_b_zero() {
    execute_div_by_zero(
        Instruction::new(Opcode::Dat, Field::direct(2), Field::direct(0)),
        &Instruction::new(Opcode::Dat, Field::direct(2), Field::direct(0)),
    );
}

#[test]
fn execute_div_by_zero_both_zero() {
    execute_div_by_zero(
        Instruction::new(Opcode::Dat, Field::direct(0), Field::direct(0)),
        &Instruction::new(Opcode::Dat, Field::direct(0), Field::direct(0)),
    );
}

#[test]
fn execute_mod() {
    let mut core = build_core(
        "
        mod $1, $2
        dat #8, #7
        dat #4, #2
        ",
    );
    let pc = core.offset(0);
    let result = execute(&mut core, pc).unwrap();
    assert!(result.program_counter_offset.is_none());

    assert_eq!(
        *core.get(2),
        Instruction::new(Opcode::Dat, Field::immediate(0), Field::immediate(1)),
    );
}

fn execute_mod_by_zero(divisor: Instruction, result: &Instruction) {
    let mut core = build_core(
        "
        mod.f   $1, $2
        dat     #4, #6
        ",
    );

    core.set(2, divisor);
    let pc = core.offset(0);
    let err = execute(&mut core, pc).unwrap_err();

    assert_eq!(err, Error::DivideByZero);
    assert_eq!(core.get(2), result);
}

#[test]
fn execute_mod_by_zero_a_zero() {
    execute_mod_by_zero(
        Instruction::new(Opcode::Dat, Field::direct(0), Field::direct(4)),
        &Instruction::new(Opcode::Dat, Field::direct(0), Field::direct(2)),
    );
}

#[test]
fn execute_mod_by_zero_b_zero() {
    execute_mod_by_zero(
        Instruction::new(Opcode::Dat, Field::direct(3), Field::direct(0)),
        &Instruction::new(Opcode::Dat, Field::direct(1), Field::direct(0)),
    );
}

#[test]
fn execute_mod_by_zero_both_zero() {
    execute_mod_by_zero(
        Instruction::new(Opcode::Dat, Field::direct(0), Field::direct(0)),
        &Instruction::new(Opcode::Dat, Field::direct(0), Field::direct(0)),
    );
}

fn execute_skip_equality(program: &str, expected_offset: Option<i32>) {
    let mut core = build_core(program);
    let pc = core.offset(0);
    let expected_offset = expected_offset.map(|o| core.offset(o));
    let result = execute(&mut core, pc).expect("Error executing opcode");

    assert_eq!(result.program_counter_offset, expected_offset);
}

#[test]
fn execute_skip_equality_cmp_equal() {
    execute_skip_equality(
        "
        cmp.f   $1, $2
        dat     #0, #1
        dat     #0, #1
        ",
        Some(2),
    );
}

#[test]
fn execute_skip_equality_seq_equal() {
    execute_skip_equality(
        "
        seq.f   $1, $2
        dat     #0, #1
        dat     #0, #1
        ",
        Some(2),
    );
}

#[test]
fn execute_skip_equality_cmp_unequal() {
    execute_skip_equality(
        "
        cmp.f   $1, $2
        dat     #0, #1
        dat     #1, #1
        ",
        None,
    );
}

#[test]
fn execute_skip_equality_seq_unequal() {
    execute_skip_equality(
        "
        seq.f   $1, $2
        dat     #0, #1
        dat     #2, #0
        ",
        None,
    );
}

#[test]
fn execute_skip_equality_sne_equal() {
    execute_skip_equality(
        "
        sne.f   $1, $2
        dat     #0, #1
        dat     #0, #1
        ",
        None,
    );
}

#[test]
fn execute_skip_equality_sne_unequal() {
    execute_skip_equality(
        "
        sne.f   $1, $2
        dat     #0, #1
        dat     #1, #1
        ",
        Some(2),
    );
}

fn execute_slt_no_skip(program: &str) {
    let mut core = build_core(program);
    let pc = core.offset(0);
    let result = execute(&mut core, pc).unwrap();
    assert!(result.program_counter_offset.is_none());
}

#[test]
fn execute_slt_no_skip_equal() {
    execute_slt_no_skip(
        "
        slt.a   $1, $2
        dat     #2, #0
        dat     #1, #0
        ",
    );
}

#[test]
fn execute_slt_no_skip_greater_than() {
    execute_slt_no_skip(
        "
        slt.a   $1, $2
        dat     #2, #0
        dat     #1, #0
        ",
    );
}

#[test]
fn execute_slt_no_skip_same_numbers() {
    execute_slt_no_skip(
        "
        slt.a   $1, $2
        dat     #2, #0
        dat     #2, #0
        ",
    );
}

#[test]
fn execute_slt_less_than() {
    let mut core = build_core(
        "
        slt.a   $1, $2
        dat     #1, #0
        dat     #2, #0
        ",
    );
    let pc = core.offset(0);
    let result = execute(&mut core, pc).unwrap();
    assert_eq!(result.program_counter_offset, Some(core.offset(2)));
}

#[test]
fn execute_djn_no_jump() {
    let mut core = build_core(
        "
        dat #0, #0
        djn.a $2, $1
        dat #1, #1
        nop #0, #0
        ",
    );
    let pc = core.offset(1);
    let result = execute(&mut core, pc).unwrap();

    assert_eq!(result.program_counter_offset, None);
    assert_eq!(
        core.window(1, 4),
        &vec![
            Instruction {
                opcode: Opcode::Djn,
                modifier: Modifier::A,
                a_field: Field::direct(2),
                b_field: Field::direct(1)
            },
            Instruction::new(Opcode::Dat, Field::immediate(0), Field::immediate(1)),
            Instruction::new(Opcode::Nop, Field::immediate(0), Field::immediate(0)),
        ][..]
    );
}

#[test]
fn execute_djn_with_jump() {
    let mut core = build_core(
        "
        dat #0, #0
        djn.a $2, $1
        dat #3, #1
        nop #0, #0
        ",
    );
    let pc = core.offset(1);
    let result = execute(&mut core, pc).unwrap();

    assert_eq!(result.program_counter_offset, Some(core.offset(2)));
    assert_eq!(
        core.window(1, 4),
        &vec![
            Instruction {
                opcode: Opcode::Djn,
                modifier: Modifier::A,
                a_field: Field::direct(2),
                b_field: Field::direct(1)
            },
            Instruction::new(Opcode::Dat, Field::immediate(2), Field::immediate(1)),
            Instruction::new(Opcode::Nop, Field::immediate(0), Field::immediate(0)),
        ][..]
    );
}

#[test]
fn execute_jmn_no_jump() {
    let mut core = build_core(
        "
        dat #0, #0
        jmn.a $2, $1
        dat #0, #1
        nop #0, #0
        ",
    );
    let pc = core.offset(1);
    let result = execute(&mut core, pc).unwrap();

    assert_eq!(result.program_counter_offset, None);
}

#[test]
fn execute_jmn_with_jump() {
    let mut core = build_core(
        "
        dat #0, #0
        jmn.a $2, $1
        dat #1, #1
        nop #0, #0
        ",
    );
    let pc = core.offset(1);
    let result = execute(&mut core, pc).unwrap();

    assert_eq!(result.program_counter_offset, Some(core.offset(2)));
}

#[test]
fn execute_jmp() {
    let mut core = build_core(
        "
        dat #0, #0
        jmp $3, #0
        ",
    );
    let pc = core.offset(1);
    let result = execute(&mut core, pc).expect("Failed to execute");

    assert_eq!(result.program_counter_offset, Some(core.offset(3)));
    assert_eq!(
        core.window(1, 5),
        &vec![
            Instruction::new(Opcode::Jmp, Field::direct(3), Field::immediate(0)),
            Instruction::default(),
            Instruction::default(),
            Instruction::default()
        ][..]
    );
}

#[test]
fn execute_spl() {
    let mut core = build_core(
        "
        dat #0, #0
        spl $3, #0
        ",
    );
    let pc = core.offset(1);
    let result = execute(&mut core, pc).expect("Failed to execute");

    assert_eq!(result.program_counter_offset, Some(core.offset(3)));
    assert!(result.should_split);
    assert_eq!(
        core.window(1, 5),
        &vec![
            Instruction::new(Opcode::Spl, Field::direct(3), Field::immediate(0)),
            Instruction::default(),
            Instruction::default(),
            Instruction::default()
        ][..]
    );
}

#[test]
fn execute_jmz_no_jump() {
    let mut core = build_core(
        "
        dat #0, #0
        jmz.a $2, $1
        dat #1, #1
        nop #0, #0
        ",
    );

    let pc = core.offset(1);
    let result = execute(&mut core, pc).unwrap();

    assert_eq!(result.program_counter_offset, None);
}

#[test]
fn execute_jmz_with_jump() {
    let mut core = build_core(
        "
        dat #0, #0
        jmz.a $2, $1
        dat #0, #1
        nop #0, #0
        ",
    );

    let pc = core.offset(1);
    let result = execute(&mut core, pc).unwrap();

    assert_eq!(result.program_counter_offset, Some(core.offset(2)));
}
