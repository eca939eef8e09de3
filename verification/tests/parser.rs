use corewars::load_file::{AddressMode, Field, Instruction, Modifier, Opcode};
use corewars::mars::CoreConfig;
use corewars::parser::error::{Error, ErrorKind, Warning, WarningKind};
use corewars::parser::{parse, parse_bytes, parse_with};

fn instructions(source: &str) -> Vec<Instruction> {
    let (warrior, _) = parse(source).expect("Failed to parse warrior");
    warrior.program.instructions
}

fn error_of(source: &str) -> Error {
    parse(source).expect_err("Should not have parsed").0
}

fn ins(opcode: Opcode, modifier: Modifier, a: Field, b: Field) -> Instruction {
    Instruction {
        opcode,
        modifier,
        a_field: a,
        b_field: b,
    }
}

fn field(address_mode: AddressMode, value: i32) -> Field {
    Field {
        address_mode,
        value,
    }
}

#[test]
fn parses_the_imp() {
    let (warrior, warnings) = parse("mov $0, $1").unwrap();
    assert_eq!(
        warrior.program.instructions,
        vec![ins(
            Opcode::Mov,
            Modifier::I,
            Field::direct(0),
            Field::direct(1)
        )]
    );
    assert_eq!(warrior.program.origin, None);
    assert!(warnings.is_empty());
    assert_eq!(warrior.len(), 1);
    assert!(!warrior.is_empty());
}

#[test]
fn parses_the_dwarf() {
    let source = "
        ADD #4, $3
        MOV $2, @2
        JMP $-2, $0
        DAT #0, #0
    ";
    assert_eq!(
        instructions(source),
        vec![
            ins(
                Opcode::Add,
                Modifier::AB,
                Field::immediate(4),
                Field::direct(3)
            ),
            ins(
                Opcode::Mov,
                Modifier::I,
                Field::direct(2),
                field(AddressMode::IndirectB, 2)
            ),
            ins(
                Opcode::Jmp,
                Modifier::B,
                Field::direct(-2),
                Field::direct(0)
            ),
            ins(
                Opcode::Dat,
                Modifier::F,
                Field::immediate(0),
                Field::immediate(0)
            ),
        ]
    );
}

#[test]
fn every_address_mode_has_its_sign() {
    let source = "
        mov #1, $2
        mov *3, @4
        mov {5, <6
        mov }7, >8
        mov 9, 10
    ";
    let modes: Vec<(AddressMode, AddressMode)> = instructions(source)
        .iter()
        .map(|i| (i.a_field.address_mode, i.b_field.address_mode))
        .collect();
    assert_eq!(
        modes,
        vec![
            (AddressMode::Immediate, AddressMode::Direct),
            (AddressMode::IndirectA, AddressMode::IndirectB),
            (AddressMode::PreDecIndirectA, AddressMode::PreDecIndirectB),
            (AddressMode::PostIncIndirectA, AddressMode::PostIncIndirectB),
            (AddressMode::Direct, AddressMode::Direct),
        ]
    );
    let values: Vec<(i32, i32)> = instructions(source)
        .iter()
        .map(|i| (i.a_field.value, i.b_field.value))
        .collect();
    assert_eq!(values, vec![(1, 2), (3, 4), (5, 6), (7, 8), (9, 10)]);
}

#[test]
fn every_opcode_and_modifier_is_known() {
    let source = "
        dat.a 0, 0
        mov.b 0, 0
        add.ab 0, 0
        sub.ba 0, 0
        mul.f 0, 0
        div.x 0, 0
        mod.i 0, 0
        jmp.A 0, 0
        jmz.B 0, 0
        jmn.AB 0, 0
        djn.BA 0, 0
        cmp.F 0, 0
        seq.X 0, 0
        sne.I 0, 0
        SLT.a 0, 0
        Spl.b 0, 0
        nOP.f 0, 0
    ";
    let found: Vec<(Opcode, Modifier)> = instructions(source)
        .iter()
        .map(|i| (i.opcode, i.modifier))
        .collect();
    assert_eq!(
        found,
        vec![
            (Opcode::Dat, Modifier::A),
            (Opcode::Mov, Modifier::B),
            (Opcode::Add, Modifier::AB),
            (Opcode::Sub, Modifier::BA),
            (Opcode::Mul, Modifier::F),
            (Opcode::Div, Modifier::X),
            (Opcode::Mod, Modifier::I),
            (Opcode::Jmp, Modifier::A),
            (Opcode::Jmz, Modifier::B),
            (Opcode::Jmn, Modifier::AB),
            (Opcode::Djn, Modifier::BA),
            (Opcode::Cmp, Modifier::F),
            (Opcode::Skeq, Modifier::X),
            (Opcode::Sne, Modifier::I),
            (Opcode::Slt, Modifier::A),
            (Opcode::Spl, Modifier::B),
            (Opcode::Nop, Modifier::F),
        ]
    );
}

fn default_of(line: &str) -> Modifier {
    instructions(line)[0].modifier
}

#[test]
fn modifiers_default_by_opcode_and_modes() {
    assert_eq!(default_of("dat #1, $2"), Modifier::F);
    assert_eq!(default_of("dat $1, $2"), Modifier::F);
    for opcode in ["mov", "cmp", "seq", "sne"] {
        assert_eq!(default_of(&format!("{} #1, $2", opcode)), Modifier::AB);
        assert_eq!(default_of(&format!("{} #1, #2", opcode)), Modifier::AB);
        assert_eq!(default_of(&format!("{} $1, #2", opcode)), Modifier::B);
        assert_eq!(default_of(&format!("{} $1, @2", opcode)), Modifier::I);
    }
    for opcode in ["add", "sub", "mul", "div", "mod"] {
        assert_eq!(default_of(&format!("{} #1, $2", opcode)), Modifier::AB);
        assert_eq!(default_of(&format!("{} $1, #2", opcode)), Modifier::B);
        assert_eq!(default_of(&format!("{} <1, >2", opcode)), Modifier::F);
    }
    assert_eq!(default_of("slt #1, $2"), Modifier::AB);
    assert_eq!(default_of("slt $1, #2"), Modifier::B);
    assert_eq!(default_of("slt $1, $2"), Modifier::B);
    for opcode in ["jmp", "jmz", "jmn", "djn", "spl", "nop"] {
        assert_eq!(default_of(&format!("{} #1, #2", opcode)), Modifier::B);
        assert_eq!(default_of(&format!("{} $1, $2", opcode)), Modifier::B);
    }
    assert_eq!(
        Instruction::new(Opcode::Mov, Field::direct(0), Field::direct(1)).modifier,
        Modifier::I
    );
    assert_eq!(
        Modifier::default_88_to_94(Opcode::Add, AddressMode::Direct, AddressMode::Immediate),
        Modifier::B
    );
}

#[test]
fn a_single_field_is_completed() {
    assert_eq!(
        instructions("dat 5"),
        vec![ins(
            Opcode::Dat,
            Modifier::F,
            Field::immediate(0),
            Field::direct(5)
        )]
    );
    assert_eq!(
        instructions("jmp -2"),
        vec![ins(
            Opcode::Jmp,
            Modifier::B,
            Field::direct(-2),
            Field::direct(0)
        )]
    );
    assert_eq!(
        instructions("spl @3"),
        vec![ins(
            Opcode::Spl,
            Modifier::B,
            field(AddressMode::IndirectB, 3),
            Field::direct(0)
        )]
    );
    assert_eq!(
        instructions("nop 1"),
        vec![ins(
            Opcode::Nop,
            Modifier::B,
            Field::direct(1),
            Field::direct(0)
        )]
    );
    let error = error_of("mov 1");
    assert_eq!((error.kind, error.line, error.column), (ErrorKind::MissingField, 1, 5));
}

#[test]
fn labels_are_distances() {
    let source = "
        start   add #4, bomb
                mov bomb, @bomb
        loop:   jmp start
        bomb    dat #0, #0
                jmp loop, start
    ";
    let found: Vec<(i32, i32)> = instructions(source)
        .iter()
        .map(|i| (i.a_field.value, i.b_field.value))
        .collect();
    assert_eq!(found, vec![(4, 3), (2, 2), (-2, 0), (0, 0), (-2, -4)]);
}

#[test]
fn labels_may_stand_alone_and_stack() {
    let source = "
        one
        two:
        three   nop one, two
                nop three, four
        four
    ";
    let found: Vec<(i32, i32)> = instructions(source)
        .iter()
        .map(|i| (i.a_field.value, i.b_field.value))
        .collect();
    // `four` stands behind the last instruction
    assert_eq!(found, vec![(0, 0), (-1, 1)]);
}

#[test]
fn constants_are_known() {
    let config = CoreConfig {
        core_size: 800,
        max_cycles: 900,
        max_processes: 70,
        max_warrior_length: 60,
        min_distance: 50,
        ..CoreConfig::default()
    };
    let source = "
        dat CORESIZE, MAXCYCLES
        dat MAXPROCESSES, MAXLENGTH
        dat MINDISTANCE, CURLINE
        dat CURLINE + 1, CORESIZE - 1
    ";
    let (warrior, _) = parse_with(source, &config).unwrap();
    let found: Vec<(i32, i32)> = warrior
        .program
        .instructions
        .iter()
        .map(|i| (i.a_field.value, i.b_field.value))
        .collect();
    assert_eq!(found, vec![(800, 900), (70, 60), (50, 2), (4, 799)]);

    let (warrior, _) = parse("dat CORESIZE, MAXPROCESSES").unwrap();
    assert_eq!(warrior.program.instructions[0].a_field.value, 8000);
    assert_eq!(warrior.program.instructions[0].b_field.value, 8000);
}

#[test]
fn a_label_may_hide_a_constant() {
    let source = "nop 0, 0\nCORESIZE: dat CORESIZE, 0\n";
    let (warrior, warnings) = parse(source).unwrap();
    assert_eq!(warrior.program.instructions[1].a_field.value, 0);
    assert_eq!(
        warnings,
        vec![Warning {
            kind: WarningKind::ShadowedConstant,
            line: 2
        }]
    );
}

#[test]
fn substitutions_are_replaced() {
    let source = "
        step    equ 4
        target  equ step * 2 + 1
        imp     equ mov 0, 1
                add #step, target
                imp
        x       imp
    ";
    assert_eq!(
        instructions(source),
        vec![
            ins(
                Opcode::Add,
                Modifier::AB,
                Field::immediate(4),
                Field::direct(9)
            ),
            ins(Opcode::Mov, Modifier::I, Field::direct(0), Field::direct(1)),
            ins(Opcode::Mov, Modifier::I, Field::direct(0), Field::direct(1)),
        ]
    );
}

#[test]
fn a_substitution_is_text() {
    // the text is replaced as it stands, so that the product binds first
    assert_eq!(
        instructions("sum equ 1 + 2\ndat sum * 3, (sum) * 3")[0],
        ins(Opcode::Dat, Modifier::F, Field::direct(7), Field::direct(9))
    );
}

#[test]
fn a_substitution_may_have_several_lines() {
    let source = "
        pair    equ mov 0, 1
                equ add #1, 2
                nop 0, 0
                pair
                pair
    ";
    let found: Vec<Opcode> = instructions(source).iter().map(|i| i.opcode).collect();
    assert_eq!(
        found,
        vec![Opcode::Nop, Opcode::Mov, Opcode::Add, Opcode::Mov, Opcode::Add]
    );
}

#[test]
fn substitution_errors() {
    let error = error_of("a equ 1\na equ 2");
    assert_eq!((error.kind, error.line, error.column), (ErrorKind::Redefinition, 2, 0));
    let error = error_of("nop 0\n a equ a + 1");
    assert_eq!((error.kind, error.line, error.column), (ErrorKind::Recursion, 2, 7));
    // in the text that goes on, the name stands for the text so far
    assert_eq!(
        instructions("two equ nop 1\n equ two\n two\n two").len(),
        4
    );
    let error = error_of("nop 0\nequ 3");
    assert_eq!((error.kind, error.line, error.column), (ErrorKind::Continuation, 2, 4));
    let error = error_of("a equ 1\nnop a\nequ 3");
    assert_eq!((error.kind, error.line), (ErrorKind::Continuation, 3));
}

#[test]
fn loops_are_unrolled() {
    let source = "
        for 3
            nop 1, 2
        rof
        dat 0, 0
    ";
    let found: Vec<Opcode> = instructions(source).iter().map(|i| i.opcode).collect();
    assert_eq!(
        found,
        vec![Opcode::Nop, Opcode::Nop, Opcode::Nop, Opcode::Dat]
    );
}

#[test]
fn a_loop_may_name_its_repetition() {
    let source = "
        n   for 4
            dat n, n * n
        rof
    ";
    let found: Vec<(i32, i32)> = instructions(source)
        .iter()
        .map(|i| (i.a_field.value, i.b_field.value))
        .collect();
    assert_eq!(found, vec![(1, 1), (2, 4), (3, 9), (4, 16)]);
}

#[test]
fn loops_may_lie_within_loops() {
    let source = "
        i   for 2
        j   for 3
            dat i, j
            rof
            nop i, 0
        rof
    ";
    let found: Vec<(Opcode, i32, i32)> = instructions(source)
        .iter()
        .map(|i| (i.opcode, i.a_field.value, i.b_field.value))
        .collect();
    assert_eq!(
        found,
        vec![
            (Opcode::Dat, 1, 1),
            (Opcode::Dat, 1, 2),
            (Opcode::Dat, 1, 3),
            (Opcode::Nop, 1, 0),
            (Opcode::Dat, 2, 1),
            (Opcode::Dat, 2, 2),
            (Opcode::Dat, 2, 3),
            (Opcode::Nop, 2, 0),
        ]
    );
}

#[test]
fn the_inner_loop_hides_the_name_of_the_outer() {
    let source = "
        n   for 2
        n   for 2
            dat n, 0
            rof
            nop n, 0
        rof
    ";
    let found: Vec<(Opcode, i32)> = instructions(source)
        .iter()
        .map(|i| (i.opcode, i.a_field.value))
        .collect();
    assert_eq!(
        found,
        vec![
            (Opcode::Dat, 1),
            (Opcode::Dat, 2),
            (Opcode::Nop, 1),
            (Opcode::Dat, 1),
            (Opcode::Dat, 2),
            (Opcode::Nop, 2),
        ]
    );
}

#[test]
fn a_loop_count_may_be_nothing() {
    assert_eq!(instructions("for 0\nnop 0\nrof\ndat 1"), instructions("dat 1"));
    assert_eq!(
        instructions("for 2 - 5\nnop 0\nrof\ndat 1"),
        instructions("dat 1")
    );
    assert_eq!(
        instructions("count equ 2\nfor count\nnop 0\nrof").len(),
        2
    );
    assert_eq!(
        instructions("for MAXLENGTH / 50\nnop 0\nrof").len(),
        2
    );
}

#[test]
fn what_a_loop_defines_is_forgotten() {
    let source = "
        for 2
        x   equ 5
            dat x
        rof
        x   equ 6
            dat x
    ";
    let found: Vec<i32> = instructions(source).iter().map(|i| i.b_field.value).collect();
    assert_eq!(found, vec![5, 5, 6]);
}

#[test]
fn loop_errors() {
    let error = error_of("nop 0\nfor 2\nnop 1");
    assert_eq!((error.kind, error.line), (ErrorKind::UnmatchedFor, 2));
    let error = error_of("nop 0\nrof");
    assert_eq!((error.kind, error.line), (ErrorKind::UnmatchedRof, 2));
    let error = error_of("for 2\nfor 2\nnop 0\nrof");
    assert_eq!((error.kind, error.line), (ErrorKind::UnmatchedFor, 1));
    let error = error_of("later nop 0\nfor later\nnop 1\nrof");
    assert_eq!((error.kind, error.line, error.column), (ErrorKind::ForCount, 2, 4));
    let error = error_of("for 1 / 0\nnop 1\nrof");
    assert_eq!((error.kind, error.line), (ErrorKind::ForCount, 1));
    // an error in the lines of a loop is found at its line
    let error = error_of("for 2\nnop 1\nmov\nrof");
    assert_eq!((error.kind, error.line), (ErrorKind::Syntax, 3));
}

#[test]
fn lines_after_a_loop_keep_their_numbers() {
    let error = error_of("for 2\nnop 1\nrof\nnop 2\nmov");
    assert_eq!((error.kind, error.line, error.column), (ErrorKind::Syntax, 5, 0));
}

#[test]
fn the_origin_is_set_by_org_and_end() {
    let (warrior, warnings) = parse("org 1\nnop 0\nnop 1").unwrap();
    assert_eq!(warrior.program.origin, Some(1));
    assert!(warnings.is_empty());

    let (warrior, _) = parse("nop 0\nstart nop 1\nend start").unwrap();
    assert_eq!(warrior.program.origin, Some(1));

    let (warrior, _) = parse("nop 0\nnop 0\norg start\nnop 0\nstart nop 1").unwrap();
    assert_eq!(warrior.program.origin, Some(3));

    let (warrior, _) = parse("org -1\nnop 0").unwrap();
    assert_eq!(warrior.program.origin, Some(7999));

    let (warrior, _) = parse("nop 0\nend").unwrap();
    assert_eq!(warrior.program.origin, None);
}

#[test]
fn nothing_is_read_behind_end() {
    let (warrior, _) = parse("nop 0\nend\nthis is no redcode at all\nmov").unwrap();
    assert_eq!(warrior.len(), 1);
}

#[test]
fn origin_errors_and_warnings() {
    let error = error_of("org 0\nnop 0\norg 0");
    assert_eq!((error.kind, error.line, error.column), (ErrorKind::DuplicateOrigin, 3, 4));
    let error = error_of("org 0\nnop 0\nend 0");
    assert_eq!((error.kind, error.line), (ErrorKind::DuplicateOrigin, 3));
    let error = error_of("org nowhere\nnop 0");
    assert_eq!((error.kind, error.line, error.column), (ErrorKind::UnknownLabel, 1, 4));

    let (warrior, warnings) = parse("org 5\nnop 0").unwrap();
    assert_eq!(warrior.program.origin, Some(5));
    assert_eq!(
        warnings,
        vec![Warning {
            kind: WarningKind::OriginOutOfRange,
            line: 0
        }]
    );
}

#[test]
fn an_empty_warrior_is_remarked_on() {
    let (warrior, warnings) = parse("; nothing here\n\n").unwrap();
    assert!(warrior.is_empty());
    assert_eq!(
        warnings,
        vec![Warning {
            kind: WarningKind::EmptyWarrior,
            line: 0
        }]
    );
    let (_, warnings) = parse("").unwrap();
    assert_eq!(warnings.len(), 1);
}

#[test]
fn errors_name_line_and_column() {
    let error = error_of("nop 0\n  mov 1 +\n");
    assert_eq!(
        error,
        Error {
            kind: ErrorKind::Syntax,
            line: 2,
            column: 8
        }
    );
    let error = error_of("nop 0\nnop 1\njmp nowhere");
    assert_eq!(
        error,
        Error {
            kind: ErrorKind::UnknownLabel,
            line: 3,
            column: 4
        }
    );
    let error = error_of("a nop 0\nb nop 1\na nop 2");
    assert_eq!(
        error,
        Error {
            kind: ErrorKind::DuplicateLabel,
            line: 3,
            column: 0
        }
    );
    let error = error_of("dat 1 / 0");
    assert_eq!((error.kind, error.line, error.column), (ErrorKind::DivisionByZero, 1, 6));
    let error = error_of("dat 99999999999");
    assert_eq!((error.kind, error.line), (ErrorKind::NumberTooLarge, 1));
    let error = error_of("nop 0\nldp 0, 1");
    assert_eq!((error.kind, error.line, error.column), (ErrorKind::UnsupportedOpcode, 2, 0));
    let error = error_of("stp.ab #0, 1");
    assert_eq!(error.kind, ErrorKind::UnsupportedOpcode);
    let error = error_of("mov.q 0, 1");
    assert_eq!(error.kind, ErrorKind::Syntax);
    let error = error_of("m\u{00f6}v 0, 1");
    assert_eq!((error.kind, error.line, error.column), (ErrorKind::Syntax, 1, 1));
}

#[test]
fn warnings_come_with_an_error() {
    let (error, warnings) = parse("MAXLENGTH nop 0\nmov").unwrap_err();
    assert_eq!((error.kind, error.line), (ErrorKind::Syntax, 2));
    assert_eq!(
        warnings,
        vec![Warning {
            kind: WarningKind::ShadowedConstant,
            line: 1
        }]
    );
    let (error, warnings) = parse("CURLINE nop 0\njmp nowhere").unwrap_err();
    assert_eq!(error.kind, ErrorKind::UnknownLabel);
    assert_eq!(warnings.len(), 1);
}

#[test]
fn comments_and_line_ends() {
    let source = "; a comment\r\nmov 0, 1 ; the imp\r\n\r\n   ; another\r\njmp -1\r\n";
    let found: Vec<Opcode> = instructions(source).iter().map(|i| i.opcode).collect();
    assert_eq!(found, vec![Opcode::Mov, Opcode::Jmp]);
    assert_eq!(instructions("mov 0, 1\njmp -1"), instructions(source));
}

#[test]
fn comments_tell_of_the_warrior() {
    let source = ";redcode-94\n;name   Dwarf  \n;author A. K. Dewdney\n;strategy bombs every fourth cell\n;Strategy and never stops\n; name nobody\n;assert 1\nmov 0, 1\n";
    let (warrior, _) = parse(source).unwrap();
    assert!(warrior.metadata.redcode);
    assert_eq!(warrior.metadata.name, Some(b"nobody".to_vec()));
    assert_eq!(warrior.metadata.author, Some(b"A. K. Dewdney".to_vec()));
    assert_eq!(
        warrior.metadata.strategy,
        Some(b"bombs every fourth cell\nand never stops".to_vec())
    );

    let (warrior, _) = parse(";name Imp\n; redcoder\n;redcode_94\nmov 0, 1").unwrap();
    assert!(!warrior.metadata.redcode);
    assert_eq!(warrior.metadata.name, Some(b"Imp".to_vec()));
    assert_eq!(warrior.metadata.author, None);
    assert_eq!(warrior.metadata.strategy, None);
}

#[test]
fn bytes_parse_as_text_does() {
    let config = CoreConfig::default();
    let (warrior, _) = parse_bytes(b"mov 0, 1", &config).unwrap();
    assert_eq!(warrior.program.instructions, instructions("mov 0, 1"));
}

#[test]
fn programs_are_written_as_load_files() {
    let (warrior, _) = parse(
        "
        org 1
        add.ab #4, 3
        mov 2, @2
        jmp -2
        dat #0, #0
        seq.x {1, }2
        djn.ba <3, >-4
        cmp *5, 6
    ",
    )
    .unwrap();
    let text = String::from_utf8(warrior.dump()).unwrap();
    assert_eq!(
        text,
        "ORG     1\n\
         ADD.AB  #4, $3\n\
         MOV.I   $2, @2\n\
         JMP.B   $-2, $0\n\
         DAT.F   #0, #0\n\
         SEQ.X   {1, }2\n\
         DJN.BA  <3, >-4\n\
         CMP.I   *5, $6\n"
    );
    assert_eq!(
        String::from_utf8(warrior.program.instructions[0].dump()).unwrap(),
        "ADD.AB  #4, $3"
    );
    let (imp, _) = parse("mov 0, 1").unwrap();
    assert_eq!(
        String::from_utf8(imp.program.dump()).unwrap(),
        "ORG     0\nMOV.I   $0, $1\n"
    );
}

fn round_trip(source: &str) {
    let (first, _) = parse(source).expect("Failed to parse warrior");
    let text = first.dump();
    let (second, _) = parse_bytes(&text, &CoreConfig::default()).expect("Failed to parse dump");
    assert_eq!(first.program.instructions, second.program.instructions);
    assert_eq!(
        first.program.origin.unwrap_or(0),
        second.program.origin.unwrap_or(0)
    );
    // and what was written once is written again in the same way
    assert_eq!(second.dump(), text);
}

#[test]
fn a_load_file_parses_to_its_program() {
    round_trip("mov 0, 1");
    round_trip("add #4, 3\nmov 2, @2\njmp -2\ndat #0, #0");
    round_trip("org 2\nnop 0\nnop 1\nspl }-5, {2147483647\nend");
    round_trip(
        "
        n for 20
            cmp.x <n, >-n * 100000
            seq.a *n, {n - 10
            djn.f #-2147483647, $CORESIZE
        rof
        ",
    );
    round_trip("");
}
