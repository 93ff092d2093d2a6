use patp::{execute_program, CPUError, Cpu, Instruction, Outcome};

#[test]
fn test_test_cpu_execute_single() {
    // all easy tests of a single instruction
    assert_eq!(
        Cpu::execute(&mut Cpu::new(), Instruction::Clear(0)),
        Some(Cpu {
            pc: 1,
            ..Cpu::new()
        })
    );
    assert_eq!(
        Cpu::execute(&mut Cpu::new(), Instruction::Inc),
        Some(Cpu {
            pc: 1,
            register: 1,
            z: false,
            ..Cpu::new()
        })
    );
    assert_eq!(
        Cpu::execute(&mut Cpu::new(), Instruction::Add(12)),
        Some(Cpu {
            register: 12,
            pc: 1,
            z: false,
            ..Cpu::new()
        })
    );
    assert_eq!(
        Cpu::execute(&mut Cpu::new(), Instruction::Dec),
        Some(Cpu {
            register: 255,
            pc: 1,
            z: false,
            ..Cpu::new()
        })
    );
    assert_eq!(
        Cpu::execute(&mut Cpu::new(), Instruction::Jump(17)),
        Some(Cpu {
            pc: 17,
            ..Cpu::new()
        })
    );

    //bnz when z is true
    //shouldn't branch
    assert_eq!(
        Cpu::execute(&mut Cpu::new(), Instruction::Bnz(21)),
        Some(Cpu {
            pc: 1,
            ..Cpu::new()
        })
    );

    //bnz when z is false
    //should branch
    assert_eq!(
        Cpu::execute(&mut Cpu { z: false, ..Cpu::new() }, Instruction::Bnz(21)),
        Some(Cpu {
            pc: 21,
            z: false,
            ..Cpu::new()
        })
    );

    //store number 11 at address 1
    assert_eq!(
        Cpu::execute(&mut Cpu { register: 11, ..Cpu::new() }, Instruction::Store(1)),
        Some(Cpu {
            pc: 1,
            register: 11,
            memory: [
                0, 11, 0, 0, 0, 0, 0, 0, 0, 0, 0, 0, 0, 0, 0, 0, 0, 0, 0, 0, 0, 0, 0, 0, 0, 0, 0,
                0, 0, 0, 0, 0
            ],
            ..Cpu::new()
        })
    );

    //load number 11 from address 2
    assert_eq!(
        Cpu::execute(&mut Cpu { memory: [
                0, 0, 11, 0, 0, 0, 0, 0, 0, 0, 0, 0, 0, 0, 0, 0, 0, 0, 0, 0, 0, 0, 0, 0, 0, 0, 0,
                0, 0, 0, 0, 0
            ], ..Cpu::new() }, Instruction::Load(2)),
        Some(Cpu {
            pc: 1,
            register: 11,
            memory: [
                0, 0, 11, 0, 0, 0, 0, 0, 0, 0, 0, 0, 0, 0, 0, 0, 0, 0, 0, 0, 0, 0, 0, 0, 0, 0, 0,
                0, 0, 0, 0, 0
            ],
            ..Cpu::new()
        })
    );
}

#[test]
fn test_test_cpu_execute_program() {
    //runs a few steps in sequence, testing the CPU state is as it should be at each step
    let mut cpu = Cpu::new();

    cpu = cpu.execute(Instruction::Inc).unwrap();

    assert_eq!(
        Cpu {
            pc: 1,
            register: 1,
            z: false,
            ..Cpu::new()
        },
        cpu
    );

    cpu = cpu.execute(Instruction::Inc).unwrap();

    assert_eq!(
        Cpu {
            pc: 2,
            register: 2,
            z: false,
            ..Cpu::new()
        },
        cpu
    );

    cpu = cpu.execute(Instruction::Add(9)).unwrap();

    assert_eq!(
        Cpu {
            pc: 3,
            register: 11,
            z: false,
            ..Cpu::new()
        },
        cpu
    );

    cpu = cpu.execute(Instruction::Dec).unwrap();

    assert_eq!(
        Cpu {
            pc: 4,
            register: 10,
            z: false,
            ..Cpu::new()
        },
        cpu
    );

    cpu = cpu.execute(Instruction::Jump(20)).unwrap();

    assert_eq!(
        Cpu {
            pc: 20,
            register: 10,
            z: false,
            ..Cpu::new()
        },
        cpu
    );
}

#[test]
fn test_test_cpu_execute_edge_cases() {
    //test wraparound
    assert_eq!(
        Cpu::execute(&mut Cpu { pc: 0, register: 255, z: false, ..Cpu::new() }, Instruction::Inc),
        Some(Cpu {
            pc: 1,
            register: 0,
            z: true,
            ..Cpu::new()
        })
    );

    //test execution halts on a stop
    assert_eq!(Cpu::execute(&mut Cpu::new(), Instruction::Clear(1)), None);
}

#[test]
fn cpu_test_cpu_execute_single() {
    // all easy tests of a single instruction
    assert_eq!(
        Cpu::execute(&Cpu::new(), Instruction::disassemble(Instruction::Clear(0).assemble().unwrap())),
        Some(Cpu {
            pc: 1,
            ..Cpu::new()
        })
    );
    assert_eq!(
        Cpu::execute(&Cpu::new(), Instruction::disassemble(Instruction::Inc.assemble().unwrap())),
        Some(Cpu {
            pc: 1,
            register: 1,
            z: false,
            ..Cpu::new()
        })
    );
    assert_eq!(
        Cpu::execute(&Cpu::new(), Instruction::disassemble(Instruction::Add(12).assemble().unwrap())),
        Some(Cpu {
            register: 12,
            pc: 1,
            z: false,
            ..Cpu::new()
        })
    );
    assert_eq!(
        Cpu::execute(&Cpu::new(), Instruction::disassemble(Instruction::Dec.assemble().unwrap())),
        Some(Cpu {
            register: 255,
            pc: 1,
            z: false,
            ..Cpu::new()
        })
    );
    assert_eq!(
        Cpu::execute(&Cpu::new(), Instruction::disassemble(Instruction::Jump(17).assemble().unwrap())),
        Some(Cpu {
            pc: 17,
            ..Cpu::new()
        })
    );

    //bnz when z is true
    //shouldn't branch
    assert_eq!(
        Cpu::execute(&Cpu::new(), Instruction::disassemble(Instruction::Bnz(21).assemble().unwrap())),
        Some(Cpu {
            pc: 1,
            ..Cpu::new()
        })
    );

    //bnz when z is false
    //should branch
    assert_eq!(
        Cpu::execute(&Cpu { z: false, ..Cpu::new() }, Instruction::disassemble(Instruction::Bnz(21).assemble().unwrap())),
        Some(Cpu {
            pc: 21,
            z: false,
            ..Cpu::new()
        })
    );

    //store number 11 at address 1
    assert_eq!(
        Cpu::execute(&Cpu { register: 11, ..Cpu::new() }, Instruction::disassemble(Instruction::Store(1).assemble().unwrap())),
        Some(Cpu {
            pc: 1,
            register: 11,
            memory: [
                0, 11, 0, 0, 0, 0, 0, 0, 0, 0, 0, 0, 0, 0, 0, 0, 0, 0, 0, 0, 0, 0, 0, 0, 0, 0, 0,
                0, 0, 0, 0, 0
            ],
            ..Cpu::new()
        })
    );

    //load number 11 from address 2
    assert_eq!(
        Cpu::execute(&Cpu { memory: [
                0, 0, 11, 0, 0, 0, 0, 0, 0, 0, 0, 0, 0, 0, 0, 0, 0, 0, 0, 0, 0, 0, 0, 0, 0, 0, 0,
                0, 0, 0, 0, 0
            ], ..Cpu::new() }, Instruction::disassemble(Instruction::Load(2).assemble().unwrap())),
        Some(Cpu {
            pc: 1,
            register: 11,
            memory: [
                0, 0, 11, 0, 0, 0, 0, 0, 0, 0, 0, 0, 0, 0, 0, 0, 0, 0, 0, 0, 0, 0, 0, 0, 0, 0, 0,
                0, 0, 0, 0, 0
            ],
            ..Cpu::new()
        })
    );
}

#[test]
fn cpu_test_cpu_execute_program() {
    //runs a few steps in sequence, testing the CPU state is as it should be at each step
    let mut cpu = Cpu::new();

    cpu = cpu.execute(Instruction::disassemble(Instruction::Inc.assemble().unwrap())).unwrap();

    assert_eq!(
        Cpu {
            pc: 1,
            register: 1,
            z: false,
            ..Cpu::new()
        },
        cpu
    );

    cpu = cpu.execute(Instruction::disassemble(Instruction::Inc.assemble().unwrap())).unwrap();

    assert_eq!(
        Cpu {
            pc: 2,
            register: 2,
            z: false,
            ..Cpu::new()
        },
        cpu
    );

    cpu = cpu.execute(Instruction::disassemble(Instruction::Add(9).assemble().unwrap())).unwrap();

    assert_eq!(
        Cpu {
            pc: 3,
            register: 11,
            z: false,
            ..Cpu::new()
        },
        cpu
    );

    cpu = cpu.execute(Instruction::disassemble(Instruction::Dec.assemble().unwrap())).unwrap();

    assert_eq!(
        Cpu {
            pc: 4,
            register: 10,
            z: false,
            ..Cpu::new()
        },
        cpu
    );

    cpu = cpu.execute(Instruction::disassemble(Instruction::Jump(20).assemble().unwrap())).unwrap();

    assert_eq!(
        Cpu {
            pc: 20,
            register: 10,
            z: false,
            ..Cpu::new()
        },
        cpu
    );
}

#[test]
fn cpu_test_cpu_execute_edge_cases() {
    //test wraparound
    assert_eq!(
        Cpu::execute(&Cpu { pc: 0, register: 255, z: false, ..Cpu::new() }, Instruction::disassemble(Instruction::Inc.assemble().unwrap())),
        Some(Cpu {
            pc: 1,
            register: 0,
            z: true,
            ..Cpu::new()
        })
    );

    //test execution halts on a stop
    assert_eq!(Cpu::execute(&Cpu::new(), Instruction::disassemble(Instruction::Clear(1).assemble().unwrap())), None);
}

#[test]
fn test_cpu_execute() {
    assert_eq!(
        Cpu::step(&Cpu::new(), Instruction::Clear(0)),
        Outcome::Continue(Cpu::new())
    );
}

#[test]
fn fresh_machine_state() {
    let cpu = Cpu::new();
    assert_eq!(cpu.memory, [0u8; 32]);
    assert_eq!(cpu.register, 0);
    assert!(cpu.z);
    assert_eq!(cpu.pc, 0);
}

#[test]
fn dec_from_zero_wraps_to_255() {
    let c = Cpu::new().step(Instruction::Dec);
    assert_eq!(c, Outcome::Continue(Cpu { register: 255, z: false, ..Cpu::new() }));
}

#[test]
fn inc_from_255_wraps_to_zero() {
    let start = Cpu { register: 255, z: false, ..Cpu::new() };
    assert_eq!(start.step(Instruction::Inc), Outcome::Continue(Cpu::new()));
}

#[test]
fn add_wraps_and_sets_zero_flag() {
    let start = Cpu { register: 250, z: false, ..Cpu::new() };
    assert_eq!(
        start.step(Instruction::Add(9)),
        Outcome::Continue(Cpu { register: 3, z: false, ..Cpu::new() })
    );
    assert_eq!(start.step(Instruction::Add(6)), Outcome::Continue(Cpu::new()));
}

#[test]
fn fetch_wraps_program_counter_at_31() {
    let mut cpu = Cpu { pc: 31, ..Cpu::new() };
    cpu.memory[31] = 0b0010_0000;
    assert_eq!(cpu.fetch(), Instruction::Inc);
    assert_eq!(cpu.pc, 0);
    let mut cpu = Cpu { pc: 7, ..Cpu::new() };
    assert_eq!(cpu.fetch(), Instruction::Clear(0));
    assert_eq!(cpu.pc, 8);
}

#[test]
fn branch_follows_zero_flag() {
    for pc in [0u8, 5, 31] {
        let set = Cpu { pc, z: true, register: 0, ..Cpu::new() };
        assert_eq!(set.step(Instruction::Bnz(9)), Outcome::Continue(set));
        let clear = Cpu { pc, z: false, register: 4, ..Cpu::new() };
        assert_eq!(
            clear.step(Instruction::Bnz(9)),
            Outcome::Continue(Cpu { pc: 9, ..clear })
        );
    }
}

#[test]
fn stop_halts_in_place() {
    let start = Cpu { register: 7, z: false, pc: 3, ..Cpu::new() };
    assert_eq!(start.step(Instruction::Clear(1)), Outcome::Halted(start));
    assert_eq!(start.step(Instruction::Clear(31)), Outcome::Halted(start));
}

#[test]
fn cycle_fetches_then_executes() {
    let mut start = Cpu::new();
    start.memory[0] = 0b0100_0101; // ADD 5
    let mut expected = start;
    expected.pc = 1;
    expected.register = 5;
    expected.z = false;
    assert_eq!(start.cycle(), Outcome::Continue(expected));
}

#[test]
fn load_copies_program_to_low_memory() {
    let cpu = Cpu::new().load(&[1, 2, 3]).unwrap();
    assert_eq!(&cpu.memory[..3], &[1, 2, 3]);
    assert_eq!(&cpu.memory[3..], &[0u8; 29]);
    let full = [9u8; 32];
    assert_eq!(Cpu::new().load(&full).unwrap().memory, full);
}

#[test]
fn load_keeps_the_rest_of_the_state() {
    let mut before = Cpu { register: 4, z: false, pc: 2, ..Cpu::new() };
    before.memory[10] = 77;
    let after = before.load(&[5, 6]).unwrap();
    assert_eq!(after.memory[10], 77);
    assert_eq!(after.memory[0], 5);
    assert_eq!(after.memory[1], 6);
    assert_eq!((after.register, after.z, after.pc), (4, false, 2));
}

#[test]
fn load_refuses_more_than_32_bytes() {
    assert_eq!(Cpu::new().load(&[0u8; 33]), Err(CPUError::ProgramTooLarge));
    assert_eq!(execute_program(&[0u8; 33], 10), Err(CPUError::ProgramTooLarge));
}

#[test]
fn stop_program_halts_with_program_counter_one() {
    assert_eq!(
        execute_program(&[0x01], 1),
        Ok(Outcome::Halted(Cpu { memory: {
            let mut m = [0u8; 32];
            m[0] = 1;
            m
        }, pc: 1, ..Cpu::new() }))
    );
}

#[test]
fn program_runs_to_halt() {
    // INC, INC, STORE 31, STOP
    let program = [0b0010_0000, 0b0010_0000, 0b1111_1111, 0b0000_0001];
    match execute_program(&program, 100) {
        Ok(Outcome::Halted(cpu)) => {
            assert_eq!(cpu.register, 2);
            assert!(!cpu.z);
            assert_eq!(cpu.pc, 4);
            assert_eq!(cpu.memory[31], 2);
        }
        other => panic!("unexpected {:?}", other),
    }
}

#[test]
fn countdown_loop_halts() {
    // 0: ADD 3, 1: DEC, 2: BNZ 1, 3: STOP
    let program = [0b0100_0011, 0b0110_0000, 0b1010_0001, 0b0000_0001];
    match execute_program(&program, 100) {
        Ok(Outcome::Halted(cpu)) => {
            assert_eq!(cpu.register, 0);
            assert!(cpu.z);
            assert_eq!(cpu.pc, 4);
        }
        other => panic!("unexpected {:?}", other),
    }
}

#[test]
fn endless_loop_reports_the_state_reached() {
    // 0: INC, 1: JUMP 0
    let program = [0b0010_0000, 0b1000_0000];
    match execute_program(&program, 10) {
        Ok(Outcome::Continue(cpu)) => {
            assert_eq!(cpu.register, 5);
            assert_eq!(cpu.pc, 0);
        }
        other => panic!("unexpected {:?}", other),
    }
    let resumed = match execute_program(&program, 10) {
        Ok(Outcome::Continue(cpu)) => cpu.run(4),
        other => panic!("unexpected {:?}", other),
    };
    match resumed {
        Outcome::Continue(cpu) => assert_eq!(cpu.register, 7),
        other => panic!("unexpected {:?}", other),
    }
}

#[test]
fn zeroed_memory_runs_as_clear() {
    // falling off the program into zeroed memory resets and goes on
    let program = [0b0010_0000];
    match execute_program(&program, 3) {
        Ok(Outcome::Continue(cpu)) => {
            assert_eq!(cpu.register, 0);
            assert!(cpu.z);
            assert_eq!(cpu.pc, 3);
        }
        other => panic!("unexpected {:?}", other),
    }
}

#[test]
fn store_can_rewrite_code_ahead() {
    // 0: ADD 1, 1: STORE 3, 2: INC, 3: INC (overwritten by 1 = STOP)
    let program = [0b0100_0001, 0b1110_0011, 0b0010_0000, 0b0010_0000];
    match execute_program(&program, 100) {
        Ok(Outcome::Halted(cpu)) => {
            assert_eq!(cpu.register, 2);
            assert_eq!(cpu.memory[3], 1);
            assert_eq!(cpu.pc, 4);
        }
        other => panic!("unexpected {:?}", other),
    }
}
