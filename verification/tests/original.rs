use stb_core::{
    transmit, BytecodeProgram, Capsid, Compiler, GeneLibrary, Instruction, Opcode, TransmissionUnit, VmError,
    MAX_LOOP_COUNT, MAX_OUTPUT_SIZE, STBVM,
};

#[test]
fn test_def_ref() -> Result<(), VmError> {
    let ast = Instruction::Sequence(vec![
        Instruction::Def {
            id: "g".to_string(),
            data: b"hello".to_vec(),
        },
        Instruction::Ref {
            id: "g".to_string(),
        },
        Instruction::Stp,
    ]);
    let bytecode = Compiler::compile(&ast)?;
    let mut vm = STBVM::new(GeneLibrary::new());
    let out = vm.execute_bytecode(&bytecode)?;
    assert_eq!(out, b"hello");
    Ok(())
}

#[test]
fn test_rpt_loop() -> Result<(), VmError> {
    let ast = Instruction::Sequence(vec![
        Instruction::Def {
            id: "x".to_string(),
            data: b"AB".to_vec(),
        },
        Instruction::Rpt {
            count: 3,
            body: Box::new(Instruction::Ref {
                id: "x".to_string(),
            }),
        },
        Instruction::Stp,
    ]);
    let bytecode = Compiler::compile(&ast)?;
    let mut vm = STBVM::new(GeneLibrary::new());
    let out = vm.execute_bytecode(&bytecode)?;
    assert_eq!(out, b"ABABAB");
    Ok(())
}

#[test]
fn test_rpt_zero() -> Result<(), VmError> {
    let ast = Instruction::Sequence(vec![
        Instruction::Def {
            id: "x".to_string(),
            data: b"AB".to_vec(),
        },
        Instruction::Rpt {
            count: 0,
            body: Box::new(Instruction::Ref {
                id: "x".to_string(),
            }),
        },
        Instruction::Stp,
    ]);
    let bytecode = Compiler::compile(&ast)?;
    let mut vm = STBVM::new(GeneLibrary::new());
    let out = vm.execute_bytecode(&bytecode)?;
    assert_eq!(out, b"");
    Ok(())
}

#[test]
fn test_loop_count_limit() -> Result<(), VmError> {
    let ast = Instruction::Sequence(vec![
        Instruction::Def {
            id: "a".to_string(),
            data: b"A".to_vec(),
        },
        Instruction::Rpt {
            count: (MAX_LOOP_COUNT as usize) + 1,
            body: Box::new(Instruction::Ref {
                id: "a".to_string(),
            }),
        },
        Instruction::Stp,
    ]);
    let bytecode = Compiler::compile(&ast)?;
    let mut vm = STBVM::new(GeneLibrary::new());
    let result = vm.execute_bytecode(&bytecode);
    assert!(matches!(result, Err(VmError::Custom(_))));
    Ok(())
}

#[test]
fn test_ale_too_large() -> Result<(), VmError> {
    let ast = Instruction::Sequence(vec![
        Instruction::Ale {
            seed: 42,
            len: MAX_OUTPUT_SIZE + 1,
        },
        Instruction::Stp,
    ]);
    let bytecode = Compiler::compile(&ast)?;
    let mut vm = STBVM::new(GeneLibrary::new());
    let result = vm.execute_bytecode(&bytecode);
    assert!(matches!(result, Err(VmError::Custom(_))));
    Ok(())
}

#[test]
fn test_capsid_checksum() -> Result<(), VmError> {
    let ast = Instruction::Sequence(vec![
        Instruction::Def {
            id: "msg".to_string(),
            data: b"OK".to_vec(),
        },
        Instruction::Ref {
            id: "msg".to_string(),
        },
        Instruction::Stp,
    ]);
    let bytecode = Compiler::compile(&ast)?;
    let capsid = Capsid::from_bytecode("test", &bytecode);
    let unit = TransmissionUnit {
        capsid,
        used_genes: vec![],
        bytecode,
        compressed_residual: vec![],
    };
    let mut library = GeneLibrary::new();
    let output = transmit(unit, &mut library)?;
    assert_eq!(output, b"OK");
    Ok(())
}

#[test]
fn test_truncated_bytecode_fails() {
    let bytecode = BytecodeProgram {
        bytes: vec![Opcode::Ref.to_byte(), 0x01],
    };
    let mut vm = STBVM::new(GeneLibrary::new());
    let result = vm.execute_bytecode(&bytecode);
    assert!(matches!(result, Err(VmError::OutOfBounds)));
}

#[test]
fn test_apoptose_permissive() -> Result<(), VmError> {
    let ast = Instruction::Sequence(vec![
        Instruction::Ref {
            id: "missing".to_string(),
        },
        Instruction::Ref {
            id: "missing2".to_string(),
        },
        Instruction::Ref {
            id: "missing3".to_string(),
        },
        Instruction::Stp,
    ]);
    let bytecode = Compiler::compile(&ast)?;
    let mut vm = STBVM::new_with_mode(GeneLibrary::new(), true);
    let result = vm.execute_bytecode(&bytecode);
    assert!(matches!(result, Err(VmError::Apoptosis(_))));
    Ok(())
}

#[test]
fn test_permissive_below_threshold() -> Result<(), VmError> {
    let ast = Instruction::Sequence(vec![
        Instruction::Def {
            id: "ok".to_string(),
            data: b"X".to_vec(),
        },
        Instruction::Ref {
            id: "ok".to_string(),
        },
        Instruction::Ref {
            id: "missing".to_string(),
        },
        Instruction::Ref {
            id: "ok".to_string(),
        },
        Instruction::Stp,
    ]);
    let bytecode = Compiler::compile(&ast)?;
    let mut vm = STBVM::new_with_mode(GeneLibrary::new(), true);
    let out = vm.execute_bytecode(&bytecode)?;
    assert_eq!(out, b"XX");
    assert_eq!(vm.failed_genes(), 1);
    Ok(())
}

#[test]
fn test_apoptose_strict_mode() -> Result<(), VmError> {
    let ast = Instruction::Sequence(vec![
        Instruction::Ref {
            id: "missing".to_string(),
        },
        Instruction::Stp,
    ]);
    let bytecode = Compiler::compile(&ast)?;
    let mut vm = STBVM::new(GeneLibrary::new());
    let result = vm.execute_bytecode(&bytecode);
    assert!(matches!(result, Err(VmError::GeneNotFound(_))));
    Ok(())
}
