use stb_core::{
    byte_counts, compress_residual, decompress_residual, transmit, BytecodeProgram, Capsid, Compiler, FallbackPolicy,
    Gene, GeneLibrary, Instruction, Opcode, SegmentClass, TolerancePolicy, TransmissionUnit, VmError,
    MAX_OUTPUT_SIZE, STBVM,
};

fn def(id: &str, data: &[u8]) -> Instruction {
    Instruction::Def { id: id.to_string(), data: data.to_vec() }
}

fn reference(id: &str) -> Instruction {
    Instruction::Ref { id: id.to_string() }
}

fn run_strict(ast: &Instruction) -> Result<Vec<u8>, VmError> {
    let bytecode = Compiler::compile(ast)?;
    let mut vm = STBVM::new(GeneLibrary::new());
    vm.execute_bytecode(&bytecode)
}

fn xorshift_reference(seed: u64, len: usize) -> Vec<u8> {
    let mut x = seed;
    let mut out = Vec::new();
    for _ in 0..len {
        x ^= x << 13;
        x ^= x >> 7;
        x ^= x << 17;
        out.push((x & 0xFF) as u8);
    }
    out
}

#[test]
fn compile_def_layout() {
    let p = Compiler::compile(&def("ab", b"xyz")).unwrap();
    assert_eq!(p.bytes, vec![0x01, 2, 0, b'a', b'b', 3, 0, 0, 0, b'x', b'y', b'z']);
}

#[test]
fn compile_all_opcodes_layout() {
    let ast = Instruction::Sequence(vec![
        reference("g"),
        Instruction::Rpt { count: 258, body: Box::new(Instruction::Stp) },
        Instruction::Ale { seed: 1, len: 2 },
        Instruction::Error("e".to_string()),
    ]);
    let p = Compiler::compile(&ast).unwrap();
    assert_eq!(
        p.bytes,
        vec![
            0x02, 1, 0, b'g', 0x03, 2, 1, 0, 0, 0xFF, 0x04, 0x07, 1, 0, 0, 0, 0, 0, 0, 0, 2, 0, 0, 0, 0x08, 1, 0, b'e'
        ]
    );
}

#[test]
fn compile_counts_utf8_bytes() {
    let p = Compiler::compile(&reference("é")).unwrap();
    assert_eq!(p.bytes, vec![0x02, 2, 0, 0xC3, 0xA9]);
}

#[test]
fn compile_rejects_long_id() {
    let long = "x".repeat(65536);
    let r = Compiler::compile(&Instruction::Sequence(vec![Instruction::Stp, reference(&long)]));
    assert_eq!(r.unwrap_err(), VmError::Custom("Gene id too long (>65535)".to_string()));
}

#[test]
fn compile_accepts_longest_id() {
    let long = "x".repeat(65535);
    let p = Compiler::compile(&reference(&long)).unwrap();
    assert_eq!(p.bytes.len(), 3 + 65535);
}

#[test]
fn compile_rejects_long_error_message() {
    let long = "m".repeat(70000);
    let r = Compiler::compile(&Instruction::Error(long));
    assert_eq!(r.unwrap_err(), VmError::Custom("Error message too long (>65535)".to_string()));
}

#[test]
fn compile_reports_first_error_in_order() {
    let ast = Instruction::Sequence(vec![
        Instruction::Rpt { count: usize::MAX, body: Box::new(reference(&"x".repeat(65536))) },
        Instruction::Ale { seed: 0, len: usize::MAX },
    ]);
    let r = Compiler::compile(&ast);
    assert_eq!(r.unwrap_err(), VmError::Custom("Rpt count exceeds u32 range".to_string()));
    let r = Compiler::compile(&Instruction::Ale { seed: 0, len: usize::MAX });
    assert_eq!(r.unwrap_err(), VmError::Custom("Ale length exceeds u32 range".to_string()));
}

#[test]
fn opcode_bytes() {
    assert_eq!(Opcode::Def.to_byte(), 0x01);
    assert_eq!(Opcode::Ref.to_byte(), 0x02);
    assert_eq!(Opcode::Rpt.to_byte(), 0x03);
    assert_eq!(Opcode::RptEnd.to_byte(), 0x04);
    assert_eq!(Opcode::Ale.to_byte(), 0x07);
    assert_eq!(Opcode::Error.to_byte(), 0x08);
    assert_eq!(Opcode::Stp.to_byte(), 0xFF);
}

#[test]
fn nested_loops_run_as_tree() {
    let ast = Instruction::Sequence(vec![
        def("a", b"A"),
        def("b", b"B"),
        Instruction::Rpt {
            count: 2,
            body: Box::new(Instruction::Sequence(vec![
                reference("a"),
                Instruction::Rpt { count: 3, body: Box::new(reference("b")) },
                Instruction::Rpt { count: 0, body: Box::new(reference("a")) },
            ])),
        },
    ]);
    assert_eq!(run_strict(&ast).unwrap(), b"ABBBABBB");
}

#[test]
fn stop_inside_loop_ends_program() {
    let ast = Instruction::Sequence(vec![
        def("a", b"A"),
        Instruction::Rpt {
            count: 5,
            body: Box::new(Instruction::Sequence(vec![reference("a"), Instruction::Stp])),
        },
        reference("a"),
    ]);
    assert_eq!(run_strict(&ast).unwrap(), b"A");
}

#[test]
fn empty_program_gives_empty_output() {
    let mut vm = STBVM::new(GeneLibrary::new());
    let out = vm.execute_bytecode(&BytecodeProgram { bytes: vec![] }).unwrap();
    assert!(out.is_empty());
}

#[test]
fn ale_generates_xorshift_bytes() {
    let ast = Instruction::Ale { seed: 123, len: 16 };
    assert_eq!(run_strict(&ast).unwrap(), xorshift_reference(123, 16));
}

#[test]
fn ale_first_bytes_exact() {
    // x = 1: x ^= x << 13 -> 0x2001; x ^= x >> 7 -> 0x2041; x ^= x << 17 -> 0x4082_2041
    let ast = Instruction::Ale { seed: 1, len: 1 };
    assert_eq!(run_strict(&ast).unwrap(), vec![0x41]);
}

#[test]
fn output_limit_is_enforced() {
    let ast = Instruction::Sequence(vec![
        Instruction::Ale { seed: 7, len: MAX_OUTPUT_SIZE },
        def("z", b"Z"),
        reference("z"),
    ]);
    let r = run_strict(&ast);
    assert_eq!(r.unwrap_err(), VmError::Custom("Output size limit exceeded".to_string()));
}

#[test]
fn loop_limit_message() {
    let ast = Instruction::Rpt { count: 1_000_001, body: Box::new(Instruction::Stp) };
    let r = run_strict(&ast);
    assert_eq!(r.unwrap_err(), VmError::Custom("Loop count 1000001 exceeds limit 1000000".to_string()));
}

#[test]
fn loop_limit_accepts_maximum() {
    let ast = Instruction::Sequence(vec![
        Instruction::Rpt { count: 1_000_000, body: Box::new(Instruction::Sequence(vec![])) },
        def("k", b"K"),
        reference("k"),
    ]);
    assert_eq!(run_strict(&ast).unwrap(), b"K");
}

#[test]
fn unmatched_loop_end_is_a_mismatch() {
    let p = BytecodeProgram { bytes: vec![0x04] };
    let mut vm = STBVM::new(GeneLibrary::new());
    assert_eq!(vm.execute_bytecode(&p).unwrap_err(), VmError::LoopMismatch);
}

#[test]
fn unterminated_skipped_loop_is_a_mismatch() {
    let p = BytecodeProgram { bytes: vec![0x03, 0, 0, 0, 0, 0xFF] };
    let mut vm = STBVM::new(GeneLibrary::new());
    assert_eq!(vm.execute_bytecode(&p).unwrap_err(), VmError::LoopMismatch);
}

#[test]
fn unknown_opcode_is_reported() {
    let p = BytecodeProgram { bytes: vec![0xFF - 0xF6] };
    let mut vm = STBVM::new(GeneLibrary::new());
    assert_eq!(vm.execute_bytecode(&p).unwrap_err(), VmError::InvalidOpcode(0x09));
}

#[test]
fn unclosed_loop_runs_body_once() {
    let p = BytecodeProgram { bytes: vec![0x01, 1, 0, b'q', 1, 0, 0, 0, b'Q', 0x03, 3, 0, 0, 0, 0x02, 1, 0, b'q'] };
    let mut vm = STBVM::new(GeneLibrary::new());
    assert_eq!(vm.execute_bytecode(&p).unwrap(), b"Q");
}

#[test]
fn error_instruction_strict_fails_with_message() {
    let ast = Instruction::Error("boom".to_string());
    assert_eq!(run_strict(&ast).unwrap_err(), VmError::Custom("boom".to_string()));
}

#[test]
fn error_instruction_permissive_is_logged() {
    let ast = Instruction::Sequence(vec![
        def("a", b"A"),
        reference("a"),
        Instruction::Error("boom".to_string()),
        reference("a"),
    ]);
    let bytecode = Compiler::compile(&ast).unwrap();
    let mut vm = STBVM::new_with_mode(GeneLibrary::new(), true);
    assert_eq!(vm.execute_bytecode(&bytecode).unwrap(), b"AA");
    assert_eq!(vm.failed_genes(), 1);
    assert_eq!(
        vm.trace,
        vec!["DEF a".to_string(), "REF a (1b)".to_string(), "⚠️ ERR: boom".to_string(), "REF a (1b)".to_string()]
    );
}

#[test]
fn trace_lines_of_a_run() {
    let ast = Instruction::Sequence(vec![
        def("g", b"hello"),
        reference("g"),
        Instruction::Ale { seed: 42, len: 0 },
        Instruction::Stp,
    ]);
    let bytecode = Compiler::compile(&ast).unwrap();
    let mut vm = STBVM::new(GeneLibrary::new());
    vm.execute_bytecode(&bytecode).unwrap();
    assert_eq!(
        vm.trace,
        vec!["DEF g".to_string(), "REF g (5b)".to_string(), "ALE seed=42".to_string(), "STP".to_string()]
    );
}

#[test]
fn apoptosis_message_counts() {
    let ast = Instruction::Sequence(vec![reference("m1"), reference("m2"), reference("m3"), Instruction::Stp]);
    let bytecode = Compiler::compile(&ast).unwrap();
    let mut vm = STBVM::new_with_mode(GeneLibrary::new(), true);
    let r = vm.execute_bytecode(&bytecode);
    assert_eq!(r.unwrap_err(), VmError::Apoptosis("3/4 genes falharam (>50%)".to_string()));
    assert_eq!(vm.trace[0], "⚠️ MISS m1");
}

#[test]
fn exactly_half_failed_is_not_apoptosis() {
    let ast = Instruction::Sequence(vec![def("a", b"A"), reference("missing")]);
    let bytecode = Compiler::compile(&ast).unwrap();
    let mut vm = STBVM::new_with_mode(GeneLibrary::new(), true);
    assert_eq!(vm.execute_bytecode(&bytecode).unwrap(), b"");
}

#[test]
fn locals_persist_between_runs() {
    let mut vm = STBVM::new(GeneLibrary::new());
    let first = Compiler::compile(&def("p", b"P")).unwrap();
    vm.execute_bytecode(&first).unwrap();
    let second = Compiler::compile(&reference("p")).unwrap();
    assert_eq!(vm.execute_bytecode(&second).unwrap(), b"P");
}

#[test]
fn library_genes_are_resolved_and_counted() {
    let mut library = GeneLibrary::new();
    library.insert(Gene::new("lib".to_string(), b"GENE".to_vec()));
    let ast = Instruction::Rpt { count: 2, body: Box::new(reference("lib")) };
    let bytecode = Compiler::compile(&ast).unwrap();
    let capsid = Capsid::from_bytecode("d", &bytecode);
    let unit = TransmissionUnit { capsid, used_genes: vec![], bytecode, compressed_residual: vec![] };
    assert_eq!(transmit(unit, &mut library).unwrap(), b"GENEGENE");
    assert_eq!(library.get("lib").unwrap().hits, 2);
}

#[test]
fn locals_shadow_library_genes() {
    let mut library = GeneLibrary::new();
    library.insert(Gene::new("x".to_string(), b"LIB".to_vec()));
    let ast = Instruction::Sequence(vec![def("x", b"LOCAL"), reference("x")]);
    let bytecode = Compiler::compile(&ast).unwrap();
    let mut vm = STBVM::new(library);
    assert_eq!(vm.execute_bytecode(&bytecode).unwrap(), b"LOCAL");
}

#[test]
fn invalid_utf8_id_is_read_lossily() {
    let p = BytecodeProgram { bytes: vec![0x02, 1, 0, 0xFF] };
    let mut vm = STBVM::new(GeneLibrary::new());
    assert_eq!(vm.execute_bytecode(&p).unwrap_err(), VmError::GeneNotFound("\u{FFFD}".to_string()));
}

#[test]
fn capsid_fields() {
    let p = BytecodeProgram { bytes: b"abc".to_vec() };
    let c = Capsid::from_bytecode("video", &p);
    assert_eq!(c.domain, "video");
    assert_eq!(c.lookup_version, "0.2.0");
    assert_eq!(c.entry_point, "main");
    assert!(matches!(c.tolerance, TolerancePolicy::Perceptual));
    assert!(matches!(c.fallback, FallbackPolicy::Classical));
    assert!(c.metadata.is_empty());
    assert_eq!(
        c.bytecode_checksum.to_vec(),
        vec![
            0xba, 0x78, 0x16, 0xbf, 0x8f, 0x01, 0xcf, 0xea, 0x41, 0x41, 0x40, 0xde, 0x5d, 0xae, 0x22, 0x23, 0xb0, 0x03,
            0x61, 0xa3, 0x96, 0x17, 0x7a, 0x9c, 0xb4, 0x10, 0xff, 0x61, 0xf2, 0x00, 0x15, 0xad
        ]
    );
}

fn tampered_unit(fallback: FallbackPolicy) -> TransmissionUnit {
    let bytecode = Compiler::compile(&Instruction::Sequence(vec![def("m", b"M"), reference("m")])).unwrap();
    let mut capsid = Capsid::from_bytecode("t", &bytecode);
    capsid.fallback = fallback;
    capsid.bytecode_checksum[0] ^= 1;
    TransmissionUnit { capsid, used_genes: vec![], bytecode, compressed_residual: vec![] }
}

#[test]
fn tampered_classical_is_refused() {
    let mut library = GeneLibrary::new();
    let r = transmit(tampered_unit(FallbackPolicy::Classical), &mut library);
    assert_eq!(r.unwrap_err(), VmError::Custom("Checksum mismatch – fallback clássico".to_string()));
}

#[test]
fn tampered_abort_is_refused() {
    let mut library = GeneLibrary::new();
    let r = transmit(tampered_unit(FallbackPolicy::Abort), &mut library);
    assert_eq!(r.unwrap_err(), VmError::Custom("Checksum mismatch – abortado".to_string()));
}

#[test]
fn tampered_partial_still_runs() {
    let mut library = GeneLibrary::new();
    let r = transmit(tampered_unit(FallbackPolicy::Partial), &mut library);
    assert_eq!(r.unwrap(), b"M");
}

#[test]
fn gene_signature_is_sha256_of_payload() {
    let g = Gene::new("abc".to_string(), b"abc".to_vec());
    assert_eq!(g.signature, Capsid::compute_checksum(b"abc"));
    assert_eq!(g.signature[0], 0xba);
    assert_eq!(g.signature[31], 0xad);
    assert_eq!((g.hits, g.hits_saved), (0, 0));
}

#[test]
fn gene_counters_freeze_and_thaw() {
    let mut g = Gene::new("c".to_string(), vec![1, 2]);
    g.record_use();
    g.record_use();
    g.freeze();
    assert_eq!(g.hits_saved, 2);
    g.record_use();
    g.thaw();
    assert_eq!(g.hits, 2);
    let mut h = g.clone();
    h.freeze();
    h.thaw();
    assert_eq!(h.hits, 2);
}

#[test]
fn insert_then_get() {
    let mut library = GeneLibrary::new();
    let mut g = Gene::new("k".to_string(), b"v1".to_vec());
    g.record_use();
    library.insert(g);
    // inserting restores the counter from its saved value
    assert_eq!(library.get("k").unwrap().hits, 0);
    library.insert(Gene::new("k".to_string(), b"v2".to_vec()));
    library.insert(Gene::new("other".to_string(), b"o".to_vec()));
    assert_eq!(library.get("k").unwrap().payload, b"v2");
    assert_eq!(library.get("other").unwrap().payload, b"o");
    assert!(library.get("none").is_none());
}

#[test]
fn stored_library_reloads_unchanged() {
    let mut library = GeneLibrary::new();
    library.insert(Gene::new("a".to_string(), b"AAA".to_vec()));
    library.insert(Gene::new("b".to_string(), b"BB".to_vec()));
    let bytecode = Compiler::compile(&Instruction::Sequence(vec![reference("a"), reference("a")])).unwrap();
    let mut vm = STBVM::new(library);
    vm.execute_bytecode(&bytecode).unwrap();
    let capsid = Capsid::from_bytecode("x", &bytecode);
    let mut library = GeneLibrary::new();
    library.insert(Gene::new("a".to_string(), b"AAA".to_vec()));
    transmit(TransmissionUnit { capsid, used_genes: vec![], bytecode, compressed_residual: vec![] }, &mut library)
        .unwrap();
    let stored = library.snapshot();
    assert_eq!(stored[0].1.hits_saved, 2);
    let reloaded = GeneLibrary::from_stored(&stored, std::path::PathBuf::from("lib.bin")).unwrap();
    let a = reloaded.get("a").unwrap();
    assert_eq!((a.hits, a.hits_saved, a.payload.clone()), (2, 2, b"AAA".to_vec()));
    assert_eq!(reloaded.storage_path().unwrap(), &std::path::PathBuf::from("lib.bin"));
}

#[test]
fn tampered_gene_is_rejected_on_load() {
    let mut bad = Gene::new("bad".to_string(), b"payload".to_vec());
    bad.payload.push(b'!');
    let good = Gene::new("good".to_string(), b"ok".to_vec());
    let stored = vec![("good".to_string(), good), ("bad".to_string(), bad)];
    let r = GeneLibrary::from_stored(&stored, std::path::PathBuf::from("x"));
    assert_eq!(r.err().unwrap(), "Gene 'bad' signature mismatch");
}

#[test]
fn later_stored_entry_wins() {
    let first = Gene::new("one".to_string(), b"1".to_vec());
    let second = Gene::new("two".to_string(), b"2".to_vec());
    let stored = vec![("k".to_string(), first), ("k".to_string(), second)];
    let lib = GeneLibrary::from_stored(&stored, std::path::PathBuf::from("x")).unwrap();
    assert_eq!(lib.get("k").unwrap().payload, b"2");
    assert_eq!(lib.snapshot().len(), 1);
}

#[test]
fn retain_marked_keeps_marked_genes_in_order() {
    let mut library = GeneLibrary::new();
    for id in ["a", "b", "c", "d"] {
        library.insert(Gene::new(id.to_string(), id.as_bytes().to_vec()));
    }
    library.retain_marked(&vec![true, false, true]);
    let ids: Vec<String> = library.snapshot().into_iter().map(|(k, _)| k).collect();
    assert_eq!(ids, vec!["a".to_string(), "c".to_string()]);
}

#[test]
fn residual_roundtrip() {
    let data: Vec<u8> = b"structural generative transmission ".repeat(50);
    let packed = compress_residual(&data, 3);
    assert_ne!(packed, data);
    assert!(packed.len() < data.len());
    assert_eq!(decompress_residual(&packed), data);
}

#[test]
fn residual_passes_raw_data_through() {
    let raw = b"not a zstd frame".to_vec();
    assert_eq!(decompress_residual(&raw), raw);
}

#[test]
fn byte_counts_histogram() {
    let counts = byte_counts(b"abacab");
    assert_eq!(counts.len(), 256);
    assert_eq!(counts[b'a' as usize], 3);
    assert_eq!(counts[b'b' as usize], 2);
    assert_eq!(counts[b'c' as usize], 1);
    assert_eq!(counts.iter().sum::<usize>(), 6);
}

#[test]
fn segment_classes_compare() {
    assert_eq!(SegmentClass::Structured, SegmentClass::Structured);
    assert_ne!(SegmentClass::Substitutable, SegmentClass::Residual);
}

#[test]
fn machine_hands_back_library_with_counts() {
    let mut library = GeneLibrary::new();
    library.insert(Gene::new("g".to_string(), b"AB".to_vec()));
    let ast = Instruction::Rpt { count: 3, body: Box::new(reference("g")) };
    let bytecode = Compiler::compile(&ast).unwrap();
    let mut vm = STBVM::new(library);
    assert_eq!(vm.execute_bytecode(&bytecode).unwrap(), b"ABABAB");
    let back = vm.into_library();
    assert_eq!(back.get("g").unwrap().hits, 3);
}

#[test]
fn library_copy_keeps_entries_and_counts() {
    let mut library = GeneLibrary::new();
    library.insert(Gene::new("a".to_string(), b"1".to_vec()));
    library.insert(Gene::new("b".to_string(), b"22".to_vec()));
    let copy = library.clone();
    let a = copy.get("a").unwrap();
    let b = copy.get("b").unwrap();
    assert_eq!((a.payload, b.payload), (b"1".to_vec(), b"22".to_vec()));
    assert!(copy.get("c").is_none());
    assert_eq!(copy.storage_path(), library.storage_path());
}

#[test]
fn machine_library_shows_uses_and_local_shadowing() {
    let mut lib = GeneLibrary::new();
    lib.insert(Gene::new("g".to_string(), b"hi".to_vec()));
    let ast = Instruction::Sequence(vec![reference("g"), def("g", b"lo"), reference("g"), Instruction::Stp]);
    let bytecode = Compiler::compile(&ast).unwrap();
    let mut vm = STBVM::new(lib);
    assert_eq!(vm.execute_bytecode(&bytecode).unwrap(), b"hilo");
    assert_eq!(vm.library().get("g").unwrap().hits, 1);
}

#[test]
fn library_counts_a_use_in_place() {
    let mut lib = GeneLibrary::new();
    lib.insert(Gene::new("a".to_string(), b"x".to_vec()));
    assert!(lib.record_use("a"));
    assert!(lib.record_use("a"));
    assert!(!lib.record_use("missing"));
    assert_eq!(lib.get("a").unwrap().hits, 2);
}

#[test]
fn gene_inserted_into_machine_is_resolved_by_later_runs() {
    let mut vm = STBVM::new(GeneLibrary::new());
    let bytecode = Compiler::compile(&reference("late")).unwrap();
    assert_eq!(vm.execute_bytecode(&bytecode), Err(VmError::GeneNotFound("late".to_string())));
    vm.insert_gene(Gene::new("late".to_string(), b"ok".to_vec()));
    assert_eq!(vm.execute_bytecode(&bytecode).unwrap(), b"ok");
    assert_eq!(vm.library().get("late").unwrap().hits, 1);
}

#[test]
fn oversized_generation_fails_without_output() {
    let ast = Instruction::Sequence(vec![def("a", b"A"), reference("a"), Instruction::Ale { seed: 1, len: MAX_OUTPUT_SIZE + 1 }]);
    let mut vm = STBVM::new(GeneLibrary::new());
    let r = vm.execute_bytecode(&Compiler::compile(&ast).unwrap());
    assert!(matches!(r, Err(VmError::Custom(_))));
}
