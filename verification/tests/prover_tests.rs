use stone_prover::error::{CommandOutcome, ProverError};
use stone_prover::models::{
    CachedLdeConfig, FriParameters, Layout, MemorySegment, MemorySegments, PrivateInput,
    ProverConfig, ProverParameters, PublicInput, StarkParameters,
};
use stone_prover::prover::{
    classify_engine_outcome, decode_proof_artifact, derive_private_input, engine_args,
    prepare_prover_files, read_proof_artifact, run_prover, run_prover_from_command_line,
};

fn seg(b: u32, s: u32) -> MemorySegment {
    MemorySegment { begin_addr: b, stop_ptr: s }
}

fn sample_inputs() -> (PublicInput, Vec<u8>, Vec<u8>, ProverConfig, ProverParameters) {
    let public_input = PublicInput {
        layout: Layout::Small,
        rc_min: 0,
        rc_max: 100,
        n_steps: 16,
        memory_segments: MemorySegments {
            program: seg(1, 2),
            execution: seg(3, 4),
            output: seg(5, 6),
            pedersen: seg(7, 8),
            range_check: seg(9, 10),
            ecdsa: seg(11, 12),
        },
        public_memory: vec![],
        dynamic_params: None,
    };
    let config = ProverConfig {
        cached_lde_config: CachedLdeConfig { store_full_lde: false, use_fft_for_eval: false },
        constraint_polynomial_task_size: 256,
        n_out_of_memory_merkle_layers: 0,
        table_prover_n_tasks_per_segment: 32,
    };
    let parameters = ProverParameters {
        field: "PrimeField0".to_string(),
        stark: StarkParameters {
            fri: FriParameters {
                fri_step_list: vec![0, 4],
                last_layer_degree_bound: 64,
                n_queries: 18,
                proof_of_work_bits: 24,
            },
            log_n_cosets: 4,
        },
        use_extension_field: false,
    };
    (public_input, vec![1, 2, 3, 4], vec![5, 6, 7, 8], config, parameters)
}

#[test]
fn engine_args_exact_flag_order() {
    let args = engine_args("out", "pub", "priv", "cfg", "par");
    let expected = vec![
        "--out-file",
        "out",
        "--public-input-file",
        "pub",
        "--private-input-file",
        "priv",
        "--prover-config-file",
        "cfg",
        "--parameter-file",
        "par",
    ];
    assert_eq!(args, expected);
}

#[test]
fn derived_private_input_references_sibling_files() {
    let p: PrivateInput =
        derive_private_input(&"/w/memory.bin".to_string(), &"/w/trace.bin".to_string());
    assert_eq!(p.memory_path, "/w/memory.bin");
    assert_eq!(p.trace_path, "/w/trace.bin");
    assert!(p.pedersen.is_empty() && p.range_check.is_empty() && p.ecdsa.is_empty());
}

#[test]
fn classify_goes_by_exit_status_alone() {
    let ok = CommandOutcome { success: true, exit_code: 0, stdout: vec![], stderr: b"noise".to_vec() };
    assert!(classify_engine_outcome(ok).is_ok());

    let bad = CommandOutcome {
        success: false,
        exit_code: 1,
        stdout: vec![],
        stderr: b"bad input".to_vec(),
    };
    match classify_engine_outcome(bad) {
        Err(ProverError::CommandError(c)) => {
            assert_eq!(c.exit_code, 1);
            let err_text = String::from_utf8(c.stderr).unwrap();
            assert!(err_text.contains("bad input"));
        }
        _ => panic!("a non-zero exit must be a command failure"),
    }
}

#[test]
fn decode_failure_is_distinct() {
    match decode_proof_artifact(&b"not json at all".to_vec()) {
        Err(ProverError::DecodeError) => {}
        _ => panic!("malformed output must be a decode failure"),
    }
    let p = decode_proof_artifact(&b"{\"proof_hex\": \"0xf00\"}".to_vec()).unwrap();
    assert_eq!(p.proof_hex, "0xf00");
}

#[test]
fn prepare_resolves_fixed_file_names() {
    let (public_input, memory, trace, config, parameters) = sample_inputs();
    let ws = prepare_prover_files(&public_input, &memory, &trace, &config, &parameters)
        .expect("preparing the working directory failed");
    assert_eq!(ws.public_input_file, format!("{}/public_input.json", ws.dir_path));
    assert_eq!(ws.private_input_file, format!("{}/private_input.json", ws.dir_path));
    assert_eq!(ws.memory_file, format!("{}/memory.bin", ws.dir_path));
    assert_eq!(ws.trace_file, format!("{}/trace.bin", ws.dir_path));
    assert_eq!(ws.prover_config_file, format!("{}/prover_config_file.json", ws.dir_path));
    assert_eq!(ws.prover_parameter_file, format!("{}/parameters.json", ws.dir_path));
    assert_eq!(ws.proof_file, format!("{}/proof.json", ws.dir_path));
    // The placeholder output file exists and is empty before any invocation.
    assert_eq!(read_proof_artifact(&ws), Some(vec![]));
}

#[test]
fn working_directory_is_removed_on_drop() {
    let (public_input, memory, trace, config, parameters) = sample_inputs();
    let ws = prepare_prover_files(&public_input, &memory, &trace, &config, &parameters)
        .expect("preparing the working directory failed");
    let dir = ws.dir_path.clone();
    let file = ws.public_input_file.clone();
    assert!(std::path::Path::new(&dir).exists());
    assert!(std::path::Path::new(&file).exists());
    drop(ws);
    assert!(!std::path::Path::new(&file).exists());
    assert!(!std::path::Path::new(&dir).exists());
}

#[test]
fn missing_engine_is_a_spawn_failure() {
    let (public_input, memory, trace, config, parameters) = sample_inputs();
    match run_prover(&public_input, &memory, &trace, &config, &parameters) {
        Err(ProverError::SpawnError(_)) => {}
        Err(e) => panic!("expected a spawn failure, got {:?}", e),
        Ok(_) => panic!("the engine binary must be absent in this environment"),
    }
}

#[test]
fn missing_engine_is_a_spawn_failure_from_command_line() {
    match run_prover_from_command_line("pub", "priv", "cfg", "par", "out") {
        Err(ProverError::SpawnError(_)) => {}
        Err(e) => panic!("expected a spawn failure, got {:?}", e),
        Ok(()) => panic!("the engine binary must be absent in this environment"),
    }
}
