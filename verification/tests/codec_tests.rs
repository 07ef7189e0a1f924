use stone_prover::codec::{
    config_from_bytes, config_to_bytes, layout_of_json, layout_to_json, parameters_from_bytes,
    parameters_to_bytes, private_input_from_bytes, private_input_to_bytes, proof_from_bytes,
    proof_to_bytes, public_input_from_bytes, public_input_to_bytes,
};
use stone_prover::json::Json;
use stone_prover::models::{
    CachedLdeConfig, FriParameters, Layout, MemorySegment, MemorySegments, MemorySlot, PrivateInput,
    Proof, ProverConfig, ProverParameters, PublicInput, StarkParameters,
};

fn sample_config() -> ProverConfig {
    ProverConfig {
        cached_lde_config: CachedLdeConfig { store_full_lde: false, use_fft_for_eval: true },
        constraint_polynomial_task_size: 256,
        n_out_of_memory_merkle_layers: 1,
        table_prover_n_tasks_per_segment: 32,
    }
}

fn sample_parameters() -> ProverParameters {
    ProverParameters {
        field: "PrimeField0".to_string(),
        stark: StarkParameters {
            fri: FriParameters {
                fri_step_list: vec![0, 4, 4, 3],
                last_layer_degree_bound: 64,
                n_queries: 18,
                proof_of_work_bits: 24,
            },
            log_n_cosets: 4,
        },
        use_extension_field: false,
    }
}

fn seg(b: u32, s: u32) -> MemorySegment {
    MemorySegment { begin_addr: b, stop_ptr: s }
}

fn sample_public_input(dynamic: bool) -> PublicInput {
    PublicInput {
        layout: Layout::Small,
        rc_min: 32762,
        rc_max: 32769,
        n_steps: 512,
        memory_segments: MemorySegments {
            program: seg(1, 5),
            execution: seg(6, 100),
            output: seg(101, 105),
            pedersen: seg(106, 110),
            range_check: seg(111, 120),
            ecdsa: seg(121, 130),
        },
        public_memory: vec![
            MemorySlot { address: 1, value: "0x40780017fff7fff".to_string(), page: 0 },
            MemorySlot { address: 2, value: "0x4".to_string(), page: 0 },
        ],
        dynamic_params: if dynamic {
            Some(vec![("cpu_component_step".to_string(), 1), ("memory_units_row_ratio".to_string(), 4)])
        } else {
            None
        },
    }
}

#[test]
fn config_round_trip() {
    let c = sample_config();
    let bytes = config_to_bytes(&c);
    let d = config_from_bytes(&bytes).expect("round trip failed");
    assert_eq!(d.cached_lde_config.store_full_lde, c.cached_lde_config.store_full_lde);
    assert_eq!(d.cached_lde_config.use_fft_for_eval, c.cached_lde_config.use_fft_for_eval);
    assert_eq!(d.constraint_polynomial_task_size, c.constraint_polynomial_task_size);
    assert_eq!(d.n_out_of_memory_merkle_layers, c.n_out_of_memory_merkle_layers);
    assert_eq!(d.table_prover_n_tasks_per_segment, c.table_prover_n_tasks_per_segment);
}

#[test]
fn config_canonical_text() {
    let c = sample_config();
    let bytes = config_to_bytes(&c);
    let mut expected = String::new();
    expected.push_str("{\"cached_lde_config\":{\"store_full_lde\":false,\"use_fft_for_eval\":true},");
    expected.push_str("\"constraint_polynomial_task_size\":256,");
    expected.push_str("\"n_out_of_memory_merkle_layers\":1,");
    expected.push_str("\"table_prover_n_tasks_per_segment\":32}");
    assert_eq!(String::from_utf8(bytes).unwrap(), expected);
}

#[test]
fn parameters_round_trip() {
    let p = sample_parameters();
    let bytes = parameters_to_bytes(&p);
    let d = parameters_from_bytes(&bytes).expect("round trip failed");
    assert_eq!(d.field, p.field);
    assert_eq!(d.stark.fri.fri_step_list, p.stark.fri.fri_step_list);
    assert_eq!(d.stark.fri.last_layer_degree_bound, p.stark.fri.last_layer_degree_bound);
    assert_eq!(d.stark.fri.n_queries, p.stark.fri.n_queries);
    assert_eq!(d.stark.fri.proof_of_work_bits, p.stark.fri.proof_of_work_bits);
    assert_eq!(d.stark.log_n_cosets, p.stark.log_n_cosets);
    assert_eq!(d.use_extension_field, p.use_extension_field);
}

#[test]
fn public_input_round_trip() {
    for dynamic in [false, true] {
        let p = sample_public_input(dynamic);
        let bytes = public_input_to_bytes(&p);
        let d = public_input_from_bytes(&bytes).expect("round trip failed");
        assert_eq!(d.layout, p.layout);
        assert_eq!(d.rc_min, p.rc_min);
        assert_eq!(d.rc_max, p.rc_max);
        assert_eq!(d.n_steps, p.n_steps);
        assert_eq!(d.memory_segments.program.begin_addr, 1);
        assert_eq!(d.memory_segments.ecdsa.stop_ptr, 130);
        assert_eq!(d.public_memory.len(), 2);
        assert_eq!(d.public_memory[0].value, p.public_memory[0].value);
        assert_eq!(d.public_memory[1].address, 2);
        match (d.dynamic_params, p.dynamic_params) {
            (None, None) => {}
            (Some(a), Some(b)) => assert_eq!(a, b),
            _ => panic!("dynamic params did not round trip"),
        }
    }
}

#[test]
fn private_input_round_trip() {
    let p = PrivateInput {
        memory_path: "/tmp/x/memory.bin".to_string(),
        trace_path: "/tmp/x/trace.bin".to_string(),
        pedersen: vec![],
        range_check: vec![],
        ecdsa: vec![],
    };
    let bytes = private_input_to_bytes(&p);
    let d = private_input_from_bytes(&bytes).expect("round trip failed");
    assert_eq!(d.memory_path, p.memory_path);
    assert_eq!(d.trace_path, p.trace_path);
    assert_eq!(d.pedersen, p.pedersen);
    assert_eq!(d.range_check, p.range_check);
    assert_eq!(d.ecdsa, p.ecdsa);
}

#[test]
fn proof_round_trip() {
    let p = Proof { proof_hex: "0x1234abcdef".to_string() };
    let bytes = proof_to_bytes(&p);
    let d = proof_from_bytes(&bytes).expect("round trip failed");
    assert_eq!(d.proof_hex, p.proof_hex);
}

#[test]
fn layout_accepts_exactly_the_eight_tags() {
    let tags = [
        ("plain", Layout::Plain),
        ("small", Layout::Small),
        ("dex", Layout::Dex),
        ("recursive", Layout::Recursive),
        ("starknet", Layout::Starknet),
        ("recursive_large_output", Layout::RecursiveLargeOutput),
        ("all_solidity", Layout::AllSolidity),
        ("starknet_with_keccak", Layout::StarknetWithKeccak),
    ];
    for (tag, layout) in tags {
        let j = Json::Str(tag.as_bytes().to_vec());
        assert_eq!(layout_of_json(&j), Some(layout));
        match layout_to_json(&layout) {
            Json::Str(b) => assert_eq!(b, tag.as_bytes().to_vec()),
            _ => panic!("layout must serialize as a string"),
        }
    }
    for bad in ["", "Plain", "smalll", "starknet_with_kecca", "layout", "small "] {
        let j = Json::Str(bad.as_bytes().to_vec());
        assert_eq!(layout_of_json(&j), None, "tag {:?} must be rejected", bad);
    }
    assert_eq!(layout_of_json(&Json::Null), None);
}

#[test]
fn dynamic_params_absent_when_omitted_or_null() {
    let mut base = String::new();
    base.push_str("{\"layout\":\"small\",\"rc_min\":0,\"rc_max\":10,\"n_steps\":8,");
    base.push_str("\"memory_segments\":{");
    base.push_str("\"program\":{\"begin_addr\":1,\"stop_ptr\":2},");
    base.push_str("\"execution\":{\"begin_addr\":3,\"stop_ptr\":4},");
    base.push_str("\"output\":{\"begin_addr\":5,\"stop_ptr\":6},");
    base.push_str("\"pedersen\":{\"begin_addr\":7,\"stop_ptr\":8},");
    base.push_str("\"range_check\":{\"begin_addr\":9,\"stop_ptr\":10},");
    base.push_str("\"ecdsa\":{\"begin_addr\":11,\"stop_ptr\":12}},");
    base.push_str("\"public_memory\":[]");
    let omitted = format!("{}}}", base);
    let with_null = format!("{},\"dynamic_params\":null}}", base);
    let populated = format!("{},\"dynamic_params\":{{\"steps\":3}}}}", base);

    let a = public_input_from_bytes(&omitted.into_bytes()).expect("omitted field must parse");
    assert_eq!(a.dynamic_params, None);
    let b = public_input_from_bytes(&with_null.into_bytes()).expect("null field must parse");
    assert_eq!(b.dynamic_params, None);
    let c = public_input_from_bytes(&populated.into_bytes()).expect("mapping must parse");
    assert_eq!(c.dynamic_params, Some(vec![("steps".to_string(), 3)]));
}

#[test]
fn proof_decode_ignores_unknown_fields() {
    let text = "{\"n_verifier_friendly_layers\": 7, \"proof_hex\": \"0xabc\", \"extra\": [1, 2, {\"x\": null}]}";
    let p = proof_from_bytes(&text.as_bytes().to_vec()).expect("unknown fields must be ignored");
    assert_eq!(p.proof_hex, "0xabc");
}

#[test]
fn proof_decode_rejects_malformed_documents() {
    for bad in [
        "",
        "not json",
        "{\"proof_hex\": \"0xabc\"",
        "{\"proof_hex\": 17}",
        "{\"proof\": \"0xabc\"}",
        "[\"proof_hex\"]",
        "{\"proof_hex\": \"0xabc\"} trailing",
    ] {
        assert!(proof_from_bytes(&bad.as_bytes().to_vec()).is_none(), "{:?} must fail", bad);
    }
}

#[test]
fn decode_tolerates_whitespace_and_field_order() {
    let text = " {\n\t\"use_extension_field\" : false,\n \"field\" : \"PrimeField0\",\n \"stark\" : {\"log_n_cosets\": 2, \"fri\": {\"fri_step_list\": [1, 2], \"last_layer_degree_bound\": 64, \"n_queries\": 18, \"proof_of_work_bits\": 24}}\n}\n";
    let p = parameters_from_bytes(&text.as_bytes().to_vec()).expect("reordered document must parse");
    assert_eq!(p.field, "PrimeField0");
    assert_eq!(p.stark.log_n_cosets, 2);
    assert_eq!(p.stark.fri.fri_step_list, vec![1, 2]);
    assert!(!p.use_extension_field);
}

#[test]
fn string_escapes_round_trip() {
    let p = Proof { proof_hex: "a\"b\\c\u{1}\td".to_string() };
    let bytes = proof_to_bytes(&p);
    let d = proof_from_bytes(&bytes).expect("escaped text must parse");
    assert_eq!(d.proof_hex, p.proof_hex);
}

#[test]
fn canonical_text_is_plain_json_to_other_readers() {
    let bytes = public_input_to_bytes(&sample_public_input(true));
    let v: serde_json::Value = serde_json::from_slice(&bytes).expect("canonical text must be JSON");
    assert_eq!(v["layout"], serde_json::Value::String("small".to_string()));
    assert_eq!(v["n_steps"], serde_json::Value::from(512u32));
    assert_eq!(v["rc_min"], serde_json::Value::from(32762u32));
    assert_eq!(v["memory_segments"]["ecdsa"]["stop_ptr"], serde_json::Value::from(130u32));
    assert_eq!(v["public_memory"][0]["value"], serde_json::Value::String("0x40780017fff7fff".to_string()));
    assert_eq!(v["dynamic_params"]["cpu_component_step"], serde_json::Value::from(1u32));
}
