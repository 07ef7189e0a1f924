use stone_prover::codec::{parameters_from_bytes, private_input_from_bytes, public_input_from_bytes};
use stone_prover::models::Layout;

/// The private-input document of the fibonacci example.
fn fibonacci_private_input() -> Vec<u8> {
    let mut s = String::new();
    s.push_str("{\n");
    s.push_str("    \"memory_path\": \"/home/root/fibonacci_memory.json\",\n");
    s.push_str("    \"trace_path\": \"/home/root/fibonacci_trace.json\",\n");
    s.push_str("    \"pedersen\": [],\n");
    s.push_str("    \"range_check\": [],\n");
    s.push_str("    \"ecdsa\": []\n");
    s.push_str("}\n");
    s.into_bytes()
}

/// The public-input document of the fibonacci example.
fn fibonacci_public_input() -> Vec<u8> {
    let mut s = String::new();
    s.push_str("{\n");
    s.push_str("    \"layout\": \"small\",\n");
    s.push_str("    \"rc_min\": 32762,\n");
    s.push_str("    \"rc_max\": 32769,\n");
    s.push_str("    \"n_steps\": 512,\n");
    s.push_str("    \"memory_segments\": {\n");
    s.push_str("        \"program\": {\"begin_addr\": 1, \"stop_ptr\": 5},\n");
    s.push_str("        \"execution\": {\"begin_addr\": 6, \"stop_ptr\": 362},\n");
    s.push_str("        \"output\": {\"begin_addr\": 362, \"stop_ptr\": 362},\n");
    s.push_str("        \"pedersen\": {\"begin_addr\": 362, \"stop_ptr\": 362},\n");
    s.push_str("        \"range_check\": {\"begin_addr\": 426, \"stop_ptr\": 426},\n");
    s.push_str("        \"ecdsa\": {\"begin_addr\": 490, \"stop_ptr\": 490}\n");
    s.push_str("    },\n");
    s.push_str("    \"public_memory\": [\n");
    s.push_str("        {\"address\": 1, \"value\": \"0x40780017fff7fff\", \"page\": 0},\n");
    s.push_str("        {\"address\": 2, \"value\": \"0x1\", \"page\": 0}\n");
    s.push_str("    ]\n");
    s.push_str("}\n");
    s.into_bytes()
}

/// The prover-parameter document of the fibonacci example.
fn fibonacci_parameters() -> Vec<u8> {
    let mut s = String::new();
    s.push_str("{\n");
    s.push_str("    \"field\": \"PrimeField0\",\n");
    s.push_str("    \"stark\": {\n");
    s.push_str("        \"fri\": {\n");
    s.push_str("            \"fri_step_list\": [0, 4, 4, 3],\n");
    s.push_str("            \"last_layer_degree_bound\": 64,\n");
    s.push_str("            \"n_queries\": 18,\n");
    s.push_str("            \"proof_of_work_bits\": 24\n");
    s.push_str("        },\n");
    s.push_str("        \"log_n_cosets\": 4\n");
    s.push_str("    },\n");
    s.push_str("    \"use_extension_field\": false\n");
    s.push_str("}\n");
    s.into_bytes()
}

/// Sanity check: verify that we can deserialize a private input document.
#[test]
fn deserialize_private_input() {
    let private_input = private_input_from_bytes(&fibonacci_private_input())
        .expect("Failed to deserialize private input fixture");

    assert_eq!(private_input.memory_path, "/home/root/fibonacci_memory.json");
    assert_eq!(private_input.trace_path, "/home/root/fibonacci_trace.json");
    assert_eq!(private_input.pedersen, Vec::<u32>::new());
    assert_eq!(private_input.range_check, Vec::<u32>::new());
    assert_eq!(private_input.ecdsa, Vec::<u32>::new());
}

/// Sanity check: verify that we can deserialize a public input document.
#[test]
fn deserialize_public_input() {
    let public_input = public_input_from_bytes(&fibonacci_public_input())
        .expect("Failed to deserialize public input fixture");

    // We don't check all fields, just ensure that we can deserialize the fixture
    assert_eq!(public_input.layout, Layout::Small);
    assert_eq!(public_input.n_steps, 512);
    assert_eq!(public_input.dynamic_params, None);
}

#[test]
fn deserialize_solver_parameters() {
    let parameters = parameters_from_bytes(&fibonacci_parameters())
        .expect("Failed to deserialize prover parameters fixture");

    // We don't check all fields, just ensure that we can deserialize the fixture
    assert!(!parameters.use_extension_field);
}
