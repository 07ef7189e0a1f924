//! Typed representations of every document exchanged with the external
//! engine, together with their mathematical views.
//!
//! All entities are plain value records used as serialization boundaries;
//! none carries an invariant beyond the ranges its field types already force.

use vstd::prelude::*;

verus! {

/// Low-degree-extension caching configuration.
#[derive(Clone, Debug)]
pub struct CachedLdeConfig {
    pub store_full_lde: bool,
    pub use_fft_for_eval: bool,
}

/// Engine-agnostic tuning knobs.
#[derive(Clone, Debug)]
pub struct ProverConfig {
    pub cached_lde_config: CachedLdeConfig,
    pub constraint_polynomial_task_size: i32,
    pub n_out_of_memory_merkle_layers: i32,
    pub table_prover_n_tasks_per_segment: i32,
}

/// FRI tuning values, passed through to the engine unmodified.
#[derive(Clone, Debug)]
pub struct FriParameters {
    pub fri_step_list: Vec<u32>,
    pub last_layer_degree_bound: u32,
    pub n_queries: u32,
    pub proof_of_work_bits: u32,
}

/// STARK tuning values.
#[derive(Clone, Debug)]
pub struct StarkParameters {
    pub fri: FriParameters,
    pub log_n_cosets: i32,
}

/// Algorithm-specific parameters for one proving run.
#[derive(Clone, Debug)]
pub struct ProverParameters {
    pub field: String,
    pub stark: StarkParameters,
    pub use_extension_field: bool,
}

/// Prover-only input descriptor: where the memory and trace files sit, plus
/// three placeholder sequences whose meaning belongs to the engine.
#[derive(Clone, Debug)]
pub struct PrivateInput {
    pub memory_path: String,
    pub trace_path: String,
    pub pedersen: Vec<u32>,
    pub range_check: Vec<u32>,
    pub ecdsa: Vec<u32>,
}

/// Memory/segment arrangement profile; the tag written on the wire is the
/// contract with the engine.
#[derive(Clone, Copy, PartialEq, Eq, Structural, Debug)]
pub enum Layout {
    Plain,
    Small,
    Dex,
    Recursive,
    Starknet,
    RecursiveLargeOutput,
    AllSolidity,
    StarknetWithKeccak,
}

/// One memory segment: begin address and stop pointer.
#[derive(Clone, Copy, Debug)]
pub struct MemorySegment {
    pub begin_addr: u32,
    pub stop_ptr: u32,
}

/// The six named segments every public input carries.
#[derive(Clone, Copy, Debug)]
pub struct MemorySegments {
    pub program: MemorySegment,
    pub execution: MemorySegment,
    pub output: MemorySegment,
    pub pedersen: MemorySegment,
    pub range_check: MemorySegment,
    pub ecdsa: MemorySegment,
}

/// One public memory slot: address, value (hexadecimal string), page.
#[derive(Clone, Debug)]
pub struct MemorySlot {
    pub address: u32,
    pub value: String,
    pub page: u32,
}

/// The verifier-visible half of the engine's input contract.
#[derive(Clone, Debug)]
pub struct PublicInput {
    pub layout: Layout,
    pub rc_min: u32,
    pub rc_max: u32,
    pub n_steps: u32,
    pub memory_segments: MemorySegments,
    pub public_memory: Vec<MemorySlot>,
    pub dynamic_params: Option<Vec<(String, u32)>>,
}

/// The engine's output, reduced to the one field this layer maps; other
/// fields of the output document are ignored.
#[derive(Clone, Debug)]
pub struct Proof {
    pub proof_hex: String,
}

/// View of `ProverConfig`.
pub struct ProverConfigV {
    pub store_full_lde: bool,
    pub use_fft_for_eval: bool,
    pub constraint_polynomial_task_size: int,
    pub n_out_of_memory_merkle_layers: int,
    pub table_prover_n_tasks_per_segment: int,
}

/// View of `FriParameters`.
pub struct FriParametersV {
    pub fri_step_list: Seq<int>,
    pub last_layer_degree_bound: int,
    pub n_queries: int,
    pub proof_of_work_bits: int,
}

/// View of `StarkParameters`.
pub struct StarkParametersV {
    pub fri: FriParametersV,
    pub log_n_cosets: int,
}

/// View of `ProverParameters`.
pub struct ProverParametersV {
    pub field: Seq<char>,
    pub stark: StarkParametersV,
    pub use_extension_field: bool,
}

/// View of `PrivateInput`.
pub struct PrivateInputV {
    pub memory_path: Seq<char>,
    pub trace_path: Seq<char>,
    pub pedersen: Seq<int>,
    pub range_check: Seq<int>,
    pub ecdsa: Seq<int>,
}

/// View of `MemorySegment`.
pub struct MemorySegmentV {
    pub begin_addr: int,
    pub stop_ptr: int,
}

/// View of `MemorySegments`.
pub struct MemorySegmentsV {
    pub program: MemorySegmentV,
    pub execution: MemorySegmentV,
    pub output: MemorySegmentV,
    pub pedersen: MemorySegmentV,
    pub range_check: MemorySegmentV,
    pub ecdsa: MemorySegmentV,
}

/// View of `MemorySlot`.
pub struct MemorySlotV {
    pub address: int,
    pub value: Seq<char>,
    pub page: int,
}

/// View of `PublicInput`.
pub struct PublicInputV {
    pub layout: Layout,
    pub rc_min: int,
    pub rc_max: int,
    pub n_steps: int,
    pub memory_segments: MemorySegmentsV,
    pub public_memory: Seq<MemorySlotV>,
    pub dynamic_params: Option<Seq<(Seq<char>, int)>>,
}

/// View of `Proof`.
pub struct ProofV {
    pub proof_hex: Seq<char>,
}

/// The integers a `Vec<u32>` holds.
pub open spec fn u32s(v: Seq<u32>) -> Seq<int> {
    Seq::new(v.len(), |i: int| v[i] as int)
}

impl View for ProverConfig {
    type V = ProverConfigV;

    open spec fn view(&self) -> ProverConfigV {
        ProverConfigV {
            store_full_lde: self.cached_lde_config.store_full_lde,
            use_fft_for_eval: self.cached_lde_config.use_fft_for_eval,
            constraint_polynomial_task_size: self.constraint_polynomial_task_size as int,
            n_out_of_memory_merkle_layers: self.n_out_of_memory_merkle_layers as int,
            table_prover_n_tasks_per_segment: self.table_prover_n_tasks_per_segment as int,
        }
    }
}

impl View for FriParameters {
    type V = FriParametersV;

    open spec fn view(&self) -> FriParametersV {
        FriParametersV {
            fri_step_list: u32s(self.fri_step_list@),
            last_layer_degree_bound: self.last_layer_degree_bound as int,
            n_queries: self.n_queries as int,
            proof_of_work_bits: self.proof_of_work_bits as int,
        }
    }
}

impl View for StarkParameters {
    type V = StarkParametersV;

    open spec fn view(&self) -> StarkParametersV {
        StarkParametersV { fri: self.fri@, log_n_cosets: self.log_n_cosets as int }
    }
}

impl View for ProverParameters {
    type V = ProverParametersV;

    open spec fn view(&self) -> ProverParametersV {
        ProverParametersV {
            field: self.field@,
            stark: self.stark@,
            use_extension_field: self.use_extension_field,
        }
    }
}

impl View for PrivateInput {
    type V = PrivateInputV;

    open spec fn view(&self) -> PrivateInputV {
        PrivateInputV {
            memory_path: self.memory_path@,
            trace_path: self.trace_path@,
            pedersen: u32s(self.pedersen@),
            range_check: u32s(self.range_check@),
            ecdsa: u32s(self.ecdsa@),
        }
    }
}

impl View for MemorySegment {
    type V = MemorySegmentV;

    open spec fn view(&self) -> MemorySegmentV {
        MemorySegmentV { begin_addr: self.begin_addr as int, stop_ptr: self.stop_ptr as int }
    }
}

impl View for MemorySegments {
    type V = MemorySegmentsV;

    open spec fn view(&self) -> MemorySegmentsV {
        MemorySegmentsV {
            program: self.program@,
            execution: self.execution@,
            output: self.output@,
            pedersen: self.pedersen@,
            range_check: self.range_check@,
            ecdsa: self.ecdsa@,
        }
    }
}

impl View for MemorySlot {
    type V = MemorySlotV;

    open spec fn view(&self) -> MemorySlotV {
        MemorySlotV { address: self.address as int, value: self.value@, page: self.page as int }
    }
}

/// The views of a sequence of memory slots.
pub open spec fn slot_views(v: Seq<MemorySlot>) -> Seq<MemorySlotV> {
    Seq::new(v.len(), |i: int| v[i]@)
}

/// The views of a sequence of dynamic-parameter pairs.
pub open spec fn dynp_views(v: Seq<(String, u32)>) -> Seq<(Seq<char>, int)> {
    Seq::new(v.len(), |i: int| (v[i].0@, v[i].1 as int))
}

impl View for PublicInput {
    type V = PublicInputV;

    open spec fn view(&self) -> PublicInputV {
        PublicInputV {
            layout: self.layout,
            rc_min: self.rc_min as int,
            rc_max: self.rc_max as int,
            n_steps: self.n_steps as int,
            memory_segments: self.memory_segments@,
            public_memory: slot_views(self.public_memory@),
            dynamic_params: match self.dynamic_params {
                Some(ps) => Some(dynp_views(ps@)),
                None => None,
            },
        }
    }
}

impl View for Proof {
    type V = ProofV;

    open spec fn view(&self) -> ProofV {
        ProofV { proof_hex: self.proof_hex@ }
    }
}

} // verus!
