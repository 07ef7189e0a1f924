//! Working-directory preparation, engine invocation and result reading.
//!
//! One invocation materializes every input file in a fresh temporary
//! directory, runs the engine with five named flags pointing at those files,
//! and decodes the proof document the engine writes. The directory and all
//! files in it are removed when the working set is dropped, on every path.

use vstd::prelude::*;
use vstd::string::StringExecFns;
use vstd::string::StrSliceExecFns;
use crate::codec::{
    public_input_to_bytes, config_to_bytes, parameters_to_bytes, private_input_to_bytes,
    proof_from_bytes, proof_of_doc,
};
use crate::error::{CommandOutcome, ProverError};
use crate::models::{PrivateInput, Proof, ProverConfig, ProverParameters, PublicInput};

verus! {

#[verifier::external_type_specification]
#[verifier::external_body]
pub struct ExTempDir(tempfile::TempDir);

/// An open handle on one file of a working set. The handle owns the file:
/// it is removed from disk when the handle is dropped. Held opaquely because
/// the underlying handle type cannot be declared to the verifier.
#[verifier::external_body]
pub struct EngineFile {
    inner: tempfile::NamedTempFile,
}

/// Relies on `tempfile::tempdir`: it creates a fresh temporary directory,
/// unique to this call, which is removed when the handle is dropped.
#[verifier::external_body]
fn make_temp_dir() -> (r: Result<tempfile::TempDir, String>)
{
    tempfile::tempdir().map_err(|e| e.to_string())
}

/// Relies on `TempDir::path` and `Path::to_str`: the directory's location as
/// a string, when it is valid text.
#[verifier::external_body]
fn dir_path_string(d: &tempfile::TempDir) -> (r: Option<String>)
{
    d.path().to_str().map(|s| s.to_string())
}

/// Relies on `tempfile::Builder::tempfile_in` with no random name bytes: it
/// creates a file named exactly `name` inside `dir`, removed on drop.
#[verifier::external_body]
fn create_file_in(dir: &tempfile::TempDir, name: &str) -> (r: Option<EngineFile>)
{
    let f = tempfile::Builder::new().prefix(name).rand_bytes(0).tempfile_in(dir.path()).ok()?;
    Some(EngineFile { inner: f })
}

/// Relies on `std::io::Write::write_all`: it writes the whole buffer to the
/// file, reporting whether the write went through.
#[verifier::external_body]
fn write_file(f: &mut EngineFile, bytes: &Vec<u8>) -> (r: bool)
{
    std::io::Write::write_all(f.inner.as_file_mut(), bytes.as_slice()).is_ok()
}

/// Relies on `NamedTempFile::reopen` and `std::io::Read::read_to_end`: it
/// opens the file's path afresh and returns everything it holds now.
#[verifier::external_body]
fn read_file(f: &EngineFile) -> (r: Option<Vec<u8>>)
{
    let mut buf: Vec<u8> = Vec::new();
    let mut h = f.inner.reopen().ok()?;
    std::io::Read::read_to_end(&mut h, &mut buf).ok()?;
    Some(buf)
}

/// Relies on `tokio::process::Command::output` run to completion on a
/// current-thread runtime: the child's exit status and both captured
/// streams, where `ExitStatus::success` holds exactly of exit code zero and
/// `ExitStatus::code` is absent when the process ended without one.
#[verifier::external_body]
fn run_engine(program: &str, args: &Vec<String>) -> (r: Result<CommandOutcome, String>)
    ensures
        r matches Ok(o) ==> (o.success <==> o.exit_code == 0),
{
    let rt = tokio::runtime::Builder::new_current_thread().enable_io().build().map_err(
        |e| e.to_string(),
    )?;
    let out = rt.block_on(tokio::process::Command::new(program).args(args).output()).map_err(
        |e| e.to_string(),
    )?;
    Ok(
        CommandOutcome {
            success: out.status.success(),
            exit_code: out.status.code().unwrap_or(-1),
            stdout: out.stdout,
            stderr: out.stderr,
        },
    )
}

/// One invocation's working set: the temporary directory, the resolved path
/// of every file in it, and the open handles that keep the files alive until
/// the set is dropped.
pub struct ProverWorkingDirectory {
    pub dir: tempfile::TempDir,
    pub handles: Vec<EngineFile>,
    pub proof_handle: EngineFile,
    pub dir_path: String,
    pub public_input_file: String,
    pub private_input_file: String,
    pub memory_file: String,
    pub trace_file: String,
    pub prover_config_file: String,
    pub prover_parameter_file: String,
    pub proof_file: String,
}

/// The fixed name every working set gives each artifact, resolved under the
/// set's own directory.
pub open spec fn wf_working_set(ws: ProverWorkingDirectory) -> bool {
    &&& ws.public_input_file@ == ws.dir_path@ + "/"@ + "public_input.json"@
    &&& ws.private_input_file@ == ws.dir_path@ + "/"@ + "private_input.json"@
    &&& ws.memory_file@ == ws.dir_path@ + "/"@ + "memory.bin"@
    &&& ws.trace_file@ == ws.dir_path@ + "/"@ + "trace.bin"@
    &&& ws.prover_config_file@ == ws.dir_path@ + "/"@ + "prover_config_file.json"@
    &&& ws.prover_parameter_file@ == ws.dir_path@ + "/"@ + "parameters.json"@
    &&& ws.proof_file@ == ws.dir_path@ + "/"@ + "proof.json"@
}

/// `dir` and `name` joined by one separator.
fn path_join(dir: &str, name: &str) -> (r: String)
    ensures
        r@ == dir@ + "/"@ + name@,
{
    let mut s: String = dir.to_owned();
    s.append("/");
    s.append(name);
    s
}

/// The private-input descriptor a working set hands the engine: the sibling
/// memory and trace files, and the three placeholder sequences left empty.
pub fn derive_private_input(memory_file: &String, trace_file: &String) -> (p: PrivateInput)
    ensures
        p.memory_path == memory_file,
        p.trace_path == trace_file,
        p.pedersen@.len() == 0,
        p.range_check@.len() == 0,
        p.ecdsa@.len() == 0,
{
    PrivateInput {
        memory_path: memory_file.clone(),
        trace_path: trace_file.clone(),
        pedersen: Vec::new(),
        range_check: Vec::new(),
        ecdsa: Vec::new(),
    }
}

fn io_error(msg: &str) -> (e: ProverError)
    ensures
        e is IoError,
{
    ProverError::IoError(msg.to_owned())
}

/// Creates a file with the given name in the directory and fills it; any
/// filesystem failure is an I/O error.
fn materialize(dir: &tempfile::TempDir, name: &str, bytes: &Vec<u8>) -> (r: Result<
    EngineFile,
    ProverError,
>)
    ensures
        r matches Err(e) ==> e is IoError,
{
    match create_file_in(dir, name) {
        Some(mut f) => {
            if write_file(&mut f, bytes) {
                Ok(f)
            } else {
                Err(io_error("writing an input file failed"))
            }
        },
        None => Err(io_error("creating an input file failed")),
    }
}

/// Everything the engine left in the working set's output file, if it can be
/// read back.
pub fn read_proof_artifact(ws: &ProverWorkingDirectory) -> (r: Option<Vec<u8>>)
{
    read_file(&ws.proof_handle)
}

/// Allocates a fresh working directory and writes every input file the
/// engine needs: the four JSON documents in their canonical texts, the raw
/// memory and trace bytes, and an empty placeholder for the proof.
pub fn prepare_prover_files(
    public_input: &PublicInput,
    memory: &Vec<u8>,
    trace: &Vec<u8>,
    prover_config: &ProverConfig,
    parameters: &ProverParameters,
) -> (r: Result<ProverWorkingDirectory, ProverError>)
    ensures
        r matches Ok(ws) ==> wf_working_set(ws),
        r matches Err(e) ==> e is IoError,
{
    let dir = match make_temp_dir() {
        Ok(d) => d,
        Err(m) => {
            return Err(ProverError::IoError(m));
        },
    };
    let dir_path = match dir_path_string(&dir) {
        Some(p) => p,
        None => {
            return Err(io_error("temporary directory path is not valid text"));
        },
    };
    let public_input_file = path_join(dir_path.as_str(), "public_input.json");
    let private_input_file = path_join(dir_path.as_str(), "private_input.json");
    let memory_file = path_join(dir_path.as_str(), "memory.bin");
    let trace_file = path_join(dir_path.as_str(), "trace.bin");
    let prover_config_file = path_join(dir_path.as_str(), "prover_config_file.json");
    let prover_parameter_file = path_join(dir_path.as_str(), "parameters.json");
    let proof_file = path_join(dir_path.as_str(), "proof.json");

    let private_input = derive_private_input(&memory_file, &trace_file);

    let mut handles: Vec<EngineFile> = Vec::new();
    handles.push(materialize(&dir, "public_input.json", &public_input_to_bytes(public_input))?);
    handles.push(materialize(&dir, "prover_config_file.json", &config_to_bytes(prover_config))?);
    handles.push(materialize(&dir, "parameters.json", &parameters_to_bytes(parameters))?);
    handles.push(materialize(&dir, "memory.bin", memory)?);
    handles.push(materialize(&dir, "trace.bin", trace)?);
    handles.push(materialize(&dir, "private_input.json", &private_input_to_bytes(&private_input))?);
    let empty: Vec<u8> = Vec::new();
    let proof_handle = materialize(&dir, "proof.json", &empty)?;
    Ok(
        ProverWorkingDirectory {
            dir,
            handles,
            proof_handle,
            dir_path,
            public_input_file,
            private_input_file,
            memory_file,
            trace_file,
            prover_config_file,
            prover_parameter_file,
            proof_file,
        },
    )
}

/// The exact argument list the engine is invoked with: five named flags,
/// each followed by the corresponding file of the working set.
pub fn engine_args(
    output_file: &str,
    public_input_file: &str,
    private_input_file: &str,
    prover_config_file: &str,
    parameter_file: &str,
) -> (args: Vec<String>)
    ensures
        args@.len() == 10,
        args@[0]@ == "--out-file"@,
        args@[1]@ == output_file@,
        args@[2]@ == "--public-input-file"@,
        args@[3]@ == public_input_file@,
        args@[4]@ == "--private-input-file"@,
        args@[5]@ == private_input_file@,
        args@[6]@ == "--prover-config-file"@,
        args@[7]@ == prover_config_file@,
        args@[8]@ == "--parameter-file"@,
        args@[9]@ == parameter_file@,
{
    let mut args: Vec<String> = Vec::new();
    args.push("--out-file".to_owned());
    args.push(output_file.to_owned());
    args.push("--public-input-file".to_owned());
    args.push(public_input_file.to_owned());
    args.push("--private-input-file".to_owned());
    args.push(private_input_file.to_owned());
    args.push("--prover-config-file".to_owned());
    args.push(prover_config_file.to_owned());
    args.push("--parameter-file".to_owned());
    args.push(parameter_file.to_owned());
    args
}

/// Classifies a finished engine process: success is decided by the exit
/// status alone, and a rejected run keeps the whole outcome.
pub fn classify_engine_outcome(o: CommandOutcome) -> (r: Result<(), ProverError>)
    ensures
        o.success ==> r is Ok,
        !o.success ==> (r matches Err(ProverError::CommandError(c)) && c == o),
{
    if o.success {
        Ok(())
    } else {
        Err(ProverError::CommandError(o))
    }
}

/// Decodes the engine's output file. A text that holds a proof document
/// decodes to exactly that proof; any other text is a decode failure.
pub fn decode_proof_artifact(bytes: &Vec<u8>) -> (r: Result<Proof, ProverError>)
    ensures
        ({
            let sp = proof_of_doc(bytes@);
            match r {
                Ok(p) => sp == Some(p@),
                Err(e) => sp is None && e is DecodeError,
            }
        }),
{
    match proof_from_bytes(bytes) {
        Some(p) => Ok(p),
        None => Err(ProverError::DecodeError),
    }
}

/// Calls the engine on already-prepared input files, blocking until it
/// exits. A failure to start is a spawn error; an unsuccessful exit status
/// keeps the captured streams; nothing of the streams is interpreted.
pub fn run_prover_from_command_line(
    public_input_file: &str,
    private_input_file: &str,
    prover_config_file: &str,
    prover_parameter_file: &str,
    output_file: &str,
) -> (r: Result<(), ProverError>)
    ensures
        r matches Err(e) ==> match e {
            ProverError::SpawnError(_) => true,
            ProverError::CommandError(c) => !c.success,
            _ => false,
        },
{
    let args = engine_args(
        output_file,
        public_input_file,
        private_input_file,
        prover_config_file,
        prover_parameter_file,
    );
    match run_engine("cpu_air_prover", &args) {
        Ok(o) => classify_engine_outcome(o),
        Err(m) => Err(ProverError::SpawnError(m)),
    }
}

/// Runs the engine on one program execution: materializes every input in a
/// fresh working directory, invokes the engine against it, and decodes the
/// proof it wrote. The working directory is removed when the call returns,
/// whether it succeeded or failed.
pub fn run_prover(
    public_input: &PublicInput,
    memory: &Vec<u8>,
    trace: &Vec<u8>,
    prover_config: &ProverConfig,
    parameters: &ProverParameters,
) -> (r: Result<Proof, ProverError>)
    ensures
        r matches Ok(p) ==> exists|bs: Seq<u8>| proof_of_doc(bs) == Some(p@),
{
    let ws = match prepare_prover_files(public_input, memory, trace, prover_config, parameters) {
        Ok(ws) => ws,
        Err(e) => {
            return Err(e);
        },
    };
    match run_prover_from_command_line(
        ws.public_input_file.as_str(),
        ws.private_input_file.as_str(),
        ws.prover_config_file.as_str(),
        ws.prover_parameter_file.as_str(),
        ws.proof_file.as_str(),
    ) {
        Ok(()) => {},
        Err(e) => {
            return Err(e);
        },
    }
    let bytes = match read_proof_artifact(&ws) {
        Some(b) => b,
        None => {
            return Err(ProverError::DecodeError);
        },
    };
    let decoded = decode_proof_artifact(&bytes);
    match decoded {
        Ok(p) => {
            proof {
                assert(proof_of_doc(bytes@) == Some(p@));
            }
            Ok(p)
        },
        Err(e) => Err(e),
    }
}

} // verus!
