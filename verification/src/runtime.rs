//! The embedded llama.cpp runtime: how the server process is started, what is
//! persisted about its installation, and the status reported to the UI.

use vstd::prelude::*;
use crate::platform::{backend_name, Backend};
use crate::stream::{split_from, LineBuffer};
use crate::text::{concat, decimal, i64_to_decimal, owned, push_str, signed_decimal, starts_with, str_starts_with, trim, trimmed, u64_to_decimal, views};

verus! {

/// How the server process is started.
#[derive(Debug)]
pub struct SidecarConfig {
    pub binary: String,
    pub model: String,
    pub port: u16,
    pub context_length: Option<u32>,
    /// -1 offloads every layer to the GPU, 0 keeps everything on the CPU.
    pub gpu_layers: i32,
}

pub const LOCALHOST: &'static str = "127.0.0.1";

/// The arguments `llama-server` is started with: the model, the loopback host,
/// the port and the GPU layers always; `-c` only when a context length was
/// configured, so the server otherwise inherits the model's own.
pub open spec fn sidecar_args(cfg: SidecarConfig) -> Seq<Seq<char>> {
    let base = seq![
        "-m"@, cfg.model@,
        "--host"@, LOCALHOST@,
        "--port"@, decimal(cfg.port as nat),
        "-ngl"@, signed_decimal(cfg.gpu_layers as int),
    ];
    match cfg.context_length {
        Some(ctx) => base + seq!["-c"@, decimal(ctx as nat)],
        None => base,
    }
}

/// The flags passed to `llama-server`.
pub fn build_args(cfg: &SidecarConfig) -> (args: Vec<String>)
    ensures
        views(args@) == sidecar_args(*cfg),
{
    let mut args: Vec<String> = Vec::new();
    args.push(owned("-m"));
    args.push(owned(cfg.model.as_str()));
    args.push(owned("--host"));
    args.push(owned(LOCALHOST));
    args.push(owned("--port"));
    args.push(u64_to_decimal(cfg.port as u64));
    args.push(owned("-ngl"));
    args.push(i64_to_decimal(cfg.gpu_layers as i64));
    match cfg.context_length {
        Some(ctx) => {
            args.push(owned("-c"));
            args.push(u64_to_decimal(ctx as u64));
        },
        None => {},
    }
    assert(views(args@) =~= sidecar_args(*cfg));
    args
}

pub open spec fn local_url(port: u16) -> Seq<char> {
    "http://127.0.0.1:"@ + decimal(port as nat)
}

/// The base URL of a server listening on the loopback `port`.
pub fn base_url(port: u16) -> (url: String)
    ensures
        url@ == local_url(port),
{
    let digits = u64_to_decimal(port as u64);
    concat("http://127.0.0.1:", digits.as_str())
}

/// The persisted half of the embedded runtime: what was downloaded and how it
/// should be started.
#[derive(Debug)]
pub struct EmbeddedRuntimeRow {
    pub release_tag: Option<String>,
    pub backend: Option<String>,
    pub binary_path: Option<String>,
    pub model_path: Option<String>,
    pub context_length: Option<u32>,
    pub gpu_layers: Option<i32>,
}

impl Default for EmbeddedRuntimeRow {
    fn default() -> (row: EmbeddedRuntimeRow)
        ensures
            row.release_tag is None,
            row.backend is None,
            row.binary_path is None,
            row.model_path is None,
            row.context_length is None,
            row.gpu_layers is None,
    {
        EmbeddedRuntimeRow::empty()
    }
}

/// Whether a file exists at `path` (`std::path::Path::exists`). Depends on the
/// disk, so nothing is stated of the answer.
#[verifier::external_body]
fn path_exists(path: &str) -> bool {
    std::path::Path::new(path).exists()
}

impl EmbeddedRuntimeRow {
    /// An empty row: nothing installed yet.
    pub fn empty() -> (row: EmbeddedRuntimeRow)
        ensures
            row.release_tag is None,
            row.backend is None,
            row.binary_path is None,
            row.model_path is None,
            row.context_length is None,
            row.gpu_layers is None,
    {
        EmbeddedRuntimeRow {
            release_tag: None,
            backend: None,
            binary_path: None,
            model_path: None,
            context_length: None,
            gpu_layers: None,
        }
    }

    /// The binary's and the model's paths, when both are stored: the two files
    /// whose presence decides whether the row is ready.
    pub fn files_to_check(&self) -> (p: Option<(String, String)>)
        ensures
            match p {
                Some((bin, model)) => {
                    &&& self.binary_path matches Some(b) && bin@ == b@
                    &&& self.model_path matches Some(m) && model@ == m@
                },
                None => self.binary_path is None || self.model_path is None,
            },
    {
        match (&self.binary_path, &self.model_path) {
            (Some(bin), Some(model)) => Some((owned(bin.as_str()), owned(model.as_str()))),
            _ => None,
        }
    }

    /// Readiness once the disk has answered: both paths stored and both files
    /// present.
    pub fn ready_from(&self, binary_exists: bool, model_exists: bool) -> (ready: bool)
        ensures
            ready == (self.binary_path is Some && self.model_path is Some && binary_exists && model_exists),
    {
        self.binary_path.is_some() && self.model_path.is_some() && binary_exists && model_exists
    }

    /// Both halves are required: a binary with no model cannot answer, and a
    /// model with no binary cannot run. The two files named by
    /// `files_to_check` are looked up on disk (the model only when the binary
    /// is there) and the answers decide through `ready_from`; only the disk can
    /// say whether they exist, so a row missing either path is never ready and
    /// nothing more is stated.
    pub fn is_ready(&self) -> (ready: bool)
        ensures
            ready ==> self.binary_path is Some && self.model_path is Some,
    {
        match self.files_to_check() {
            Some((bin, model)) => {
                let binary_exists = path_exists(bin.as_str());
                let model_exists = binary_exists && path_exists(model.as_str());
                self.ready_from(binary_exists, model_exists)
            },
            None => self.ready_from(false, false),
        }
    }
}

/// Where the embedded runtime is in its life.
#[derive(Debug, Clone, Copy, PartialEq, Eq, Structural)]
pub enum EmbeddedSetupStage {
    Unsupported,
    NotInstalled,
    DownloadingBinary,
    DownloadingModel,
    Ready,
    Running,
    Error,
}

/// What the UI is told about the embedded runtime.
#[derive(Debug)]
pub struct EmbeddedRuntimeStatus {
    pub stage: EmbeddedSetupStage,
    pub release_tag: Option<String>,
    pub backend: Option<String>,
    pub port: Option<u16>,
    pub model_name: Option<String>,
    pub message: Option<String>,
}

/// The stage of an installed platform: running when a port is held, ready when
/// the files are in place, not installed otherwise.
pub fn stage_for(port: Option<u16>, ready: bool) -> (stage: EmbeddedSetupStage)
    ensures
        stage == if port is Some {
            EmbeddedSetupStage::Running
        } else if ready {
            EmbeddedSetupStage::Ready
        } else {
            EmbeddedSetupStage::NotInstalled
        },
{
    if port.is_some() {
        EmbeddedSetupStage::Running
    } else if ready {
        EmbeddedSetupStage::Ready
    } else {
        EmbeddedSetupStage::NotInstalled
    }
}

/// The last component of a path, as `std::path::Path::file_name` gives it.
pub uninterp spec fn path_file_name(path: Seq<char>) -> Option<Seq<char>>;

/// The last component of `path` (`std::path::Path::file_name`, lossily
/// converted); `None` when the path ends in `..` or is a root.
#[verifier::external_body]
fn file_name_of(path: &str) -> (name: Option<String>)
    ensures
        match name {
            Some(n) => path_file_name(path@) == Some(n@),
            None => path_file_name(path@) is None,
        },
{
    match std::path::Path::new(path).file_name() {
        Some(n) => Some(n.to_string_lossy().into_owned()),
        None => None,
    }
}

fn copy_opt(s: &Option<String>) -> (r: Option<String>)
    ensures
        match (s, r) {
            (Some(a), Some(b)) => a@ == b@,
            (None, None) => true,
            _ => false,
        },
{
    match s {
        Some(v) => Some(owned(v.as_str())),
        None => None,
    }
}

/// The tag, the backend and the model's file name a status reports for a
/// stored row.
pub open spec fn describes(row: EmbeddedRuntimeRow, status: EmbeddedRuntimeStatus) -> bool {
    &&& match (row.release_tag, status.release_tag) {
        (Some(a), Some(b)) => a@ == b@,
        (None, None) => true,
        _ => false,
    }
    &&& match (row.backend, status.backend) {
        (Some(a), Some(b)) => a@ == b@,
        (None, None) => true,
        _ => false,
    }
    &&& match row.model_path {
        None => status.model_name is None,
        Some(p) => match (path_file_name(p@), status.model_name) {
            (Some(a), Some(b)) => a == b@,
            (None, None) => true,
            _ => false,
        },
    }
}

/// The status of a persisted row at `stage`: its tag and backend, the port when
/// running, and the model's file name.
pub fn status_from(row: &EmbeddedRuntimeRow, port: Option<u16>, stage: EmbeddedSetupStage) -> (status: EmbeddedRuntimeStatus)
    ensures
        status.stage == stage,
        status.port == port,
        status.message is None,
        describes(*row, status),
{
    let model_name = match &row.model_path {
        Some(p) => file_name_of(p.as_str()),
        None => None,
    };
    EmbeddedRuntimeStatus {
        stage,
        release_tag: copy_opt(&row.release_tag),
        backend: copy_opt(&row.backend),
        port,
        model_name,
        message: None,
    }
}

/// What can go wrong installing or running the embedded runtime.
#[derive(Debug)]
pub enum RuntimeError {
    UnsupportedPlatform,
    AssetNotFound(String),
    Network(String),
    Io(String),
}

pub open spec fn runtime_error_text(e: RuntimeError) -> Seq<char> {
    match e {
        RuntimeError::UnsupportedPlatform => "o runtime embutido não está disponível nesta plataforma"@,
        RuntimeError::AssetNotFound(s) => "nenhum arquivo da versão termina com "@ + s@,
        RuntimeError::Network(m) => "erro de rede: "@ + m@,
        RuntimeError::Io(m) => "erro de arquivo: "@ + m@,
    }
}

impl RuntimeError {
    /// The message shown to the user.
    pub fn message(&self) -> (m: String)
        ensures
            m@ == runtime_error_text(*self),
    {
        match self {
            RuntimeError::UnsupportedPlatform => owned("o runtime embutido não está disponível nesta plataforma"),
            RuntimeError::AssetNotFound(s) => concat("nenhum arquivo da versão termina com ", s.as_str()),
            RuntimeError::Network(m) => concat("erro de rede: ", m.as_str()),
            RuntimeError::Io(m) => concat("erro de arquivo: ", m.as_str()),
        }
    }
}

/// What running `llama-server --list-devices` revealed.
#[derive(Debug)]
pub enum DeviceProbe {
    /// A GPU the build can use, by name.
    GpuAvailable(String),
    /// The build runs, on the CPU only.
    CpuOnly,
    /// The build does not even start here, with the reason.
    BinaryFailed(String),
}

/// The lines of a device listing: the text split at each `\n`, the last line
/// being whatever follows the final one.
pub open spec fn listing_lines(text: Seq<char>) -> Seq<Seq<char>> {
    let (done, rest) = split_from(Seq::empty(), text, '\n', false);
    done.push(rest)
}

/// The first of `lines` that, trimmed, names a Vulkan device, trimmed.
pub open spec fn first_gpu_line(lines: Seq<Seq<char>>) -> Option<Seq<char>>
    decreases lines.len(),
{
    if lines.len() == 0 {
        None
    } else if starts_with(trimmed(lines[0]), VULKAN_DEVICE@) {
        Some(trimmed(lines[0]))
    } else {
        first_gpu_line(lines.drop_first())
    }
}

/// How a usable GPU shows in the device listing: its line starts with this.
pub const VULKAN_DEVICE: &'static str = "Vulkan";

/// What a device listing that the build printed reveals: the first Vulkan
/// device it names, or the CPU alone when it names none.
pub fn probe_from_listing(listing: &str) -> (p: DeviceProbe)
    ensures
        match first_gpu_line(listing_lines(listing@)) {
            Some(d) => p matches DeviceProbe::GpuAvailable(n) && n@ == d,
            None => p matches DeviceProbe::CpuOnly,
        },
{
    let text = concat(listing, "\n");
    let mut buffer = LineBuffer::new();
    let lines = buffer.push_text(text.as_str());
    proof {
        reveal_strlit("\n");
        assert(text@.drop_last() =~= listing@);
        assert(text@.last() == '\n');
        assert(views(lines@) == listing_lines(listing@));
    }
    let ghost all = views(lines@);
    assert(all.skip(0) =~= all);
    let mut i: usize = 0;
    while i < lines.len()
        invariant
            i <= lines@.len(),
            all == views(lines@),
            all == listing_lines(listing@),
            first_gpu_line(all) == first_gpu_line(all.skip(i as int)),
        decreases lines@.len() - i,
    {
        proof {
            assert(all.skip(i as int)[0] == lines@[i as int]@);
            assert(all.skip(i as int).drop_first() =~= all.skip(i + 1));
        }
        let line = trim(lines[i].as_str());
        if str_starts_with(line.as_str(), VULKAN_DEVICE) {
            assert(first_gpu_line(all.skip(i as int)) == Some(trimmed(lines@[i as int]@)));
            return DeviceProbe::GpuAvailable(line);
        }
        i = i + 1;
    }
    proof {
        assert(all.skip(i as int).len() == 0);
    }
    DeviceProbe::CpuOnly
}

/// The next step of the installation.
#[derive(Debug)]
pub enum SetupNext {
    /// Download and unpack the build for this backend, then probe it.
    DownloadBackend(Backend),
    /// Download the default model.
    DownloadModel,
    /// Stop with this error.
    Fail(String),
}

/// The installation in progress: the build being used and the GPU layers
/// the server will start with.
#[derive(Debug)]
pub struct Setup {
    pub backend: Backend,
    pub gpu_layers: i32,
    pub fell_back: bool,
}

pub const GPU_FOUND: &'static str = "GPU detectada: ";

pub const CPU_ONLY_NOTICE: &'static str = "Nenhuma GPU compatível encontrada — usando CPU";

pub const VULKAN_FAILED: &'static str = "Build Vulkan não executou (";

pub const VULKAN_FAILED_END: &'static str = ") — baixando a versão CPU";

pub const SERVER_DOES_NOT_RUN: &'static str = "o llama-server não executa nesta máquina: ";

pub const NOT_INSTALLED: &'static str = "o runtime embutido ainda não foi instalado";

impl Setup {
    /// The Vulkan build comes first: it also runs on the CPU with no layers
    /// offloaded, so the common path is a single download.
    pub fn start() -> (s: Setup)
        ensures
            s.backend == Backend::Vulkan,
            s.gpu_layers == 0,
            !s.fell_back,
    {
        Setup { backend: Backend::Vulkan, gpu_layers: 0, fell_back: false }
    }

    /// Takes the probe of the build just unpacked. On the Vulkan build a GPU
    /// means every layer offloaded, the CPU alone means none, and a build that
    /// cannot start means falling back to the CPU build. On the CPU build a
    /// failing start ends the installation. Returns the notice to show and
    /// the next step.
    pub fn after_probe(&mut self, probe: DeviceProbe) -> (r: (Option<String>, SetupNext))
        ensures
            !old(self).fell_back ==> match probe {
                DeviceProbe::GpuAvailable(name) => {
                    &&& final(self).gpu_layers == -1
                    &&& final(self).backend == old(self).backend
                    &&& !final(self).fell_back
                    &&& r.0 matches Some(n) && n@ == GPU_FOUND@ + name@
                    &&& r.1 is DownloadModel
                },
                DeviceProbe::CpuOnly => {
                    &&& final(self).gpu_layers == old(self).gpu_layers
                    &&& final(self).backend == old(self).backend
                    &&& !final(self).fell_back
                    &&& r.0 matches Some(n) && n@ == CPU_ONLY_NOTICE@
                    &&& r.1 is DownloadModel
                },
                DeviceProbe::BinaryFailed(reason) => {
                    &&& final(self).gpu_layers == old(self).gpu_layers
                    &&& final(self).backend == Backend::Cpu
                    &&& final(self).fell_back
                    &&& r.0 matches Some(n) && n@ == VULKAN_FAILED@ + reason@ + VULKAN_FAILED_END@
                    &&& r.1 matches SetupNext::DownloadBackend(b) && b == Backend::Cpu
                },
            },
            old(self).fell_back ==> {
                &&& final(self).gpu_layers == old(self).gpu_layers
                &&& final(self).backend == old(self).backend
                &&& final(self).fell_back
                &&& r.0 is None
                &&& match probe {
                    DeviceProbe::BinaryFailed(reason) => r.1 matches SetupNext::Fail(m) && m@ == SERVER_DOES_NOT_RUN@ + reason@,
                    _ => r.1 is DownloadModel,
                }
            },
    {
        if self.fell_back {
            return match probe {
                DeviceProbe::BinaryFailed(reason) => (None, SetupNext::Fail(concat(SERVER_DOES_NOT_RUN, reason.as_str()))),
                _ => (None, SetupNext::DownloadModel),
            };
        }
        match probe {
            DeviceProbe::GpuAvailable(name) => {
                self.gpu_layers = -1;
                (Some(concat(GPU_FOUND, name.as_str())), SetupNext::DownloadModel)
            },
            DeviceProbe::CpuOnly => (Some(owned(CPU_ONLY_NOTICE)), SetupNext::DownloadModel),
            DeviceProbe::BinaryFailed(reason) => {
                self.backend = Backend::Cpu;
                self.fell_back = true;
                let mut notice = concat(VULKAN_FAILED, reason.as_str());
                push_str(&mut notice, VULKAN_FAILED_END);
                (Some(notice), SetupNext::DownloadBackend(Backend::Cpu))
            },
        }
    }

    /// The row stored once the binary and the model are in place.
    pub fn installed_row(&self, release_tag: String, binary_path: String, model_path: String) -> (row: EmbeddedRuntimeRow)
        ensures
            row.release_tag matches Some(t) && t@ == release_tag@,
            row.backend matches Some(b) && b@ == backend_name(self.backend),
            row.binary_path matches Some(b) && b@ == binary_path@,
            row.model_path matches Some(m) && m@ == model_path@,
            row.context_length is None,
            row.gpu_layers == Some(self.gpu_layers),
    {
        EmbeddedRuntimeRow {
            release_tag: Some(release_tag),
            backend: Some(owned(self.backend.as_str())),
            binary_path: Some(binary_path),
            model_path: Some(model_path),
            context_length: None,
            gpu_layers: Some(self.gpu_layers),
        }
    }
}

/// The status the installation ends with: with binary and model in place the
/// server is started right away; when that fails the runtime is still
/// installed and reports the failure.
pub fn setup_outcome(row: &EmbeddedRuntimeRow, started: Result<u16, String>) -> (status: EmbeddedRuntimeStatus)
    ensures
        describes(*row, status),
        match started {
            Ok(port) => status.stage == EmbeddedSetupStage::Running && status.port == Some(port) && status.message is None,
            Err(e) => status.stage == EmbeddedSetupStage::Ready && status.port is None
                && (status.message matches Some(m) && m@ == e@),
        },
{
    match started {
        Ok(port) => status_from(row, Some(port), EmbeddedSetupStage::Running),
        Err(e) => {
            let mut status = status_from(row, None, EmbeddedSetupStage::Ready);
            status.message = Some(e);
            status
        },
    }
}

/// How a stored row is started on `port`: both paths are needed; the GPU
/// layers default to none.
pub fn sidecar_config_for(row: &EmbeddedRuntimeRow, port: u16) -> (r: Result<SidecarConfig, String>)
    ensures
        match (row.binary_path, row.model_path) {
            (Some(b), Some(m)) => r matches Ok(cfg) && cfg.binary@ == b@ && cfg.model@ == m@ && cfg.port == port
                && cfg.context_length == row.context_length
                && cfg.gpu_layers == match row.gpu_layers {
                    Some(g) => g,
                    None => 0i32,
                },
            _ => r matches Err(e) && e@ == NOT_INSTALLED@,
        },
{
    match (&row.binary_path, &row.model_path) {
        (Some(b), Some(m)) => Ok(SidecarConfig {
            binary: owned(b.as_str()),
            model: owned(m.as_str()),
            port,
            context_length: row.context_length,
            gpu_layers: match row.gpu_layers {
                Some(g) => g,
                None => 0,
            },
        }),
        _ => Err(owned(NOT_INSTALLED)),
    }
}

/// Applies new startup settings to the stored row: the context length is
/// always replaced, the GPU layers only when given. The caller restarts a
/// running server so the settings reach it.
pub fn with_runtime_config(row: EmbeddedRuntimeRow, context_length: Option<u32>, gpu_layers: Option<i32>) -> (r: EmbeddedRuntimeRow)
    ensures
        r.context_length == context_length,
        r.gpu_layers == match gpu_layers {
            Some(g) => Some(g),
            None => row.gpu_layers,
        },
        r.release_tag == row.release_tag,
        r.backend == row.backend,
        r.binary_path == row.binary_path,
        r.model_path == row.model_path,
{
    let mut r = row;
    r.context_length = context_length;
    if let Some(layers) = gpu_layers {
        r.gpu_layers = Some(layers);
    }
    r
}

/// Points the stored row at another model file. Returns whether anything
/// changed, which is when a running server has to restart.
pub fn with_model(row: EmbeddedRuntimeRow, wanted: String) -> (r: (EmbeddedRuntimeRow, bool))
    ensures
        r.1 == !(row.model_path matches Some(p) && p@ == wanted@),
        r.0.model_path matches Some(p) && p@ == wanted@,
        !r.1 ==> r.0 == row,
        r.0.release_tag == row.release_tag,
        r.0.backend == row.backend,
        r.0.binary_path == row.binary_path,
        r.0.context_length == row.context_length,
        r.0.gpu_layers == row.gpu_layers,
{
    let changed = match &row.model_path {
        Some(p) => !crate::text::str_eq(p.as_str(), wanted.as_str()),
        None => true,
    };
    if changed {
        let mut r = row;
        r.model_path = Some(wanted);
        (r, true)
    } else {
        (row, false)
    }
}

/// At boot the server starts on its own when it is installed and its
/// connection is the active one.
pub fn autostart_wanted(active_provider: Option<&str>, ready: bool) -> (b: bool)
    ensures
        b == (ready && (active_provider matches Some(p) && p@ == "embedded"@)),
{
    let is_active = match active_provider {
        Some(p) => crate::text::str_eq(p, "embedded"),
        None => false,
    };
    is_active && ready
}

/// What one round of waiting for a freshly started server found.
#[derive(Debug)]
pub enum HealthWait {
    /// The server answers its health check.
    Ready,
    /// Stop waiting with this error.
    Failed(RuntimeError),
    /// Ask again after a pause.
    Wait,
}

pub const EXITED_EARLY: &'static str = "o llama-server encerrou antes de ficar pronto (";

pub const NO_HEALTH_IN_TIME: &'static str = "o llama-server não respondeu ao health check a tempo";

/// A server that exits while loading is an error, not a connection that
/// hangs; one that answers is ready; past the deadline waiting stops.
/// `exited` is the exit status when the process has ended.
pub fn health_wait(exited: Option<&str>, healthy: bool, past_deadline: bool) -> (w: HealthWait)
    ensures
        match exited {
            Some(st) => w matches HealthWait::Failed(RuntimeError::Io(m)) && m@ == EXITED_EARLY@ + st@ + ")"@,
            None => if healthy {
                w is Ready
            } else if past_deadline {
                w matches HealthWait::Failed(RuntimeError::Network(m)) && m@ == NO_HEALTH_IN_TIME@
            } else {
                w is Wait
            },
        },
{
    match exited {
        Some(st) => {
            let mut m = concat(EXITED_EARLY, st);
            push_str(&mut m, ")");
            HealthWait::Failed(RuntimeError::Io(m))
        },
        None => {
            if healthy {
                HealthWait::Ready
            } else if past_deadline {
                HealthWait::Failed(RuntimeError::Network(owned(NO_HEALTH_IN_TIME)))
            } else {
                HealthWait::Wait
            }
        },
    }
}

} // verus!
