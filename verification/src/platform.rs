//! The platforms the app ships for, the llama.cpp builds it can run, and the
//! release asset picked for each of them.

use vstd::prelude::*;
use crate::text::{ends_with, str_ends_with};

verus! {

/// Operating systems with prebuilt runtimes.
#[derive(Debug, Clone, Copy, PartialEq, Eq, Structural)]
pub enum TargetOs {
    Windows,
    Linux,
}

/// llama.cpp builds: Vulkan runs on any GPU with a loader and on CPU with no
/// layers offloaded; the CPU build is the fallback when Vulkan cannot start.
#[derive(Debug, Clone, Copy, PartialEq, Eq, Structural)]
pub enum Backend {
    Vulkan,
    Cpu,
}

pub open spec fn backend_name(b: Backend) -> Seq<char> {
    match b {
        Backend::Vulkan => "vulkan"@,
        Backend::Cpu => "cpu"@,
    }
}

impl Backend {
    /// The name persisted for this backend and used for its folder.
    pub fn as_str(&self) -> (s: &'static str)
        ensures
            s@ == backend_name(*self),
    {
        match self {
            Backend::Vulkan => "vulkan",
            Backend::Cpu => "cpu",
        }
    }
}

pub open spec fn suffix_for(os: TargetOs, backend: Backend) -> Seq<char> {
    match (os, backend) {
        (TargetOs::Windows, Backend::Vulkan) => "-bin-win-vulkan-x64.zip"@,
        (TargetOs::Windows, Backend::Cpu) => "-bin-win-cpu-x64.zip"@,
        (TargetOs::Linux, Backend::Vulkan) => "-bin-ubuntu-vulkan-x64.tar.gz"@,
        (TargetOs::Linux, Backend::Cpu) => "-bin-ubuntu-x64.tar.gz"@,
    }
}

/// The suffix a release asset must end with for this OS/backend pair.
pub fn asset_suffix(os: TargetOs, backend: Backend) -> (s: &'static str)
    ensures
        s@ == suffix_for(os, backend),
{
    match (os, backend) {
        (TargetOs::Windows, Backend::Vulkan) => "-bin-win-vulkan-x64.zip",
        (TargetOs::Windows, Backend::Cpu) => "-bin-win-cpu-x64.zip",
        (TargetOs::Linux, Backend::Vulkan) => "-bin-ubuntu-vulkan-x64.tar.gz",
        (TargetOs::Linux, Backend::Cpu) => "-bin-ubuntu-x64.tar.gz",
    }
}

/// One downloadable file of a GitHub release.
#[derive(Debug)]
pub struct Asset {
    pub name: String,
    pub browser_download_url: String,
    pub size: u64,
}

/// A llama.cpp release: its build tag and its assets.
#[derive(Debug)]
pub struct Release {
    pub tag_name: String,
    pub assets: Vec<Asset>,
}

/// The index of the first asset whose name ends with `suffix`.
pub open spec fn first_with_suffix(assets: Seq<Asset>, suffix: Seq<char>) -> Option<int>
    decreases assets.len(),
{
    if assets.len() == 0 {
        None
    } else if ends_with(assets[0].name@, suffix) {
        Some(0)
    } else {
        match first_with_suffix(assets.drop_first(), suffix) {
            Some(i) => Some(i + 1),
            None => None,
        }
    }
}

proof fn lemma_first_with_suffix(assets: Seq<Asset>, suffix: Seq<char>)
    ensures
        first_with_suffix(assets, suffix) matches Some(i) ==> 0 <= i < assets.len()
            && ends_with(assets[i].name@, suffix)
            && forall|j: int| 0 <= j < i ==> !ends_with(#[trigger] assets[j].name@, suffix),
        first_with_suffix(assets, suffix) is None ==> forall|j: int| 0 <= j < assets.len() ==> !ends_with(#[trigger] assets[j].name@, suffix),
    decreases assets.len(),
{
    if assets.len() > 0 {
        let t = assets.drop_first();
        lemma_first_with_suffix(t, suffix);
        assert forall|j: int| 1 <= j < assets.len() implies #[trigger] assets[j] == t[j - 1] by {}
    }
}

/// Matches on the exact suffix, never on "contains vulkan": the same release
/// also publishes CUDA, HIP and arm64 builds, and a loose match picks the wrong
/// file. Returns the first asset that matches; a missing asset is never
/// guessed.
pub fn pick_asset(assets: &[Asset], os: TargetOs, backend: Backend) -> (picked: Option<&Asset>)
    ensures
        match first_with_suffix(assets@, suffix_for(os, backend)) {
            Some(i) => picked == Some(&assets@[i]),
            None => picked is None,
        },
{
    let suffix = asset_suffix(os, backend);
    let mut i: usize = 0;
    proof {
        lemma_first_with_suffix(assets@, suffix@);
    }
    while i < assets.len()
        invariant
            suffix@ == suffix_for(os, backend),
            i <= assets@.len(),
            forall|j: int| 0 <= j < i ==> !ends_with(#[trigger] assets@[j].name@, suffix@),
            first_with_suffix(assets@, suffix@) matches Some(k) ==> 0 <= k < assets@.len()
                && ends_with(assets@[k].name@, suffix@)
                && forall|j: int| 0 <= j < k ==> !ends_with(#[trigger] assets@[j].name@, suffix@),
            first_with_suffix(assets@, suffix@) is None ==> forall|j: int| 0 <= j < assets@.len() ==> !ends_with(#[trigger] assets@[j].name@, suffix@),
        decreases assets@.len() - i,
    {
        if str_ends_with(assets[i].name.as_str(), suffix) {
            return Some(&assets[i]);
        }
        i = i + 1;
    }
    None
}

/// The llama.cpp server executable inside an extracted build.
pub fn server_binary_name(os: TargetOs) -> (name: &'static str)
    ensures
        name@ == match os {
            TargetOs::Windows => "llama-server.exe"@,
            TargetOs::Linux => "llama-server"@,
        },
{
    match os {
        TargetOs::Windows => "llama-server.exe",
        TargetOs::Linux => "llama-server",
    }
}

} // verus!
