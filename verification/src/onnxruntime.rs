//! The ONNX Runtime library the embedding engine loads: which release is
//! downloaded for each platform and the library file inside it.

use vstd::prelude::*;
use crate::platform::TargetOs;
use crate::text::{concat, push_str};

verus! {

/// The pinned ONNX Runtime release the embedding engine loads.
pub const ORT_VERSION: &'static str = "1.28.0";

pub open spec fn ort_archive_name(os: TargetOs) -> Seq<char> {
    match os {
        TargetOs::Windows => "onnxruntime-win-x64-"@ + ORT_VERSION@ + ".zip"@,
        TargetOs::Linux => "onnxruntime-linux-x64-"@ + ORT_VERSION@ + ".tgz"@,
    }
}

/// Where the ONNX Runtime archive for `os` is published; `None` on a platform
/// with no prebuilt runtime.
pub fn asset_url(os: Option<TargetOs>) -> (url: Option<String>)
    ensures
        match os {
            None => url is None,
            Some(o) => url matches Some(u) && u@ == "https://github.com/microsoft/onnxruntime/releases/download/v"@
                + ORT_VERSION@ + "/"@ + ort_archive_name(o),
        },
{
    let o = match os {
        None => { return None; },
        Some(o) => o,
    };
    let file = match o {
        TargetOs::Windows => {
            let mut f = concat("onnxruntime-win-x64-", ORT_VERSION);
            push_str(&mut f, ".zip");
            f
        },
        TargetOs::Linux => {
            let mut f = concat("onnxruntime-linux-x64-", ORT_VERSION);
            push_str(&mut f, ".tgz");
            f
        },
    };
    let mut url = concat("https://github.com/microsoft/onnxruntime/releases/download/v", ORT_VERSION);
    push_str(&mut url, "/");
    push_str(&mut url, file.as_str());
    proof {
        assert(url@ =~= "https://github.com/microsoft/onnxruntime/releases/download/v"@ + ORT_VERSION@ + "/"@ + ort_archive_name(o));
    }
    Some(url)
}

/// The ONNX Runtime library file the embedding engine is pointed at.
pub fn dylib_name(os: TargetOs) -> (name: &'static str)
    ensures
        name@ == match os {
            TargetOs::Windows => "onnxruntime.dll"@,
            TargetOs::Linux => "libonnxruntime.so"@,
        },
{
    match os {
        TargetOs::Windows => "onnxruntime.dll",
        TargetOs::Linux => "libonnxruntime.so",
    }
}

} // verus!
