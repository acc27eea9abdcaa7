//! The pdfium library used to read PDFs: which build is downloaded for each
//! platform.

use vstd::prelude::*;
use crate::platform::TargetOs;
use crate::text::{concat, push_str};

verus! {

/// The pinned pdfium build used to read PDFs.
pub const PDFIUM_RELEASE: &'static str = "chromium/7961";

/// Where the pdfium archive for `os` is published; `None` on a platform with
/// no prebuilt library.
pub fn asset_url(os: Option<TargetOs>) -> (url: Option<String>)
    ensures
        match os {
            None => url is None,
            Some(o) => url matches Some(u) && u@ == "https://github.com/bblanchon/pdfium-binaries/releases/download/"@
                + PDFIUM_RELEASE@ + "/"@ + match o {
                    TargetOs::Windows => "pdfium-win-x64.tgz"@,
                    TargetOs::Linux => "pdfium-linux-x64.tgz"@,
                },
        },
{
    let o = match os {
        None => { return None; },
        Some(o) => o,
    };
    let file = match o {
        TargetOs::Windows => "pdfium-win-x64.tgz",
        TargetOs::Linux => "pdfium-linux-x64.tgz",
    };
    let mut url = concat("https://github.com/bblanchon/pdfium-binaries/releases/download/", PDFIUM_RELEASE);
    push_str(&mut url, "/");
    push_str(&mut url, file);
    Some(url)
}

} // verus!
