//! Choosing and fetching the release artifact for the host platform: the
//! platform description, the artifact name table, and the decisions of a
//! download from probe to saved file.
use vstd::prelude::*;
use vstd::string::{StringExecFns, StringSliceAdditionalSpecFns};

use crate::text::{contains_bytes, has_infix};

verus! {

/// The toolchain flavor the client was built with.
#[derive(Clone, Copy, Debug, PartialEq, Eq, Structural)]
pub enum Flavor {
    Gnu,
    Musl,
    Msvc,
    Mingw,
}

/// The host as the downloader sees it: operating system and CPU
/// architecture names, and the build's toolchain flavor.
#[derive(Debug)]
pub struct Platform {
    pub os: String,
    pub arch: String,
    pub flavor: Flavor,
}

/// A failure reported to the caller.
#[derive(Debug)]
pub struct Error {
    pub status: bool,
    pub message: String,
}

/// The outcome of a download command.
#[derive(Debug)]
pub struct DownloadResult {
    pub status: bool,
    pub message: Option<String>,
}

impl From<String> for Error {
    fn from(message: String) -> (r: Error) {
        Error { status: false, message }
    }
}

impl vstd::std_specs::convert::FromSpecImpl<String> for Error {
    open spec fn obeys_from_spec() -> bool {
        true
    }

    open spec fn from_spec(message: String) -> Error {
        Error { status: false, message }
    }
}

impl Default for DownloadResult {
    fn default() -> (r: DownloadResult)
        ensures
            r.status,
            r.message is None,
    {
        DownloadResult { status: true, message: None }
    }
}

/// The bytes whose presence in the OS release descriptor marks Arch Linux.
pub open spec fn arch_linux_marker() -> Seq<u8> {
    "Arch Linux".spec_bytes()
}

/// Whether the contents of the OS release descriptor name Arch Linux.
pub fn is_arch_linux(os_release: &str) -> (r: bool)
    ensures
        r == has_infix(os_release.spec_bytes(), arch_linux_marker()),
{
    contains_bytes(os_release.as_bytes(), "Arch Linux".as_bytes())
}

/// The artifact file name for a platform and version, or `None` where no
/// artifact is published for the platform.
pub open spec fn asset_name(os: Seq<char>, arch: Seq<char>, flavor: Flavor, v: Seq<char>) -> Option<
    Seq<char>,
> {
    if os == "macos"@ && arch == "x86_64"@ {
        Some("algohub_"@ + v + "_x64.dmg"@)
    } else if os == "macos"@ && arch == "aarch64"@ {
        Some("algohub_"@ + v + "_aarch64.dmg"@)
    } else if os == "linux"@ && arch == "x86_64"@ {
        if flavor == Flavor::Gnu {
            Some("algohub-"@ + v + "-1.x86_64.rpm"@)
        } else {
            Some("algohub_"@ + v + "_amd64.deb"@)
        }
    } else if os == "linux"@ && arch == "aarch64"@ {
        Some("algohub_aarch64.app.tar.gz"@)
    } else if os == "windows"@ && arch == "x86_64"@ {
        if flavor == Flavor::Msvc {
            Some("algohub_"@ + v + "_x64_en-US.msi"@)
        } else {
            Some("algohub_"@ + v + "_x64-setup.exe"@)
        }
    } else {
        None
    }
}

/// The (OS, architecture) pairs for which an artifact is published.
pub open spec fn supported(os: Seq<char>, arch: Seq<char>) -> bool {
    ||| os == "macos"@ && (arch == "x86_64"@ || arch == "aarch64"@)
    ||| os == "linux"@ && (arch == "x86_64"@ || arch == "aarch64"@)
    ||| os == "windows"@ && arch == "x86_64"@
}

/// The diagnostic for a platform without a published artifact.
pub open spec fn unsupported_message(os: Seq<char>, arch: Seq<char>) -> Seq<char> {
    "Unsupported OS or architecture: OS = "@ + os + ", ARCH = "@ + arch
}

/// Artifact names exist for exactly the supported (OS, architecture) pairs,
/// whatever the flavor and the version.
pub proof fn lemma_asset_name_total(os: Seq<char>, arch: Seq<char>, flavor: Flavor, v: Seq<char>)
    ensures
        asset_name(os, arch, flavor, v) is Some <==> supported(os, arch),
{
}

fn same_text(s: &String, lit: &str) -> (r: bool)
    ensures
        r == (s@ == lit@),
{
    *s == lit.to_owned()
}

fn join3(a: &str, b: &str, c: &str) -> (r: String)
    ensures
        r@ == a@ + b@ + c@,
{
    let mut s = a.to_owned();
    s.append(b);
    s.append(c);
    s
}

/// The artifact file name for a platform and version; an unsupported
/// platform gives an error naming its OS and architecture.
pub fn asset_file_name(platform: &Platform, version: &str) -> (r: Result<String, Error>)
    ensures
        match asset_name(platform.os@, platform.arch@, platform.flavor, version@) {
            Some(f) => r matches Ok(s) && s@ == f,
            None => r matches Err(e) && !e.status && e.message@ == unsupported_message(
                platform.os@,
                platform.arch@,
            ),
        },
{
    let os_macos = same_text(&platform.os, "macos");
    let os_linux = same_text(&platform.os, "linux");
    let os_windows = same_text(&platform.os, "windows");
    let x86_64 = same_text(&platform.arch, "x86_64");
    let aarch64 = same_text(&platform.arch, "aarch64");
    if os_macos && x86_64 {
        Ok(join3("algohub_", version, "_x64.dmg"))
    } else if os_macos && aarch64 {
        Ok(join3("algohub_", version, "_aarch64.dmg"))
    } else if os_linux && x86_64 {
        if platform.flavor == Flavor::Gnu {
            Ok(join3("algohub-", version, "-1.x86_64.rpm"))
        } else {
            Ok(join3("algohub_", version, "_amd64.deb"))
        }
    } else if os_linux && aarch64 {
        Ok("algohub_aarch64.app.tar.gz".to_owned())
    } else if os_windows && x86_64 {
        if platform.flavor == Flavor::Msvc {
            Ok(join3("algohub_", version, "_x64_en-US.msi"))
        } else {
            Ok(join3("algohub_", version, "_x64-setup.exe"))
        }
    } else {
        let mut m = join3("Unsupported OS or architecture: OS = ", platform.os.as_str(), ", ARCH = ");
        m.append(platform.arch.as_str());
        Err(Error::from(m))
    }
}

/// Where the artifact of a version is published.
pub open spec fn release_url(version: Seq<char>, file_name: Seq<char>) -> Seq<char> {
    "https://github.com/swpu-acm/algohub/releases/download/"@ + version + "/"@ + file_name
}

/// The advice given on Arch Linux instead of a download.
pub open spec fn advisory_message() -> Seq<char> {
    "Please install the latest version manually"@
}

/// The confirmation of a saved artifact.
pub open spec fn success_message(file_name: Seq<char>) -> Seq<char> {
    "Successfully downloaded release: "@ + file_name
}

/// A successful result that carries `text` as its message.
pub open spec fn says(d: DownloadResult, text: Seq<char>) -> bool {
    d.status && (d.message matches Some(m) && m@ == text)
}

/// What a download does after probing the platform.
#[derive(Debug)]
pub enum DownloadStep {
    /// Nothing to fetch: hand this result back as it is.
    Finished(DownloadResult),
    /// Fetch `url` and save its body under `file_name`.
    Fetch { url: String, file_name: String },
    /// Stop with this error.
    Failed(Error),
}

/// The first decision of a download: the Arch Linux advisory, an error for
/// an unsupported platform, or the artifact to fetch and where to save it.
pub fn plan_download(platform: &Platform, arch_linux: bool, version: &str) -> (r: DownloadStep)
    ensures
        platform.os@ == "linux"@ && arch_linux ==> (r matches DownloadStep::Finished(d)
            && says(d, advisory_message())),
        !(platform.os@ == "linux"@ && arch_linux) ==> match asset_name(
            platform.os@,
            platform.arch@,
            platform.flavor,
            version@,
        ) {
            Some(f) => r matches DownloadStep::Fetch { url, file_name } && file_name@ == f && url@
                == release_url(version@, f),
            None => r matches DownloadStep::Failed(e) && !e.status && e.message@
                == unsupported_message(platform.os@, platform.arch@),
        },
{
    if arch_linux && same_text(&platform.os, "linux") {
        return DownloadStep::Finished(
            DownloadResult {
                status: true,
                message: Some("Please install the latest version manually".to_owned()),
            },
        );
    }
    match asset_file_name(platform, version) {
        Ok(file_name) => {
            let mut url = join3(
                "https://github.com/swpu-acm/algohub/releases/download/",
                version,
                "/",
            );
            url.append(file_name.as_str());
            DownloadStep::Fetch { url, file_name }
        },
        Err(e) => DownloadStep::Failed(e),
    }
}

/// Whether an HTTP status code reports success.
pub open spec fn is_success(code: u16) -> bool {
    200 <= code <= 299
}

/// The decimal digit character of `d`.
pub open spec fn digit_char(d: nat) -> char {
    if d == 0 { '0' }
    else if d == 1 { '1' }
    else if d == 2 { '2' }
    else if d == 3 { '3' }
    else if d == 4 { '4' }
    else if d == 5 { '5' }
    else if d == 6 { '6' }
    else if d == 7 { '7' }
    else if d == 8 { '8' }
    else { '9' }
}

/// The decimal digits of `n`, most significant first, without leading zeros.
pub open spec fn decimal(n: nat) -> Seq<char>
    decreases n,
{
    if n < 10 {
        seq![digit_char(n)]
    } else {
        decimal(n / 10).push(digit_char(n % 10))
    }
}

fn digit_text(d: u16) -> (r: &'static str)
    requires
        d < 10,
    ensures
        r@ == seq![digit_char(d as nat)],
{
    proof {
        reveal_strlit("0");
        reveal_strlit("1");
        reveal_strlit("2");
        reveal_strlit("3");
        reveal_strlit("4");
        reveal_strlit("5");
        reveal_strlit("6");
        reveal_strlit("7");
        reveal_strlit("8");
        reveal_strlit("9");
    }
    match d {
        0 => "0",
        1 => "1",
        2 => "2",
        3 => "3",
        4 => "4",
        5 => "5",
        6 => "6",
        7 => "7",
        8 => "8",
        _ => "9",
    }
}

/// The decimal representation of a number.
pub fn decimal_text(n: u16) -> (r: String)
    ensures
        r@ == decimal(n as nat),
    decreases n,
{
    if n < 10 {
        digit_text(n).to_owned()
    } else {
        let mut s = decimal_text(n / 10);
        s.append(digit_text(n % 10));
        s
    }
}

/// The diagnostic for an artifact request answered with a failure status.
pub open spec fn status_message(url: Seq<char>, code: u16) -> Seq<char> {
    "Failed to download release from "@ + url + ". HTTP Status: "@ + decimal(code as nat)
}

/// Accepts a response whose status code is in the success range; any other
/// status is an error naming the URL and the numeric status code.
pub fn check_status(url: &str, code: u16) -> (r: Result<(), Error>)
    ensures
        r is Ok <==> is_success(code),
        r matches Err(e) ==> !e.status && e.message@ == status_message(url@, code),
{
    if 200 <= code && code <= 299 {
        Ok(())
    } else {
        let mut m = join3("Failed to download release from ", url, ". HTTP Status: ");
        m.append(decimal_text(code).as_str());
        Err(Error::from(m))
    }
}

/// The stage of a download at which an outside operation failed.
#[derive(Clone, Copy, Debug, PartialEq, Eq, Structural)]
pub enum Stage {
    /// Sending the request; the subject is the URL.
    Send,
    /// Reading the response body; the subject is the URL.
    Read,
    /// Creating the output file; the subject is its path.
    Create,
    /// Writing the output file; the subject is its path.
    Write,
}

/// The diagnostic for a failure at a stage, with its subject and cause.
pub open spec fn stage_message(stage: Stage, subject: Seq<char>, cause: Seq<char>) -> Seq<char> {
    match stage {
        Stage::Send => "Failed to send request to "@ + subject + ": "@ + cause,
        Stage::Read => "Failed to read response content from "@ + subject + ": "@ + cause,
        Stage::Create => "Failed to create file "@ + subject + ": "@ + cause,
        Stage::Write => "Failed to write to file "@ + subject + ": "@ + cause,
    }
}

/// The error for a failure at a stage of a download.
pub fn stage_error(stage: Stage, subject: &str, cause: &str) -> (e: Error)
    ensures
        !e.status,
        e.message@ == stage_message(stage, subject@, cause@),
{
    let mut m = match stage {
        Stage::Send => join3("Failed to send request to ", subject, ": "),
        Stage::Read => join3("Failed to read response content from ", subject, ": "),
        Stage::Create => join3("Failed to create file ", subject, ": "),
        Stage::Write => join3("Failed to write to file ", subject, ": "),
    };
    m.append(cause);
    Error::from(m)
}

/// The result of a download whose artifact was saved as `file_name`.
pub fn downloaded(file_name: &str) -> (r: DownloadResult)
    ensures
        says(r, success_message(file_name@)),
{
    let mut m = "Successfully downloaded release: ".to_owned();
    m.append(file_name);
    DownloadResult { status: true, message: Some(m) }
}

} // verus!
