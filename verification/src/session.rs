//! The device session: the transport interface the engine drives, the
//! handshake's API-level parse, and the fixed shell commands and
//! remote paths the engine uses.

use vstd::prelude::*;

use crate::action::ShellRunError;
use crate::strutil::{parse_u32, spec_parse_u32, trim, trim_spaces};

verus! {

/// The one capability the engine needs of a transport: run a shell
/// command and hand its output back as text. The production
/// implementation wraps the real device; tests may script it.
pub trait ShellCommandText {
    fn shell_command_text(&mut self, command: &str) -> Result<String, ShellRunError>;
}

/// A live session: the handshake succeeded and the device answered
/// with its API level. It lives until the first fatal transport
/// error.
pub struct DeviceSession {
    pub api_level: u32,
}

/// What the version query's output parses to: the digits, with
/// surrounding whitespace forgiven.
pub open spec fn spec_parse_api_level(s: Seq<char>) -> Option<u32> {
    spec_parse_u32(trim_spaces(s))
}

/// Parse the output of the version query; anything but a whole
/// number discards the handshake.
pub fn parse_api_level(s: &str) -> (r: Option<u32>)
    ensures
        r == spec_parse_api_level(s@),
{
    let t = trim(s);
    parse_u32(t.as_str())
}

/// Read the output of the version query into a session.
pub fn session_from_handshake(s: &str) -> (r: Option<DeviceSession>)
    ensures
        match r {
            Some(sess) => spec_parse_api_level(s@) == Some(sess.api_level),
            None => spec_parse_api_level(s@) is None,
        },
{
    match parse_api_level(s) {
        Some(level) => Some(DeviceSession { api_level: level }),
        None => None,
    }
}

/// Where the label-extraction helper is pushed on the device.
pub fn extractor_remote_path() -> (r: &'static str)
    ensures
        r@ == "/data/local/tmp/extractor.dex"@,
{
    "/data/local/tmp/extractor.dex"
}

/// Run the uploaded helper, printing one line per package.
pub fn extractor_run_command() -> (r: &'static str)
    ensures
        r@ == "CLASSPATH=/data/local/tmp/extractor.dex app_process / Main"@,
{
    "CLASSPATH=/data/local/tmp/extractor.dex app_process / Main"
}

/// Enumerate all installed packages with their installer paths.
pub fn list_packages_command() -> (r: &'static str)
    ensures
        r@ == "pm list packages -f"@,
{
    "pm list packages -f"
}

/// Enumerate the disabled packages.
pub fn list_disabled_command() -> (r: &'static str)
    ensures
        r@ == "pm list packages -d"@,
{
    "pm list packages -d"
}

/// Query the device's API level.
pub fn api_level_command() -> (r: &'static str)
    ensures
        r@ == "getprop ro.build.version.sdk"@,
{
    "getprop ro.build.version.sdk"
}

} // verus!
