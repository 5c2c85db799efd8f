//! Settings and decisions of the disposable-kernel test kit: the container
//! builder, the `podman run` arguments, the workspace token, and which
//! temporary directories a stale-workspace sweep removes.

use vstd::prelude::*;

use std::time::{Duration, SystemTime, UNIX_EPOCH};

use crate::text::{dec_digits, dec_u64, has_prefix, hex_digits, hex_u128, owned, push_str};

verus! {

/// Image used unless one is configured.
pub const DEFAULT_IMAGE: &'static str = "docker.io/b3log/siyuan:latest";

/// Seconds to wait for the kernel to answer, unless configured.
pub const DEFAULT_READY_TIMEOUT_SECS: u64 = 60;

/// Auth code the kernel is started with, unless configured.
pub const DEFAULT_ACCESS_AUTH_CODE: &'static str = "testkit";

/// Name prefix of every workspace directory the kit creates.
pub const TEMP_PREFIX: &'static str = "siyuan-testkit-";

/// Age in nanoseconds after which a leftover workspace is swept.
pub const STALE_AFTER_NANOS: u128 = 600_000_000_000u128;

/// `Duration::from_secs`.
///
/// Trusted: wraps `std::time::Duration::from_secs`; `Duration` is opaque
/// here, so nothing is stated of the result.
#[verifier::external_body]
fn duration_from_secs(secs: u64) -> Duration {
    Duration::from_secs(secs)
}

#[verifier::external_type_specification]
#[verifier::external_body]
pub struct ExSystemTime(std::time::SystemTime);

/// `SystemTime::now`.
///
/// Trusted: reads the system clock; nothing is stated of the reading.
#[verifier::external_body]
fn clock_now() -> SystemTime {
    SystemTime::now()
}

/// `SystemTime::duration_since(UNIX_EPOCH)`, `None` for a time before it.
///
/// Trusted: wraps `std::time::SystemTime::duration_since`; nothing is
/// stated of the duration.
#[verifier::external_body]
fn since_epoch(t: SystemTime) -> Option<Duration> {
    t.duration_since(UNIX_EPOCH).ok()
}

/// `Duration::as_nanos`.
///
/// Trusted: wraps `std::time::Duration::as_nanos`; `Duration` is opaque
/// here, so nothing is stated of the count.
#[verifier::external_body]
fn duration_nanos(d: Duration) -> u128 {
    d.as_nanos()
}

/// Settings of a disposable kernel container.
#[derive(Debug)]
pub struct SiyuanContainerBuilder {
    image: String,
    ready_timeout: Duration,
    access_auth_code: String,
}

impl Clone for SiyuanContainerBuilder {
    fn clone(&self) -> (r: Self)
        ensures
            r.image_spec() == self.image_spec(),
            r.timeout_spec() == self.timeout_spec(),
            r.code_spec() == self.code_spec(),
    {
        SiyuanContainerBuilder {
            image: self.image.clone(),
            ready_timeout: self.ready_timeout,
            access_auth_code: self.access_auth_code.clone(),
        }
    }
}

impl SiyuanContainerBuilder {
    /// The configured image.
    pub closed spec fn image_spec(&self) -> Seq<char> {
        self.image@
    }

    /// The configured readiness timeout.
    pub closed spec fn timeout_spec(&self) -> Duration {
        self.ready_timeout
    }

    /// The configured auth code.
    pub closed spec fn code_spec(&self) -> Seq<char> {
        self.access_auth_code@
    }

    /// The defaults: the given image (the configured override) or
    /// [`DEFAULT_IMAGE`], a 60 s timeout, and auth code `testkit`.
    pub fn defaults(image_override: Option<String>) -> (r: Self)
        ensures
            r.image_spec() == (match image_override {
                Some(s) => s@,
                None => DEFAULT_IMAGE@,
            }),
            r.code_spec() == DEFAULT_ACCESS_AUTH_CODE@,
    {
        let image = match image_override {
            Some(s) => s,
            None => owned(DEFAULT_IMAGE),
        };
        SiyuanContainerBuilder {
            image,
            ready_timeout: duration_from_secs(DEFAULT_READY_TIMEOUT_SECS),
            access_auth_code: owned(DEFAULT_ACCESS_AUTH_CODE),
        }
    }

    /// Uses another image.
    pub fn image(self, image: &str) -> (r: Self)
        ensures
            r.image_spec() == image@,
            r.timeout_spec() == self.timeout_spec(),
            r.code_spec() == self.code_spec(),
    {
        let mut s = self;
        s.image = owned(image);
        s
    }

    /// Waits this long for the kernel to answer.
    pub fn ready_timeout(self, timeout: Duration) -> (r: Self)
        ensures
            r.image_spec() == self.image_spec(),
            r.timeout_spec() == timeout,
            r.code_spec() == self.code_spec(),
    {
        let mut s = self;
        s.ready_timeout = timeout;
        s
    }

    /// Starts the kernel with this auth code.
    pub fn access_auth_code(self, code: &str) -> (r: Self)
        ensures
            r.image_spec() == self.image_spec(),
            r.timeout_spec() == self.timeout_spec(),
            r.code_spec() == code@,
    {
        let mut s = self;
        s.access_auth_code = owned(code);
        s
    }

    /// The configured image.
    pub fn image_name(&self) -> (r: &str)
        ensures
            r@ == self.image_spec(),
    {
        self.image.as_str()
    }

    /// The configured readiness timeout.
    pub fn timeout(&self) -> (r: Duration)
        ensures
            r == self.timeout_spec(),
    {
        self.ready_timeout
    }

    /// The configured auth code.
    pub fn auth_code(&self) -> (r: &str)
        ensures
            r@ == self.code_spec(),
    {
        self.access_auth_code.as_str()
    }

    /// The arguments after `podman run -d`: remove on exit, mount the
    /// workspace, publish the kernel port on loopback, the image, then the
    /// kernel's own flags.
    pub fn run_args(&self, workspace_path: &str, port: u16) -> (r: Vec<String>)
        ensures
            strings(r@) == run_args_of(self.image_spec(), self.code_spec(), workspace_path@, port),
    {
        let p = dec_u64(port as u64);
        let mut mount = owned(workspace_path);
        push_str(&mut mount, ":/siyuan/workspace:Z");
        let mut mapping = owned("127.0.0.1:");
        push_str(&mut mapping, p.as_str());
        push_str(&mut mapping, ":6806");
        let mut access = owned("--accessAuthCode=");
        push_str(&mut access, self.access_auth_code.as_str());
        let v = vec![
            owned("--rm"),
            owned("-v"),
            mount,
            owned("-p"),
            mapping,
            self.image.clone(),
            owned("--workspace=/siyuan/workspace"),
            access,
        ];
        assert(strings(v@) =~= run_args_of(self.image_spec(), self.code_spec(), workspace_path@, port));
        v
    }
}

/// Texts of a list of strings.
pub open spec fn strings(v: Seq<String>) -> Seq<Seq<char>> {
    v.map_values(|s: String| s@)
}

/// The `podman run -d` arguments for an image, auth code, workspace and port.
pub open spec fn run_args_of(image: Seq<char>, code: Seq<char>, ws: Seq<char>, port: u16) -> Seq<Seq<char>> {
    seq![
        "--rm"@,
        "-v"@,
        ws + ":/siyuan/workspace:Z"@,
        "-p"@,
        "127.0.0.1:"@ + dec_digits(port as nat) + ":6806"@,
        image,
        "--workspace=/siyuan/workspace"@,
        "--accessAuthCode="@ + code,
    ]
}

/// The kernel's URL on a loopback port.
pub fn base_url_for(port: u16) -> (r: String)
    ensures
        r@ == "http://127.0.0.1:"@ + dec_digits(port as nat),
{
    let mut s = owned("http://127.0.0.1:");
    let p = dec_u64(port as u64);
    push_str(&mut s, p.as_str());
    s
}

/// The workspace token for a clock reading: `tk-` and the nanoseconds in
/// lower-case hex.
pub fn token_from_nanos(nanos: u128) -> (r: String)
    ensures
        r@ == "tk-"@ + hex_digits(nanos as nat),
{
    let mut s = owned("tk-");
    let h = hex_u128(nanos);
    push_str(&mut s, h.as_str());
    s
}

/// A fresh workspace token from the current time; see [`token_from_nanos`].
pub fn generate_token() -> (r: String)
    ensures
        exists|n: u128| r@ == "tk-"@ + hex_digits(n as nat),
{
    let n = match since_epoch(clock_now()) {
        Some(d) => duration_nanos(d),
        None => 0,
    };
    token_from_nanos(n)
}

/// What a sweep does with one temporary-directory entry.
#[derive(Debug, Clone, Copy, PartialEq, Eq, Structural)]
pub enum SweepAction {
    /// Not a kit workspace, or unreadable: left alone.
    Skip,
    /// A kit workspace younger than the staleness limit: kept.
    KeepRecent,
    /// A stale kit workspace: removed.
    Remove,
}

/// The sweep's decision for an entry: its name (if it is valid UTF-8),
/// whether it is a directory (if its metadata could be read) and its age
/// (if its modification time could be read).
pub open spec fn sweep_action_of(name: Option<Seq<char>>, is_dir: Option<bool>, age_nanos: Option<u128>) -> SweepAction {
    match name {
        None => SweepAction::Skip,
        Some(n) => if !has_prefix(n, TEMP_PREFIX@) {
            SweepAction::Skip
        } else {
            match is_dir {
                None => SweepAction::Skip,
                Some(false) => SweepAction::Skip,
                Some(true) => match age_nanos {
                    None => SweepAction::Skip,
                    Some(a) => if a < STALE_AFTER_NANOS { SweepAction::KeepRecent } else { SweepAction::Remove },
                },
            }
        },
    }
}

/// Decides what a sweep does with one entry; see [`sweep_action_of`].
pub fn sweep_action(name: Option<&str>, is_dir: Option<bool>, age_nanos: Option<u128>) -> (r: SweepAction)
    ensures
        r == sweep_action_of(
            match name {
                Some(s) => Some(s@),
                None => None,
            },
            is_dir,
            age_nanos,
        ),
{
    match name {
        None => SweepAction::Skip,
        Some(n) => {
            let cs = crate::text::chars_of(n);
            let pre = crate::text::chars_of(TEMP_PREFIX);
            if !crate::text::chars_has_prefix(cs.as_slice(), pre.as_slice()) {
                return SweepAction::Skip;
            }
            match is_dir {
                Some(true) => match age_nanos {
                    None => SweepAction::Skip,
                    Some(a) => if a < STALE_AFTER_NANOS { SweepAction::KeepRecent } else { SweepAction::Remove },
                },
                _ => SweepAction::Skip,
            }
        },
    }
}

} // verus!
