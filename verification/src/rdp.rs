//! RDP: session options, their validation, the certificate trust decision
//! and the plan for launching the platform's native RDP client.
//!
//! The external-client launcher opens the session in the platform's own
//! client (`mstsc.exe` on Windows, `xfreerdp` on Linux, a `.rdp` file
//! opened with `open` on macOS) with the connection details prefilled. The
//! library decides everything about the launch (which checks, which
//! arguments, which file body); starting the process is left to the caller.
//!
//! NLA is required; options that disable it are refused.

use vstd::prelude::*;
use crate::errors::{err_of, AppError, AppResult, ErrorView};
use crate::hostkeys::{rdp_check_spec, RdpPinStore, TrustOutcome};
use crate::text::{chars_of, decimal, decimal_chars, string_of};

verus! {

/// Options of an RDP session.
#[derive(Debug)]
pub struct RdpOptions {
    /// Resolution width in pixels.
    pub width: u32,
    /// Resolution height in pixels.
    pub height: u32,
    /// Color depth (16/24/32).
    pub color_depth: u32,
    /// Require NLA (must stay on).
    pub require_nla: bool,
    /// Forward the clipboard.
    pub clipboard: bool,
    /// Domain (optional).
    pub domain: Option<String>,
}

impl Clone for RdpOptions {
    fn clone(&self) -> (r: Self)
        ensures
            r == *self,
    {
        RdpOptions {
            width: self.width,
            height: self.height,
            color_depth: self.color_depth,
            require_nla: self.require_nla,
            clipboard: self.clipboard,
            domain: match &self.domain {
                Some(d) => Some(d.clone()),
                None => None,
            },
        }
    }
}

/// Default resolution width.
pub fn default_width() -> (r: u32)
    ensures
        r == 1280,
{
    1280
}

/// Default resolution height.
pub fn default_height() -> (r: u32)
    ensures
        r == 800,
{
    800
}

/// Default color depth.
pub fn default_depth() -> (r: u32)
    ensures
        r == 24,
{
    24
}

/// Default of the boolean options (NLA, clipboard).
pub fn default_true() -> (r: bool)
    ensures
        r,
{
    true
}

impl Default for RdpOptions {
    fn default() -> (r: Self)
        ensures
            r.width == 1280,
            r.height == 800,
            r.color_depth == 24,
            r.require_nla,
            r.clipboard,
            r.domain is None,
    {
        RdpOptions {
            width: default_width(),
            height: default_height(),
            color_depth: default_depth(),
            require_nla: default_true(),
            clipboard: default_true(),
            domain: None,
        }
    }
}

/// A frame for the embedded renderer: raw RGBA pixels.
#[derive(Debug, Clone)]
pub struct RdpFrame {
    /// Frame width in pixels.
    pub width: u32,
    /// Frame height in pixels.
    pub height: u32,
    /// Pixel format (always `rgba8`).
    pub format: &'static str,
    /// Raw RGBA bytes, length = width * height * 4.
    pub data: Vec<u8>,
}

/// Decision on a server certificate.
#[derive(Debug, Clone, Copy, PartialEq, Eq, Structural)]
pub enum CertCheck {
    Trusted,
    NeedsConfirmation,
    Mismatch,
}

/// Whether to trust a server certificate: trusted if pinned, a mismatch if
/// another is pinned, for the user to confirm if none is.
pub fn check_certificate(pins: &RdpPinStore, host: &str, port: u16, cert_der: &[u8]) -> (res: CertCheck)
    requires
        pins.wf(),
    ensures
        res == match rdp_check_spec(pins.pins_view(), host@, port, cert_der@) {
            TrustOutcome::Trusted => CertCheck::Trusted,
            TrustOutcome::Unknown => CertCheck::NeedsConfirmation,
            TrustOutcome::Mismatch => CertCheck::Mismatch,
        },
{
    match pins.check(host, port, cert_der) {
        TrustOutcome::Trusted => CertCheck::Trusted,
        TrustOutcome::Unknown => CertCheck::NeedsConfirmation,
        TrustOutcome::Mismatch => CertCheck::Mismatch,
    }
}

/// The error (if any) that validating options gives: resolution first,
/// then color depth, then NLA.
pub open spec fn options_error(opts: RdpOptions) -> Option<Seq<char>> {
    if !(640 <= opts.width <= 7680) || !(480 <= opts.height <= 4320) {
        Some("rdp resolution out of range"@)
    } else if !(opts.color_depth == 16 || opts.color_depth == 24 || opts.color_depth == 32) {
        Some("rdp color depth must be 16/24/32"@)
    } else if !opts.require_nla {
        Some("NLA must remain enabled (security policy)"@)
    } else {
        None
    }
}

/// Validates the renderer-supplied options before a session starts.
pub fn validate_options(opts: &RdpOptions) -> (res: AppResult<()>)
    ensures
        match options_error(*opts) {
            None => res is Ok,
            Some(m) => err_of(res) == Some(ErrorView::InvalidInput(m)),
        },
{
    if !(640 <= opts.width && opts.width <= 7680) || !(480 <= opts.height && opts.height <= 4320) {
        return Err(AppError::InvalidInput(String::from_str("rdp resolution out of range")));
    }
    if !(opts.color_depth == 16 || opts.color_depth == 24 || opts.color_depth == 32) {
        return Err(AppError::InvalidInput(String::from_str("rdp color depth must be 16/24/32")));
    }
    if !opts.require_nla {
        return Err(AppError::InvalidInput(String::from_str("NLA must remain enabled (security policy)")));
    }
    Ok(())
}

/// Inputs to the external-client launcher.
pub struct ExternalLaunch<'a> {
    pub host: &'a str,
    pub port: u16,
    pub user: &'a str,
    pub domain: Option<&'a str>,
    /// Decrypted password, handed to the platform's client (and wiped by
    /// the caller afterwards).
    pub password: Option<Vec<u8>>,
    pub options: &'a RdpOptions,
}

/// What the launcher tells the UI, so it shows "launched in the system RDP
/// client" rather than an in-app session.
#[derive(Debug, Clone)]
pub struct ExternalLaunched {
    /// Human-readable label of the client.
    pub client: String,
    /// Whether credentials were prefilled (otherwise the client prompts).
    pub credentials_prefilled: bool,
}

/// The platform whose native client is launched.
#[derive(Debug, Clone, Copy, PartialEq, Eq, Structural)]
pub enum Platform {
    Windows,
    Linux,
    MacOs,
    Other,
}

/// What to run to open the session.
#[derive(Debug)]
pub enum LaunchPlan {
    /// Windows: when `seed_args` is given, run `cmdkey` with them (storing
    /// the password for `TERMSRV/<host>`); then run `mstsc /v <target>`;
    /// once launched with seeded credentials, later run `cmdkey` with
    /// `delete_arg` to remove them.
    Mstsc { target: String, seed_args: Option<Vec<String>>, delete_arg: String },
    /// Linux: run the first of `xfreerdp3`, `xfreerdp` found on the PATH
    /// with these arguments.
    Xfreerdp { args: Vec<String>, prefilled: bool },
    /// macOS: write this body to `navis-<file_stem>-<pid>.rdp` in the
    /// temporary directory and `open` it.
    RdpFile { file_stem: String, body: String },
}

/// The user as the client takes it: `domain\user` when a non-empty domain
/// is given, else the user.
pub open spec fn qualified_user_spec(user: Seq<char>, domain: Option<Seq<char>>) -> Seq<char> {
    match domain {
        Some(d) => if d.len() > 0 {
            d + "\\"@ + user
        } else {
            user
        },
        None => user,
    }
}

/// The text of an optional borrowed string.
pub open spec fn opt_view(o: Option<&str>) -> Option<Seq<char>> {
    match o {
        Some(s) => Some(s@),
        None => None,
    }
}

/// The user as the client takes it.
pub fn qualified_user(user: &str, domain: Option<&str>) -> (res: String)
    ensures
        res@ == qualified_user_spec(user@, opt_view(domain)),
{
    match domain {
        Some(d) => {
            if d.unicode_len() > 0 {
                let mut s = String::from_str(d);
                s.append("\\");
                s.append(user);
                s
            } else {
                String::from_str(user)
            }
        },
        None => String::from_str(user),
    }
}

/// `prefix` followed by `rest`.
fn arg(prefix: &str, rest: &str) -> (res: String)
    ensures
        res@ == prefix@ + rest@,
{
    let mut s = String::from_str(prefix);
    s.append(rest);
    s
}

/// The decimal text of a number.
fn number_text(n: u32) -> (res: String)
    ensures
        res@ == decimal(n as nat),
{
    string_of(&decimal_chars(n as u64))
}



/// The arguments of the Linux client: target, user, domain (when
/// non-empty), size, color depth, certificate policy, clipboard (when
/// forwarded) and password (when given).
pub open spec fn xfreerdp_args_spec(
    host: Seq<char>,
    port: u16,
    user: Seq<char>,
    domain: Option<Seq<char>>,
    opts: RdpOptions,
    password: Option<Seq<char>>,
) -> Seq<Seq<char>> {
    let a = seq!["/v:"@ + host + ":"@ + decimal(port as nat), "/u:"@ + user];
    let a = if domain matches Some(d) && d.len() > 0 {
        a.push("/d:"@ + domain->0)
    } else {
        a
    };
    let a = a.push("/size:"@ + decimal(opts.width as nat) + "x"@ + decimal(opts.height as nat)).push(
        "/bpp:"@ + decimal(opts.color_depth as nat),
    ).push("/cert:tofu"@);
    let a = if opts.clipboard {
        a.push("+clipboard"@)
    } else {
        a
    };
    match password {
        Some(p) => a.push("/p:"@ + p),
        None => a,
    }
}

/// The body of the `.rdp` file opened on macOS.
pub open spec fn rdp_file_spec(host: Seq<char>, port: u16, full_user: Seq<char>) -> Seq<char> {
    "full address:s:"@ + host + ":"@ + decimal(port as nat) + "\nusername:s:"@ + full_user
        + "\nprompt for credentials:i:1\nauthentication level:i:2\n"@
}

/// The host with `:` and `/` replaced by `_`, for a file name.
pub open spec fn file_stem_spec(host: Seq<char>) -> Seq<char> {
    Seq::new(host.len(), |i: int| if host[i] == ':' || host[i] == '/' { '_' } else { host[i] })
}

/// The views of a list of strings.
pub open spec fn strings_view(v: Seq<String>) -> Seq<Seq<char>> {
    Seq::new(v.len(), |i: int| v[i]@)
}

/// The text of the password, when one is given and it is valid UTF-8.
pub open spec fn password_text(pw: Option<Vec<u8>>) -> Option<Seq<char>> {
    match pw {
        Some(p) => Some(vstd::utf8::decode_utf8(p@)),
        None => None,
    }
}

/// Whether the password, if given, is valid UTF-8.
pub open spec fn password_ok(pw: Option<Vec<u8>>) -> bool {
    pw matches Some(p) ==> vstd::utf8::valid_utf8(p@)
}

/// The host with `:` and `/` replaced by `_`.
pub fn file_stem(host: &str) -> (res: String)
    ensures
        res@ == file_stem_spec(host@),
{
    let cs = chars_of(host);
    let mut out = String::new();
    let mut i: usize = 0;
    while i < cs.len()
        invariant
            i <= cs@.len(),
            cs@ == host@,
            out@ == file_stem_spec(host@).take(i as int),
        decreases cs@.len() - i,
    {
        let c = cs[i];
        let d = if c == ':' || c == '/' { '_' } else { c };
        crate::text::push_char(&mut out, d);
        assert(out@ =~= file_stem_spec(host@).take(i + 1));
        i += 1;
    }
    assert(file_stem_spec(host@).take(cs@.len() as int) =~= file_stem_spec(host@));
    out
}

/// The outcome the UI is told of a Windows launch.
pub fn mstsc_launched(seeded: bool) -> (res: ExternalLaunched)
    ensures
        res.client@ == "mstsc.exe"@,
        res.credentials_prefilled == seeded,
{
    ExternalLaunched { client: String::from_str("mstsc.exe"), credentials_prefilled: seeded }
}

/// Decides how to open an RDP session in the platform's own client.
/// `xfreerdp` is the Linux client found on the PATH, if any.
pub fn plan_external_launch(launch: &ExternalLaunch, platform: Platform, xfreerdp: Option<&str>) -> (res: AppResult<(LaunchPlan, Option<ExternalLaunched>)>)
    ensures
        options_error(*launch.options) matches Some(m) ==> err_of(res) == Some(ErrorView::InvalidInput(m)),
        options_error(*launch.options) is None ==> match platform {
            Platform::Other => err_of(res) == Some(
                ErrorView::Protocol("no external RDP client launcher is wired up for this platform"@),
            ),
            Platform::Windows => if !password_ok(launch.password) {
                err_of(res) == Some(ErrorView::InvalidInput("rdp password must be valid UTF-8 for cmdkey"@))
            } else {
                res matches Ok((LaunchPlan::Mstsc { target, seed_args, delete_arg }, None)) && {
                    &&& target@ == launch.host@ + ":"@ + decimal(launch.port as nat)
                    &&& delete_arg@ == "/delete:TERMSRV/"@ + launch.host@
                    &&& match password_text(launch.password) {
                        None => seed_args is None,
                        Some(p) => seed_args matches Some(a) && strings_view(a@) == seq![
                            "/generic:TERMSRV/"@ + launch.host@,
                            "/user:"@ + qualified_user_spec(launch.user@, opt_view(launch.domain)),
                            "/pass:"@ + p,
                        ],
                    }
                }
            },
            Platform::Linux => match xfreerdp {
                None => err_of(res) == Some(
                    ErrorView::Protocol("xfreerdp not found on PATH (install freerdp2-x11 / freerdp3-x11)"@),
                ),
                Some(exe) => if !password_ok(launch.password) {
                    err_of(res) == Some(ErrorView::InvalidInput("rdp password must be valid UTF-8"@))
                } else {
                    res matches Ok((LaunchPlan::Xfreerdp { args, prefilled }, Some(done))) && {
                        &&& strings_view(args@) == xfreerdp_args_spec(
                            launch.host@,
                            launch.port,
                            qualified_user_spec(launch.user@, opt_view(launch.domain)),
                            opt_view(launch.domain),
                            *launch.options,
                            password_text(launch.password),
                        )
                        &&& prefilled == (launch.password is Some)
                        &&& done.client@ == exe@
                        &&& done.credentials_prefilled == prefilled
                    }
                },
            },
            Platform::MacOs => res matches Ok((LaunchPlan::RdpFile { file_stem, body }, Some(done))) && {
                &&& file_stem@ == file_stem_spec(launch.host@)
                &&& body@ == rdp_file_spec(launch.host@, launch.port, qualified_user_spec(launch.user@, opt_view(launch.domain)))
                &&& done.client@ == "Microsoft Remote Desktop"@
                &&& !done.credentials_prefilled
            },
        },
{
    validate_options(launch.options)?;
    let user = qualified_user(launch.user, launch.domain);
    match platform {
        Platform::Other => Err(AppError::Protocol(String::from_str("no external RDP client launcher is wired up for this platform"))),
        Platform::Windows => {
            let seed_args = match &launch.password {
                None => None,
                Some(pw) => match crate::text::utf8_text(pw.as_slice()) {
                    None => return Err(AppError::InvalidInput(String::from_str("rdp password must be valid UTF-8 for cmdkey"))),
                    Some(p) => {
                        let mut a: Vec<String> = Vec::new();
                        a.push(arg("/generic:TERMSRV/", launch.host));
                        a.push(arg("/user:", user.as_str()));
                        a.push(arg("/pass:", p.as_str()));
                        assert(strings_view(a@) =~= seq![
                            "/generic:TERMSRV/"@ + launch.host@,
                            "/user:"@ + user@,
                            "/pass:"@ + p@,
                        ]);
                        Some(a)
                    },
                },
            };
            let mut target = String::from_str(launch.host);
            target.append(":");
            let port_text = number_text(launch.port as u32);
            target.append(port_text.as_str());
            let delete_arg = arg("/delete:TERMSRV/", launch.host);
            Ok((LaunchPlan::Mstsc { target, seed_args, delete_arg }, None))
        },
        Platform::Linux => {
            let exe = match xfreerdp {
                None => return Err(AppError::Protocol(String::from_str("xfreerdp not found on PATH (install freerdp2-x11 / freerdp3-x11)"))),
                Some(e) => e,
            };
            let opts = launch.options;
            let mut args: Vec<String> = Vec::new();
            let mut v = arg("/v:", launch.host);
            v.append(":");
            let port_text = number_text(launch.port as u32);
            v.append(port_text.as_str());
            args.push(v);
            args.push(arg("/u:", user.as_str()));
            match launch.domain {
                Some(d) => {
                    if d.unicode_len() > 0 {
                        args.push(arg("/d:", d));
                    }
                },
                None => {},
            }
            let mut size = arg("/size:", number_text(opts.width).as_str());
            size.append("x");
            let h = number_text(opts.height);
            size.append(h.as_str());
            args.push(size);
            args.push(arg("/bpp:", number_text(opts.color_depth).as_str()));
            args.push(String::from_str("/cert:tofu"));
            if opts.clipboard {
                args.push(String::from_str("+clipboard"));
            }
            let mut prefilled = false;
            match &launch.password {
                None => {},
                Some(pw) => match crate::text::utf8_text(pw.as_slice()) {
                    None => return Err(AppError::InvalidInput(String::from_str("rdp password must be valid UTF-8"))),
                    Some(p) => {
                        args.push(arg("/p:", p.as_str()));
                        prefilled = true;
                    },
                },
            }
            assert(strings_view(args@) =~= xfreerdp_args_spec(
                launch.host@,
                launch.port,
                user@,
                opt_view(launch.domain),
                *launch.options,
                password_text(launch.password),
            ));
            let done = ExternalLaunched { client: String::from_str(exe), credentials_prefilled: prefilled };
            Ok((LaunchPlan::Xfreerdp { args, prefilled }, Some(done)))
        },
        Platform::MacOs => {
            let mut body = String::from_str("full address:s:");
            body.append(launch.host);
            body.append(":");
            let port_text = number_text(launch.port as u32);
            body.append(port_text.as_str());
            body.append("\nusername:s:");
            body.append(user.as_str());
            body.append("\nprompt for credentials:i:1\nauthentication level:i:2\n");
            let file_stem = file_stem(launch.host);
            let done = ExternalLaunched {
                client: String::from_str("Microsoft Remote Desktop"),
                credentials_prefilled: false,
            };
            Ok((LaunchPlan::RdpFile { file_stem, body }, Some(done)))
        },
    }
}

/// Whether a text begins with `/`.
pub open spec fn is_switch(t: Seq<char>) -> bool {
    t.len() > 0 && t[0] == '/'
}

proof fn lemma_switch_concat(p: Seq<char>, rest: Seq<char>)
    requires
        is_switch(p),
    ensures
        is_switch(p + rest),
{
    assert((p + rest)[0] == p[0]);
}

/// The Linux client is told to forward the clipboard exactly when the
/// options ask for it: `+clipboard` is among its arguments if and only if
/// `clipboard` is set.
pub proof fn law_clipboard_only_when_asked(
    host: Seq<char>,
    port: u16,
    user: Seq<char>,
    domain: Option<Seq<char>>,
    opts: RdpOptions,
    password: Option<Seq<char>>,
)
    ensures
        xfreerdp_args_spec(host, port, user, domain, opts, password).contains("+clipboard"@) == opts.clipboard,
{
    reveal_strlit("+clipboard");
    reveal_strlit("/v:");
    reveal_strlit("/u:");
    reveal_strlit("/d:");
    reveal_strlit("/size:");
    reveal_strlit("/bpp:");
    reveal_strlit("/cert:tofu");
    reveal_strlit("/p:");
    let a0 = seq!["/v:"@ + host + ":"@ + decimal(port as nat), "/u:"@ + user];
    lemma_switch_concat("/v:"@, host + ":"@ + decimal(port as nat));
    assert("/v:"@ + host + ":"@ + decimal(port as nat) == "/v:"@ + (host + ":"@ + decimal(port as nat)));
    lemma_switch_concat("/u:"@, user);
    let a1 = if domain matches Some(d) && d.len() > 0 {
        lemma_switch_concat("/d:"@, domain->0);
        a0.push("/d:"@ + domain->0)
    } else {
        a0
    };
    let s1 = "/size:"@ + decimal(opts.width as nat) + "x"@ + decimal(opts.height as nat);
    lemma_switch_concat("/size:"@, decimal(opts.width as nat) + "x"@ + decimal(opts.height as nat));
    assert(s1 == "/size:"@ + (decimal(opts.width as nat) + "x"@ + decimal(opts.height as nat)));
    lemma_switch_concat("/bpp:"@, decimal(opts.color_depth as nat));
    let a2 = a1.push(s1).push("/bpp:"@ + decimal(opts.color_depth as nat)).push("/cert:tofu"@);
    assert forall|k: int| 0 <= k < a2.len() implies is_switch(#[trigger] a2[k]) by {}
    let a3 = if opts.clipboard {
        a2.push("+clipboard"@)
    } else {
        a2
    };
    let a4 = match password {
        Some(p) => {
            lemma_switch_concat("/p:"@, p);
            a3.push("/p:"@ + p)
        },
        None => a3,
    };
    assert(a4 == xfreerdp_args_spec(host, port, user, domain, opts, password));
    assert(!is_switch("+clipboard"@));
    if opts.clipboard {
        assert(a4[a2.len() as int] == "+clipboard"@);
    } else {
        assert forall|k: int| 0 <= k < a4.len() implies is_switch(#[trigger] a4[k]) by {
            if k < a2.len() {
                assert(a4[k] == a2[k]);
            }
        }
        if a4.contains("+clipboard"@) {
            let k = choose|k: int| 0 <= k < a4.len() && a4[k] == "+clipboard"@;
            assert(is_switch(a4[k]));
        }
    }
}

/// Options are accepted exactly when NLA stays required, the resolution is
/// within 640x480 to 7680x4320 and the color depth is 16, 24 or 32; so no
/// session is ever planned with NLA turned off.
pub proof fn law_options_accepted_only_with_nla(opts: RdpOptions)
    ensures
        (options_error(opts) is None) == (opts.require_nla && 640 <= opts.width <= 7680 && 480 <= opts.height <= 4320
            && (opts.color_depth == 16 || opts.color_depth == 24 || opts.color_depth == 32)),
{
}

} // verus!
