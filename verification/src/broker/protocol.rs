//! The protocol between a client and the broker: one request, one response, newline-delimited
//! JSON. Kept tiny on purpose: the broker runs privileged, so each request is a fixed verb over
//! arguments that the broker checks again itself.

use crate::model::opt_view;
use crate::text::views;
use vstd::prelude::*;

verus! {

/// The named pipe that the Windows broker listens on.
pub const PIPE_NAME: &'static str = "\\\\.\\pipe\\ipsec-vpn-broker";

/// The Unix socket that the macOS helper listens on.
pub const MACOS_SOCKET: &'static str = "/var/run/ipsec-vpn/helper.sock";

/// The launchd label of the macOS helper.
pub const MACOS_LABEL: &'static str = "dev.jackolix.ipsecvpn.helper";

/// Where the launchd description of the macOS helper is installed.
pub const MACOS_PLIST: &'static str =
    "/Library/LaunchDaemons/dev.jackolix.ipsecvpn.helper.plist";

/// Where the helper binary is installed: outside the app bundle, where only root can write.
pub const MACOS_HELPER_BIN: &'static str =
    "/Library/PrivilegedHelperTools/dev.jackolix.ipsecvpn.helper";

/// Where the helper's own files are installed.
pub const MACOS_SUPPORT_DIR: &'static str = "/Library/Application Support/dev.jackolix.ipsecvpn";

/// Where the helper looks for charon. Never taken from a request.
pub const MACOS_CHARON_DIR: &'static str =
    "/Library/Application Support/dev.jackolix.ipsecvpn/charon";

/// Run-time state: the two sockets, charon's log and the DNS records.
pub const MACOS_RUN_DIR: &'static str = "/var/run/ipsec-vpn";

/// The helper's own stderr, outside the run directory, which does not survive a reboot.
pub const MACOS_HELPER_LOG: &'static str = "/var/log/ipsec-vpn-helper.log";

/// The name of the Windows service.
pub const SERVICE_NAME: &'static str = "ipsec-vpn-broker";

/// The name of the Windows service that a user sees.
pub const SERVICE_DISPLAY_NAME: &'static str = "IPsec VPN Broker";

/// Why a connect was abandoned at the gateway's push: it wanted the default route, and the client
/// did not allow it. A client matches on it to say which tunnel is in the way.
pub const FULL_TUNNEL_REFUSED: &'static str =
    "this gateway routes all traffic, and another VPN already does — disconnect that one first";

/// What a client may ask for.
#[derive(Debug, Clone)]
pub enum Request {
    /// Liveness check.
    Ping,
    /// Route DNS for `conn` over the tunnel. `servers` are IPv4 texts; `domain` scopes it to a
    /// suffix. Without a domain only the first connection gets all names; a later one is scoped to
    /// the reverse-lookup zones of its `subnets`.
    ApplyDns { conn: String, servers: Vec<String>, domain: Option<String>, subnets: Vec<String> },
    /// Undo what was applied for `conn`.
    RevertDns { conn: String },
    /// Bring up an SSL VPN tunnel called `name`, in place of one of that name.
    SslConnect {
        name: String,
        config: String,
        username: String,
        password: String,
        /// Whether the tunnel may take the default route.
        allow_full: bool,
    },
    /// Tear down the SSL VPN tunnel called `name`; all of them when the name is empty.
    SslDisconnect { name: String },
    /// Report the SSL VPN tunnels that are up.
    SslStatus,
    /// Start the native strongSwan daemon. It carries no path: the helper finds charon itself.
    CharonStart,
    /// Stop the native strongSwan daemon.
    CharonStop,
}

/// The content of a [`Request`].
pub enum RequestView {
    Ping,
    ApplyDns {
        conn: Seq<char>,
        servers: Seq<Seq<char>>,
        domain: Option<Seq<char>>,
        subnets: Seq<Seq<char>>,
    },
    RevertDns { conn: Seq<char> },
    SslConnect {
        name: Seq<char>,
        config: Seq<char>,
        username: Seq<char>,
        password: Seq<char>,
        allow_full: bool,
    },
    SslDisconnect { name: Seq<char> },
    SslStatus,
    CharonStart,
    CharonStop,
}

impl View for Request {
    type V = RequestView;

    open spec fn view(&self) -> RequestView {
        match self {
            Request::Ping => RequestView::Ping,
            Request::ApplyDns { conn, servers, domain, subnets } => RequestView::ApplyDns {
                conn: conn@,
                servers: views(servers@),
                domain: opt_view(*domain),
                subnets: views(subnets@),
            },
            Request::RevertDns { conn } => RequestView::RevertDns { conn: conn@ },
            Request::SslConnect { name, config, username, password, allow_full } =>
                RequestView::SslConnect {
                    name: name@,
                    config: config@,
                    username: username@,
                    password: password@,
                    allow_full: *allow_full,
                },
            Request::SslDisconnect { name } => RequestView::SslDisconnect { name: name@ },
            Request::SslStatus => RequestView::SslStatus,
            Request::CharonStart => RequestView::CharonStart,
            Request::CharonStop => RequestView::CharonStop,
        }
    }
}

/// What `allow_full` means in a request that does not say.
pub fn permitted() -> (r: bool)
    ensures
        r,
{
    true
}

/// The answer to a request.
#[derive(Debug, Clone)]
pub struct Response {
    pub ok: bool,
    /// On success a short summary, which may be empty; on failure the error.
    pub msg: String,
}

/// The content of a [`Response`].
pub struct ResponseView {
    pub ok: bool,
    pub msg: Seq<char>,
}

impl View for Response {
    type V = ResponseView;

    open spec fn view(&self) -> ResponseView {
        ResponseView { ok: self.ok, msg: self.msg@ }
    }
}

/// A success with the given summary.
pub open spec fn success(msg: Seq<char>) -> ResponseView {
    ResponseView { ok: true, msg }
}

/// A failure for the given reason.
pub open spec fn failure(msg: Seq<char>) -> ResponseView {
    ResponseView { ok: false, msg }
}

impl Response {
    /// A success with the given summary.
    pub fn ok(msg: String) -> (r: Self)
        ensures
            r@ == success(msg@),
    {
        Response { ok: true, msg }
    }

    /// A failure for the given reason.
    pub fn err(msg: String) -> (r: Self)
        ensures
            r@ == failure(msg@),
    {
        Response { ok: false, msg }
    }
}

/// Whether the reply to a ping says that the broker is there.
pub fn available(reply: &Result<Response, String>) -> (r: bool)
    ensures
        r == (reply matches Ok(resp) && resp.ok),
{
    match reply {
        Ok(resp) => resp.ok,
        Err(_) => false,
    }
}

/// A response says whether it is a success, and carries its text either way.
pub proof fn law_response_says_whether_it_succeeded(msg: Seq<char>)
    ensures
        success(msg).ok,
        !failure(msg).ok,
        success(msg).msg == msg,
        failure(msg).msg == msg,
{
}

} // verus!
