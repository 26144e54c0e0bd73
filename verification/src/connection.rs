//! Shared connection settings for tools that connect to an FTP/FTPS server:
//! host, port, user, local/remote directory and TLS options, merged from the
//! command line, a JSON config file and defaults.

use vstd::prelude::*;
use crate::text::{owned, push_str};

verus! {

/// Shared connection flags, as given on the command line. Paths are kept as
/// text.
#[derive(Debug, Clone)]
pub struct ConnectionArgs {
    /// Optional JSON config file providing defaults for the other options.
    pub config: Option<String>,
    pub host: Option<String>,
    pub port: Option<u16>,
    pub user: Option<String>,
    pub remote_dir: Option<String>,
    pub local_dir: Option<String>,
    /// Use explicit FTPS (AUTH TLS) instead of plain FTP.
    pub ftps: bool,
    /// Accept any TLS certificate when using FTPS, instead of validating it.
    pub insecure_tls: bool,
    /// FTP password given on the command line.
    pub password: Option<String>,
}

/// Shared JSON config fields.
#[derive(Debug, Clone)]
pub struct ConnectionJsonConfig {
    pub host: Option<String>,
    pub port: Option<u16>,
    pub user: Option<String>,
    pub remote_dir: Option<String>,
    pub local_dir: Option<String>,
    pub ftps: Option<bool>,
    pub insecure_tls: Option<bool>,
}

impl Default for ConnectionJsonConfig {
    fn default() -> (r: ConnectionJsonConfig)
        ensures
            r.host is None,
            r.port is None,
            r.user is None,
            r.remote_dir is None,
            r.local_dir is None,
            r.ftps is None,
            r.insecure_tls is None,
    {
        ConnectionJsonConfig {
            host: None,
            port: None,
            user: None,
            remote_dir: None,
            local_dir: None,
            ftps: None,
            insecure_tls: None,
        }
    }
}

/// Resolved connection settings after merging CLI args, JSON config, and
/// defaults.
#[derive(Debug, Clone)]
pub struct EffectiveConnection {
    pub host: String,
    pub port: u16,
    pub user: String,
    pub remote_dir: String,
    pub local_dir: String,
    pub ftps: bool,
    pub insecure_tls: bool,
}

/// Error from config loading, merging, or password resolution.
#[derive(Debug)]
pub struct ConnectionError(pub String);

/// The characters of an optional string.
pub open spec fn opt_view(o: Option<String>) -> Option<Seq<char>> {
    match o {
        Some(s) => Some(s@),
        None => None,
    }
}

/// The command-line value if given, else the JSON value.
pub open spec fn first_given(cli: Option<String>, json: Option<String>) -> Option<Seq<char>> {
    match cli {
        Some(s) => Some(s@),
        None => opt_view(json),
    }
}

/// The message for a required setting that neither source gives.
pub open spec fn missing_setting_message(setting: Seq<char>, flag: Seq<char>) -> Seq<char> {
    "missing required setting: "@ + setting + " (use "@ + flag + " or config file)"@
}

/// The merge result, as plain values: host, port, user, remote dir,
/// local dir, FTPS, insecure TLS; or the error message.
pub type MergedView = (Seq<char>, u16, Seq<char>, Seq<char>, Seq<char>, bool, bool);

/// Precedence is CLI > JSON > default; the required settings are checked in
/// the order host, user, remote dir, local dir; the port defaults to 21;
/// the booleans merge as OR.
pub open spec fn merged(args: ConnectionArgs, json: ConnectionJsonConfig) -> Result<
    MergedView,
    Seq<char>,
> {
    let host = first_given(args.host, json.host);
    let user = first_given(args.user, json.user);
    let remote_dir = first_given(args.remote_dir, json.remote_dir);
    let local_dir = first_given(args.local_dir, json.local_dir);
    if host is None {
        Err(missing_setting_message("host"@, "--host"@))
    } else if user is None {
        Err(missing_setting_message("user"@, "--user"@))
    } else if remote_dir is None {
        Err(missing_setting_message("remote-dir"@, "--remote-dir"@))
    } else if local_dir is None {
        Err(missing_setting_message("local-dir"@, "--local-dir"@))
    } else {
        Ok(
            (
                host->0,
                match args.port {
                    Some(p) => p,
                    None => match json.port {
                        Some(p) => p,
                        None => 21u16,
                    },
                },
                user->0,
                remote_dir->0,
                local_dir->0,
                args.ftps || json.ftps == Some(true),
                args.insecure_tls || json.insecure_tls == Some(true),
            ),
        )
    }
}

/// The plain values of an effective connection.
pub open spec fn effective_view(e: EffectiveConnection) -> MergedView {
    (e.host@, e.port, e.user@, e.remote_dir@, e.local_dir@, e.ftps, e.insecure_tls)
}

fn missing_setting(setting: &str, flag: &str) -> (e: ConnectionError)
    ensures
        e.0@ == missing_setting_message(setting@, flag@),
{
    let mut m = owned("missing required setting: ");
    push_str(&mut m, setting);
    push_str(&mut m, " (use ");
    push_str(&mut m, flag);
    push_str(&mut m, " or config file)");
    ConnectionError(m)
}

fn pick(cli: &Option<String>, json: &Option<String>) -> (r: Option<String>)
    ensures
        opt_view(r) == first_given(*cli, *json),
{
    match cli {
        Some(s) => Some(s.clone()),
        None => match json {
            Some(s) => Some(s.clone()),
            None => None,
        },
    }
}

/// Merges CLI args, JSON config, and defaults into `EffectiveConnection`.
/// Precedence: CLI > JSON > default. Boolean flags merge as OR (CLI can
/// enable, never disable, a JSON-set true).
pub fn merge_connection(args: &ConnectionArgs, json: &ConnectionJsonConfig) -> (r: Result<
    EffectiveConnection,
    ConnectionError,
>)
    ensures
        match merged(*args, *json) {
            Ok(v) => r matches Ok(e) && effective_view(e) == v,
            Err(m) => r matches Err(e) && e.0@ == m,
        },
{
    let host = match pick(&args.host, &json.host) {
        Some(h) => h,
        None => {
            return Err(missing_setting("host", "--host"));
        },
    };
    let user = match pick(&args.user, &json.user) {
        Some(u) => u,
        None => {
            return Err(missing_setting("user", "--user"));
        },
    };
    let remote_dir = match pick(&args.remote_dir, &json.remote_dir) {
        Some(d) => d,
        None => {
            return Err(missing_setting("remote-dir", "--remote-dir"));
        },
    };
    let local_dir = match pick(&args.local_dir, &json.local_dir) {
        Some(d) => d,
        None => {
            return Err(missing_setting("local-dir", "--local-dir"));
        },
    };
    let port = match args.port {
        Some(p) => p,
        None => match json.port {
            Some(p) => p,
            None => 21,
        },
    };
    let json_ftps = match json.ftps {
        Some(b) => b,
        None => false,
    };
    let json_insecure = match json.insecure_tls {
        Some(b) => b,
        None => false,
    };
    Ok(
        EffectiveConnection {
            host,
            port,
            user,
            remote_dir,
            local_dir,
            ftps: args.ftps || json_ftps,
            insecure_tls: args.insecure_tls || json_insecure,
        },
    )
}

/// The password given on the command line if any, else the value of the
/// tool's password environment variable, as the caller read it.
pub fn password_from_cli_or_env(cli_password: Option<&str>, env_value: Option<String>) -> (r: Option<
    String,
>)
    ensures
        opt_view(r) == match cli_password {
            Some(p) => Some(p@),
            None => opt_view(env_value),
        },
{
    match cli_password {
        Some(p) => Some(owned(p)),
        None => env_value,
    }
}

} // verus!
