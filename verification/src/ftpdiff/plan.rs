//! Which sides an ftpdiff run reads, and from where: a live directory or
//! server, or a report written by an earlier `--csv` run; or, with
//! `--build`, the one side that is scanned into a snapshot.

use vstd::prelude::*;
use crate::connection::{
    first_given, missing_setting_message, opt_view, ConnectionArgs, ConnectionError,
    ConnectionJsonConfig,
};
use crate::ftpdiff::cli::Cli;
use crate::ftpdiff::config::{clone_strings, strings_view, JsonConfig};
use crate::text::owned;

verus! {

/// What is needed to reach the server and the directory compared there.
#[derive(Debug, Clone)]
pub struct ServerSettings {
    pub host: String,
    pub port: u16,
    pub user: String,
    pub remote_dir: String,
    pub ftps: bool,
    pub insecure_tls: bool,
}

/// Where one side of a run comes from.
#[derive(Debug, Clone)]
pub enum Side {
    /// A report written by an earlier `ftpdiff --csv` run.
    Report(String),
    /// A local directory, scanned.
    Directory(String),
    /// A directory on the server, walked over a connection.
    Server(ServerSettings),
}

/// What a run does.
#[derive(Debug, Clone)]
pub enum RunMode {
    /// Compares the local side with the remote side.
    Compare { local: Side, remote: Side },
    /// Scans one side and writes it to the CSV report (`--build`).
    Build { side: Side },
}

/// A resolved run: its mode and ftpdiff's own settings.
#[derive(Debug, Clone)]
pub struct RunPlan {
    pub mode: RunMode,
    pub hash: bool,
    pub verbose: bool,
    pub exclude: Vec<String>,
    pub csv: Option<String>,
}

/// The plain values of server settings: host, port, user, remote dir,
/// FTPS, insecure TLS.
pub type ServerView = (Seq<char>, u16, Seq<char>, Seq<char>, bool, bool);

/// The plain values of a side.
pub enum SideView {
    Report(Seq<char>),
    Directory(Seq<char>),
    Server(ServerView),
}

/// The plain values of a mode.
pub enum ModeView {
    Compare(SideView, SideView),
    Build(SideView),
}

/// The plain values of server settings.
pub open spec fn server_view(s: ServerSettings) -> ServerView {
    (s.host@, s.port, s.user@, s.remote_dir@, s.ftps, s.insecure_tls)
}

/// The plain values of a side.
pub open spec fn side_view(s: Side) -> SideView {
    match s {
        Side::Report(p) => SideView::Report(p@),
        Side::Directory(d) => SideView::Directory(d@),
        Side::Server(x) => SideView::Server(server_view(x)),
    }
}

/// The plain values of a mode.
pub open spec fn mode_view(m: RunMode) -> ModeView {
    match m {
        RunMode::Compare { local, remote } => ModeView::Compare(side_view(local), side_view(remote)),
        RunMode::Build { side } => ModeView::Build(side_view(side)),
    }
}

/// The server settings merged from the command line and the JSON config
/// (CLI > JSON > default, port 21 by default, booleans as OR), or the
/// message for the first of host, user and remote dir that neither gives.
pub open spec fn planned_server(c: ConnectionArgs, j: ConnectionJsonConfig) -> Result<
    ServerView,
    Seq<char>,
> {
    let host = first_given(c.host, j.host);
    let user = first_given(c.user, j.user);
    let remote_dir = first_given(c.remote_dir, j.remote_dir);
    if host is None {
        Err(missing_setting_message("host"@, "--host"@))
    } else if user is None {
        Err(missing_setting_message("user"@, "--user"@))
    } else if remote_dir is None {
        Err(missing_setting_message("remote-dir"@, "--remote-dir"@))
    } else {
        Ok(
            (
                host->0,
                match c.port {
                    Some(p) => p,
                    None => match j.port {
                        Some(p) => p,
                        None => 21u16,
                    },
                },
                user->0,
                remote_dir->0,
                c.ftps || j.ftps == Some(true),
                c.insecure_tls || j.insecure_tls == Some(true),
            ),
        )
    }
}

/// Whether any of the server settings that name the remote side (host,
/// user, remote dir) is given.
pub open spec fn remote_side_given(c: ConnectionArgs, j: ConnectionJsonConfig) -> bool {
    ||| first_given(c.host, j.host) is Some
    ||| first_given(c.user, j.user) is Some
    ||| first_given(c.remote_dir, j.remote_dir) is Some
}

/// The message for `--build` together with a report source.
pub open spec fn build_with_report_message() -> Seq<char> {
    "--build cannot be combined with --local-csv/--remote-csv"@
}

/// The message for `--build` without `--csv`.
pub open spec fn build_without_csv_message() -> Seq<char> {
    "--build requires --csv"@
}

/// The message for `--build` with settings for both sides.
pub open spec fn build_both_sides_message() -> Seq<char> {
    "--build scans exactly one side: give --local-dir or --host/--user/--remote-dir, not both"@
}

/// The message for `--build` with settings for neither side.
pub open spec fn build_no_side_message() -> Seq<char> {
    "--build scans exactly one side: give --local-dir or --host/--user/--remote-dir"@
}

/// The mode of a run, or the message of the first problem.
///
/// Without `--build`, each side is read from its report when `--local-csv`
/// / `--remote-csv` is given (the live settings of that side are then
/// unused, not required); otherwise the remote side needs host, user and
/// remote dir and the local side needs the local dir, checked in that
/// order.
///
/// With `--build`, no report source may be given, `--csv` is required,
/// and exactly one side's live settings must be given: the local dir, or
/// the server settings (all of host, user and remote dir).
pub open spec fn planned_mode(cli: Cli, json: JsonConfig) -> Result<ModeView, Seq<char>> {
    let c = cli.connection;
    let j = json.connection;
    let local_dir = first_given(c.local_dir, j.local_dir);
    if cli.build {
        if cli.local_csv is Some || cli.remote_csv is Some {
            Err(build_with_report_message())
        } else if cli.csv is None {
            Err(build_without_csv_message())
        } else if local_dir is Some && remote_side_given(c, j) {
            Err(build_both_sides_message())
        } else if local_dir is Some {
            Ok(ModeView::Build(SideView::Directory(local_dir->0)))
        } else if remote_side_given(c, j) {
            match planned_server(c, j) {
                Ok(s) => Ok(ModeView::Build(SideView::Server(s))),
                Err(m) => Err(m),
            }
        } else {
            Err(build_no_side_message())
        }
    } else {
        match planned_sides(cli, json) {
            Ok((l, r)) => Ok(ModeView::Compare(l, r)),
            Err(m) => Err(m),
        }
    }
}

/// The two sides of a comparison, or the message of the first problem:
/// each side is read from its report when `--local-csv` / `--remote-csv` is
/// given (the live settings of that side are then unused, not required);
/// otherwise the remote side needs host, user and remote dir and the local
/// side needs the local dir, checked in that order.
pub open spec fn planned_sides(cli: Cli, json: JsonConfig) -> Result<(SideView, SideView), Seq<char>> {
    let c = cli.connection;
    let j = json.connection;
    let remote = match cli.remote_csv {
        Some(p) => Ok(SideView::Report(p@)),
        None => match planned_server(c, j) {
            Ok(s) => Ok(SideView::Server(s)),
            Err(m) => Err(m),
        },
    };
    let local = match cli.local_csv {
        Some(p) => Ok(SideView::Report(p@)),
        None => match first_given(c.local_dir, j.local_dir) {
            Some(d) => Ok(SideView::Directory(d)),
            None => Err(missing_setting_message("local-dir"@, "--local-dir"@)),
        },
    };
    match remote {
        Err(m) => Err(m),
        Ok(r) => match local {
            Err(m) => Err(m),
            Ok(l) => Ok((l, r)),
        },
    }
}

fn pick(cli: &Option<String>, json: &Option<String>) -> (r: Option<String>)
    ensures
        opt_view(r) == first_given(*cli, *json),
{
    match cli {
        Some(s) => Some(s.clone()),
        None => match json {
            Some(s) => Some(s.clone()),
            None => None,
        },
    }
}

fn missing(setting: &str, flag: &str) -> (e: ConnectionError)
    ensures
        e.0@ == missing_setting_message(setting@, flag@),
{
    let mut m = owned("missing required setting: ");
    crate::text::push_str(&mut m, setting);
    crate::text::push_str(&mut m, " (use ");
    crate::text::push_str(&mut m, flag);
    crate::text::push_str(&mut m, " or config file)");
    ConnectionError(m)
}

/// The server settings of a run, as `planned_server` states.
pub fn server_settings(c: &ConnectionArgs, j: &ConnectionJsonConfig) -> (r: Result<
    ServerSettings,
    ConnectionError,
>)
    ensures
        match planned_server(*c, *j) {
            Ok(v) => r matches Ok(s) && server_view(s) == v,
            Err(m) => r matches Err(e) && e.0@ == m,
        },
{
    let host = match pick(&c.host, &j.host) {
        Some(h) => h,
        None => {
            return Err(missing("host", "--host"));
        },
    };
    let user = match pick(&c.user, &j.user) {
        Some(u) => u,
        None => {
            return Err(missing("user", "--user"));
        },
    };
    let remote_dir = match pick(&c.remote_dir, &j.remote_dir) {
        Some(d) => d,
        None => {
            return Err(missing("remote-dir", "--remote-dir"));
        },
    };
    let port = match c.port {
        Some(p) => p,
        None => match j.port {
            Some(p) => p,
            None => 21,
        },
    };
    let json_ftps = match j.ftps {
        Some(b) => b,
        None => false,
    };
    let json_insecure = match j.insecure_tls {
        Some(b) => b,
        None => false,
    };
    Ok(
        ServerSettings {
            host,
            port,
            user,
            remote_dir,
            ftps: c.ftps || json_ftps,
            insecure_tls: c.insecure_tls || json_insecure,
        },
    )
}

fn plan_mode(cli: &Cli, json: &JsonConfig) -> (r: Result<RunMode, ConnectionError>)
    ensures
        match planned_mode(*cli, *json) {
            Ok(v) => r matches Ok(m) && mode_view(m) == v,
            Err(msg) => r matches Err(e) && e.0@ == msg,
        },
{
    let c = &cli.connection;
    let j = &json.connection;
    let local_dir = pick(&c.local_dir, &j.local_dir);
    let remote_given = c.host.is_some() || j.host.is_some() || c.user.is_some() || j.user.is_some()
        || c.remote_dir.is_some() || j.remote_dir.is_some();
    if cli.build {
        if cli.local_csv.is_some() || cli.remote_csv.is_some() {
            return Err(
                ConnectionError(owned("--build cannot be combined with --local-csv/--remote-csv")),
            );
        }
        if cli.csv.is_none() {
            return Err(ConnectionError(owned("--build requires --csv")));
        }
        match local_dir {
            Some(d) => {
                if remote_given {
                    Err(
                        ConnectionError(
                            owned(
                                "--build scans exactly one side: give --local-dir or --host/--user/--remote-dir, not both",
                            ),
                        ),
                    )
                } else {
                    Ok(RunMode::Build { side: Side::Directory(d) })
                }
            },
            None => {
                if remote_given {
                    let s = server_settings(c, j)?;
                    Ok(RunMode::Build { side: Side::Server(s) })
                } else {
                    Err(
                        ConnectionError(
                            owned(
                                "--build scans exactly one side: give --local-dir or --host/--user/--remote-dir",
                            ),
                        ),
                    )
                }
            },
        }
    } else {
        let (local, remote) = plan_sides(cli, json)?;
        Ok(RunMode::Compare { local, remote })
    }
}

/// The two sides of a comparison, as `planned_sides` states.
pub(crate) fn plan_sides(cli: &Cli, json: &JsonConfig) -> (r: Result<(Side, Side), ConnectionError>)
    ensures
        match planned_sides(*cli, *json) {
            Ok((l, rv)) => r matches Ok(sides) && side_view(sides.0) == l && side_view(sides.1) == rv,
            Err(m) => r matches Err(e) && e.0@ == m,
        },
{
    let c = &cli.connection;
    let j = &json.connection;
    let remote = match &cli.remote_csv {
        Some(p) => Side::Report(p.clone()),
        None => Side::Server(server_settings(c, j)?),
    };
    let local = match &cli.local_csv {
        Some(p) => Side::Report(p.clone()),
        None => match pick(&c.local_dir, &j.local_dir) {
            Some(d) => Side::Directory(d),
            None => {
                return Err(missing("local-dir", "--local-dir"));
            },
        },
    };
    Ok((local, remote))
}

/// Resolves a run from the command line and the JSON config: its mode as
/// `planned_mode` states (its error is passed on); `hash` and `verbose`
/// merge as OR; the exclude patterns are the JSON ones followed by the CLI
/// ones; the CSV path comes from the command line only.
pub fn plan_run(cli: &Cli, json: &JsonConfig) -> (r: Result<RunPlan, ConnectionError>)
    ensures
        match planned_mode(*cli, *json) {
            Err(m) => r matches Err(e) && e.0@ == m,
            Ok(v) => r matches Ok(p) && {
                &&& mode_view(p.mode) == v
                &&& p.hash == (cli.hash || json.hash == Some(true))
                &&& p.verbose == (cli.verbose || json.verbose == Some(true))
                &&& strings_view(p.exclude@) == strings_view(json.exclude@) + strings_view(
                    cli.exclude@,
                )
                &&& opt_view(p.csv) == opt_view(cli.csv)
            },
        },
{
    let mode = plan_mode(cli, json)?;
    let mut exclude: Vec<String> = Vec::new();
    clone_strings(&json.exclude, &mut exclude);
    clone_strings(&cli.exclude, &mut exclude);
    proof {
        assert(strings_view(Seq::<String>::empty()) =~= Seq::<Seq<char>>::empty());
        assert(Seq::<Seq<char>>::empty() + strings_view(json.exclude@) =~= strings_view(
            json.exclude@,
        ));
    }
    let json_hash = match json.hash {
        Some(b) => b,
        None => false,
    };
    let json_verbose = match json.verbose {
        Some(b) => b,
        None => false,
    };
    let csv = match &cli.csv {
        Some(p) => Some(p.clone()),
        None => None,
    };
    Ok(
        RunPlan {
            mode,
            hash: cli.hash || json_hash,
            verbose: cli.verbose || json_verbose,
            exclude,
            csv,
        },
    )
}

} // verus!
