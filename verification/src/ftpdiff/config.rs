//! CLI/JSON/default merge logic for ftpdiff's own fields (hash, verbose,
//! exclude). Connection fields are handled by `crate::connection`.

use vstd::prelude::*;
use crate::connection::{opt_view, ConnectionError, ConnectionJsonConfig};
use crate::ftpdiff::plan::{plan_sides, planned_sides, side_view, Side};
use crate::ftpdiff::cli::Cli;

verus! {

/// ftpdiff's JSON config: the shared connection fields plus its own.
#[derive(Debug, Clone)]
pub struct JsonConfig {
    pub connection: ConnectionJsonConfig,
    pub hash: Option<bool>,
    pub verbose: Option<bool>,
    pub exclude: Vec<String>,
}

impl Default for JsonConfig {
    fn default() -> (r: JsonConfig)
        ensures
            r.connection.host is None,
            r.connection.port is None,
            r.connection.user is None,
            r.connection.remote_dir is None,
            r.connection.local_dir is None,
            r.connection.ftps is None,
            r.connection.insecure_tls is None,
            r.hash is None,
            r.verbose is None,
            r.exclude@.len() == 0,
    {
        JsonConfig {
            connection: ConnectionJsonConfig::default(),
            hash: None,
            verbose: None,
            exclude: Vec::new(),
        }
    }
}

/// ftpdiff's resolved settings for a comparison.
#[derive(Debug, Clone)]
pub struct EffectiveConfig {
    /// Where the local side comes from: its report, or the local directory.
    pub local: Side,
    /// Where the remote side comes from: its report, or the server.
    pub remote: Side,
    pub hash: bool,
    pub verbose: bool,
    pub exclude: Vec<String>,
    pub csv: Option<String>,
}

/// The characters of each string.
pub open spec fn strings_view(v: Seq<String>) -> Seq<Seq<char>> {
    v.map_values(|s: String| s@)
}

pub(crate) fn clone_strings(v: &Vec<String>, out: &mut Vec<String>)
    ensures
        strings_view(final(out)@) == strings_view(old(out)@) + strings_view(v@),
{
    let ghost start = strings_view(out@);
    let mut i: usize = 0;
    while i < v.len()
        invariant
            i <= v@.len(),
            strings_view(out@) == start + strings_view(v@.take(i as int)),
        decreases v@.len() - i,
    {
        let ghost before = out@;
        let item = v[i].clone();
        out.push(item);
        assert(strings_view(out@) =~= strings_view(before).push(item@));
        assert(strings_view(v@.take(i + 1)) =~= strings_view(v@.take(i as int)).push(v@[i as int]@));
        assert(strings_view(out@) =~= start + strings_view(v@.take(i + 1)));
        i = i + 1;
    }
    assert(v@.take(v@.len() as int) =~= v@);
}

/// Merges the CLI and the JSON config for a comparison: the two sides as
/// `planned_sides` states (a side read from its report needs none of its
/// live settings; otherwise the required ones are checked in the order
/// host, user, remote dir, local dir, and the first missing one is the
/// error); `hash` and `verbose` merge as OR; the exclude patterns are the
/// JSON ones followed by the CLI ones; the CSV path comes from the CLI only.
pub fn merge(cli: &Cli, json: &JsonConfig) -> (r: Result<EffectiveConfig, ConnectionError>)
    ensures
        match planned_sides(*cli, *json) {
            Err(m) => r matches Err(e) && e.0@ == m,
            Ok((l, rv)) => r matches Ok(c) && {
                &&& side_view(c.local) == l
                &&& side_view(c.remote) == rv
                &&& c.hash == (cli.hash || json.hash == Some(true))
                &&& c.verbose == (cli.verbose || json.verbose == Some(true))
                &&& strings_view(c.exclude@) == strings_view(json.exclude@) + strings_view(
                    cli.exclude@,
                )
                &&& opt_view(c.csv) == opt_view(cli.csv)
            },
        },
{
    let (local, remote) = plan_sides(cli, json)?;
    let mut exclude: Vec<String> = Vec::new();
    clone_strings(&json.exclude, &mut exclude);
    clone_strings(&cli.exclude, &mut exclude);
    proof {
        assert(strings_view(Seq::<String>::empty()) =~= Seq::<Seq<char>>::empty());
        assert(Seq::<Seq<char>>::empty() + strings_view(json.exclude@) =~= strings_view(
            json.exclude@,
        ));
    }
    let json_hash = match json.hash {
        Some(b) => b,
        None => false,
    };
    let json_verbose = match json.verbose {
        Some(b) => b,
        None => false,
    };
    let csv = match &cli.csv {
        Some(p) => Some(p.clone()),
        None => None,
    };
    Ok(
        EffectiveConfig {
            local,
            remote,
            hash: cli.hash || json_hash,
            verbose: cli.verbose || json_verbose,
            exclude,
            csv,
        },
    )
}

} // verus!
