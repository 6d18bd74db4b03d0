//! Jest configuration files: which ones a repository has, and the
//! `--config` argument added when none is given.
use crate::fast_related::{contains_string, select};
use crate::path_names::{path_exists, path_join, path_join_of, path_strip_prefix, path_strip_prefix_of, to_slash, to_slash_of};
use crate::text::{owned, starts_with, starts_with_str, views};
use vstd::prelude::*;

verus! {

/// The names a Jest configuration file may have, in the order they are
/// tried.
pub open spec fn candidate_config_names() -> Seq<Seq<char>> {
    seq![
        "jest.config.cjs"@,
        "jest.config.js"@,
        "jest.config.mjs"@,
        "jest.config.ts"@,
        "jest.ts.config.js"@,
        "jest.ts.config.cjs"@,
    ]
}

/// The candidate configuration paths under `repo_root`.
pub open spec fn candidate_config_paths(repo_root: Seq<char>) -> Seq<Seq<char>> {
    candidate_config_names().map_values(|n: Seq<char>| path_join_of(repo_root, n))
}

fn candidate_config_paths_exec(repo_root: &str) -> (res: Vec<String>)
    ensures
        views(res@) == candidate_config_paths(repo_root@),
{
    let names = [
        "jest.config.cjs",
        "jest.config.js",
        "jest.config.mjs",
        "jest.config.ts",
        "jest.ts.config.js",
        "jest.ts.config.cjs",
    ];
    let ghost cands = candidate_config_paths(repo_root@);
    assert(names@.map_values(|n: &str| n@) =~= candidate_config_names());
    let mut out: Vec<String> = Vec::new();
    let mut i: usize = 0;
    while i < 6
        invariant
            i <= 6,
            cands == candidate_config_paths(repo_root@),
            names@.map_values(|n: &str| n@) == candidate_config_names(),
            views(out@) == cands.take(i as int),
        decreases 6 - i,
    {
        assert(cands[i as int] == path_join_of(repo_root@, names@[i as int]@));
        let p = path_join(repo_root, names[i]);
        let ghost before = views(out@);
        let ghost pv = p@;
        out.push(p);
        assert(views(out@) =~= before.push(pv));
        assert(cands.take(i + 1) =~= cands.take(i as int).push(pv));
        i = i + 1;
    }
    assert(cands.take(6) =~= cands);
    out
}

/// The configuration files under `repo_root` whose mark in `exists` is
/// set (`exists[i]` tells whether the `i`th candidate exists), in
/// candidate order.
pub fn existing_jest_configs(repo_root: &str, exists: &Vec<bool>) -> (res: Vec<String>)
    requires
        exists.len() == 6,
    ensures
        views(res@) == select(candidate_config_paths(repo_root@), exists@),
{
    let cands = candidate_config_paths_exec(repo_root);
    crate::fast_related::select_strings(&cands, exists)
}

/// Whether each candidate configuration file exists, read from the disk
/// (what the disk holds is not stated).
fn config_exists_flags(repo_root: &str) -> (res: Vec<bool>)
    ensures
        res.len() == 6,
{
    let cands = candidate_config_paths_exec(repo_root);
    assert(views(cands@).len() == cands@.len());
    assert(candidate_config_names().len() == 6);
    let mut flags: Vec<bool> = Vec::new();
    let mut i: usize = 0;
    while i < cands.len()
        invariant
            i <= cands.len(),
            cands.len() == 6,
            flags.len() == i,
        decreases cands.len() - i,
    {
        flags.push(path_exists(cands[i].as_str()));
        i = i + 1;
    }
    flags
}

/// The configuration files that exist under `repo_root`, in candidate
/// order (see [`existing_jest_configs`]); which exist is read from the
/// disk and is not stated.
pub fn list_all_jest_configs(repo_root: &str) -> (res: Vec<String>)
    ensures
        exists|keep: Seq<bool>|
            keep.len() == 6 && views(res@) == select(candidate_config_paths(repo_root@), keep),
{
    let flags = config_exists_flags(repo_root);
    existing_jest_configs(repo_root, &flags)
}

/// How a configuration file is named on the command line: relative to the
/// repository root when it lies under it, else its full path, with
/// forward slashes.
pub open spec fn config_token_spec(repo_root: Seq<char>, cfg: Seq<char>) -> Seq<char> {
    match path_strip_prefix_of(cfg, repo_root) {
        Some(rel) => if starts_with(rel, ".."@) {
            to_slash_of(cfg)
        } else {
            rel
        },
        None => to_slash_of(cfg),
    }
}

/// How the configuration file `cfg` is named on the command line.
pub fn config_token(repo_root: &str, cfg: &str) -> (res: String)
    ensures
        res@ == config_token_spec(repo_root@, cfg@),
{
    match path_strip_prefix(cfg, repo_root) {
        Some(rel) => {
            if starts_with_str(rel.as_str(), "..") {
                to_slash(cfg)
            } else {
                rel
            }
        },
        None => to_slash(cfg),
    }
}

/// The arguments with `--config <first configuration>` added when they
/// hold no `--config` and a configuration file was found.
pub open spec fn append_config_spec(args: Seq<Seq<char>>, repo_root: Seq<char>, first: Option<Seq<char>>) -> Seq<
    Seq<char>,
> {
    if args.contains("--config"@) {
        args
    } else {
        match first {
            None => args,
            Some(cfg) => args + seq!["--config"@, config_token_spec(repo_root, cfg)],
        }
    }
}

fn copy_args(args: &[String]) -> (res: Vec<String>)
    ensures
        views(res@) == views(args@),
{
    let mut out: Vec<String> = Vec::new();
    let mut i: usize = 0;
    while i < args.len()
        invariant
            i <= args.len(),
            views(out@) == views(args@).take(i as int),
        decreases args.len() - i,
    {
        out.push(owned(args[i].as_str()));
        assert(views(args@).take(i + 1) =~= views(args@).take(i as int).push(args@[i as int]@));
        i = i + 1;
    }
    assert(views(args@).take(args.len() as int) =~= views(args@));
    out
}

/// The arguments with `--config` added for `first_config` when needed
/// (see [`append_config_spec`]).
pub fn append_config_arg_with(args: &[String], repo_root: &str, first_config: Option<&str>) -> (res: Vec<String>)
    ensures
        views(res@) == append_config_spec(views(args@), repo_root@, match first_config {
            Some(c) => Some(c@),
            None => None,
        }),
{
    let mut out = copy_args(args);
    if contains_string(&out, "--config") {
        return out;
    }
    match first_config {
        None => out,
        Some(cfg) => {
            let ghost before = views(out@);
            out.push(owned("--config"));
            out.push(config_token(repo_root, cfg));
            proof {
                reveal_strlit("--config");
            }
            assert(views(out@) =~= before + seq!["--config"@, config_token_spec(repo_root@, cfg@)]);
            out
        },
    }
}

/// The first configuration file found among the candidates marked in
/// `keep`.
pub open spec fn first_found(repo_root: Seq<char>, keep: Seq<bool>) -> Option<Seq<char>> {
    let found = select(candidate_config_paths(repo_root), keep);
    if found.len() > 0 {
        Some(found[0])
    } else {
        None
    }
}

/// The arguments with `--config <first configuration found>` added when
/// they hold no `--config`; `exists[i]` tells whether the `i`th candidate
/// configuration file exists.
pub fn append_config_arg_for(args: &[String], repo_root: &str, exists: &Vec<bool>) -> (res: Vec<String>)
    requires
        exists.len() == 6,
    ensures
        views(res@) == append_config_spec(views(args@), repo_root@, first_found(repo_root@, exists@)),
{
    let configs = existing_jest_configs(repo_root, exists);
    if configs.len() > 0 {
        append_config_arg_with(args, repo_root, Some(configs[0].as_str()))
    } else {
        append_config_arg_with(args, repo_root, None)
    }
}

/// The arguments with `--config <first configuration found>` added when
/// they hold no `--config` (see [`append_config_arg_for`]); which
/// configuration files exist is read from the disk and is not stated.
pub fn append_config_arg_if_missing(args: &[String], repo_root: &str) -> (res: Vec<String>)
    ensures
        exists|keep: Seq<bool>|
            keep.len() == 6 && views(res@) == append_config_spec(
                views(args@),
                repo_root@,
                first_found(repo_root@, keep),
            ),
{
    let flags = config_exists_flags(repo_root);
    append_config_arg_for(args, repo_root, &flags)
}

} // verus!
