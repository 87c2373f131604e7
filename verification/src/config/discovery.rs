//! Finding and loading the configuration file.

use crate::config::error::ConfigError;
use crate::config::schema::{self, Config};
use crate::config::validate::{self, validate};
use crate::paths;
use crate::text::{self, list_contains, str_eq, Text};
use vstd::prelude::*;

verus! {

broadcast use crate::text::lemma_texts_push;

/// The formats of a configuration file.
#[derive(Debug, Clone, Copy, PartialEq, Eq, Structural)]
pub enum ConfigFormat {
    Toml,
    Json,
}

/// Default configuration file names to search for, in order.
pub open spec fn config_files() -> Seq<Text> {
    seq!["zaz.toml"@, "zaz.json"@]
}

/// The configuration files that a directory may hold, in order.
pub open spec fn files_in(dir: Text) -> Seq<Text> {
    seq![paths::joined(dir, "zaz.toml"@), paths::joined(dir, "zaz.json"@)]
}

/// The configuration files that some directories may hold, one directory after
/// the other.
pub open spec fn files_along(dirs: Seq<Text>) -> Seq<Text>
    decreases dirs.len(),
{
    if dirs.len() == 0 {
        Seq::empty()
    } else {
        files_along(dirs.drop_last()) + files_in(dirs.last())
    }
}

/// The first of some paths that is there.
pub open spec fn first_present(candidates: Seq<Text>, present: Seq<Text>) -> Option<Text>
    decreases candidates.len(),
{
    if candidates.len() == 0 {
        None
    } else if present.contains(candidates[0]) {
        Some(candidates[0])
    } else {
        first_present(candidates.drop_first(), present)
    }
}

/// Default configuration file names to search for, in order.
pub fn config_file_names() -> (r: Vec<String>)
    ensures
        text::texts(r@) == config_files(),
{
    let mut names: Vec<String> = Vec::new();
    names.push("zaz.toml".to_owned());
    names.push("zaz.json".to_owned());
    assert(text::texts(names@) =~= config_files());
    names
}

/// The configuration files that some directories may hold, in the order in which
/// they are looked for.
pub fn config_candidates(dirs: &Vec<String>) -> (r: Vec<String>)
    ensures
        text::texts(r@) == files_along(text::texts(dirs@)),
{
    let ghost all = text::texts(dirs@);
    let mut out: Vec<String> = Vec::new();
    let mut i: usize = 0;
    assert(all.take(0) =~= Seq::empty());
    assert(text::texts(out@) =~= Seq::empty());
    while i < dirs.len()
        invariant
            0 <= i <= dirs.len(),
            all == text::texts(dirs@),
            text::texts(out@) == files_along(all.take(i as int)),
        decreases dirs.len() - i,
    {
        let ghost before = text::texts(out@);
        out.push(paths::join(dirs[i].as_str(), "zaz.toml"));
        out.push(paths::join(dirs[i].as_str(), "zaz.json"));
        proof {
            assert(all.take(i + 1).drop_last() =~= all.take(i as int));
            assert(all.take(i + 1).last() == all[i as int]);
            assert(text::texts(out@) =~= before + files_in(all[i as int]));
        }
        i = i + 1;
    }
    assert(all.take(all.len() as int) =~= all);
    out
}

fn pick_present(candidates: &Vec<String>, present: &Vec<String>) -> (r: Option<String>)
    ensures
        text::opt_text(r) == first_present(text::texts(candidates@), text::texts(present@)),
{
    let ghost all = text::texts(candidates@);
    let ghost there = text::texts(present@);
    let mut i: usize = 0;
    assert(all.skip(0) =~= all);
    while i < candidates.len()
        invariant
            0 <= i <= candidates.len(),
            all == text::texts(candidates@),
            there == text::texts(present@),
            first_present(all, there) == first_present(all.skip(i as int), there),
        decreases candidates.len() - i,
    {
        proof {
            assert(all.skip(i as int)[0] == all[i as int]);
            assert(all.skip(i as int).drop_first() =~= all.skip(i + 1));
        }
        if list_contains(present.as_slice(), candidates[i].as_str()) {
            return Some(candidates[i].clone());
        }
        i = i + 1;
    }
    None
}

/// Looks for a configuration file, given the start directory and those above it,
/// innermost first, and the candidates that are files. The innermost one counts;
/// in one directory, TOML comes before JSON.
pub fn discover_config_upward(dirs: &Vec<String>, present: &Vec<String>) -> (r: Option<String>)
    ensures
        text::opt_text(r) == first_present(
            files_along(text::texts(dirs@)),
            text::texts(present@),
        ),
{
    pick_present(&config_candidates(dirs), present)
}

/// The configuration file of a directory, given the candidates that are there.
pub fn discover_in(dir: &str, present: &Vec<String>) -> (r: Result<String, ConfigError>)
    ensures
        match first_present(files_in(dir@), text::texts(present@)) {
            Some(path) => r matches Ok(p) && p@ == path,
            None => r matches Err(ConfigError::NotFound { searched }) && text::texts(searched@)
                == files_in(dir@),
        },
{
    let mut dirs: Vec<String> = Vec::new();
    dirs.push(dir.to_owned());
    let candidates = config_candidates(&dirs);
    proof {
        let all = text::texts(dirs@);
        assert(all.drop_last() =~= Seq::empty());
        assert(all.last() == dir@);
        assert(files_along(all.drop_last()) =~= Seq::empty());
        assert(files_along(all) =~= files_in(dir@));
    }
    match pick_present(&candidates, present) {
        Some(path) => Ok(path),
        None => Err(ConfigError::NotFound { searched: candidates }),
    }
}

/// The format of a configuration file, by the extension of its path.
pub fn config_format(path: &str, extension: Option<&str>) -> (r: Result<ConfigFormat, ConfigError>)
    ensures
        match extension {
            Some(e) => if e@ == "toml"@ {
                r == Ok::<ConfigFormat, ConfigError>(ConfigFormat::Toml)
            } else if e@ == "json"@ {
                r == Ok::<ConfigFormat, ConfigError>(ConfigFormat::Json)
            } else {
                r matches Err(ConfigError::UnknownFormat { path: p }) && p@ == path@
            },
            None => r matches Err(ConfigError::UnknownFormat { path: p }) && p@ == path@,
        },
{
    if let Some(e) = extension {
        if str_eq(e, "toml") {
            return Ok(ConfigFormat::Toml);
        }
        if str_eq(e, "json") {
            return Ok(ConfigFormat::Json);
        }
    }
    Err(ConfigError::UnknownFormat { path: path.to_owned() })
}

/// A parsed configuration is loaded once it is valid.
pub fn load(parsed: Result<Config, ConfigError>) -> (r: Result<Config, ConfigError>)
    ensures
        match parsed {
            Err(e) => r == Err::<Config, ConfigError>(e),
            Ok(config) => {
                let groups = schema::groups(config.groups@);
                exists|names: Seq<Text>| #[trigger]
                    validate::lists_names(groups, names) && ({
                        let errors = validate::config_errors(groups, names);
                        match r {
                            Ok(c) => errors.len() == 0 && c == config,
                            Err(e) => errors.len() > 0 && (e matches ConfigError::Validation(found)
                                && found@ == errors),
                        }
                    })
            },
        },
{
    match parsed {
        Err(e) => Err(e),
        Ok(config) => match validate(&config) {
            Ok(()) => Ok(config),
            Err(errors) => Err(ConfigError::Validation(errors)),
        },
    }
}

} // verus!
