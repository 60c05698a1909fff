//! How a node's settings come together: the environment goes before the file,
//! and the file before the defaults.

use crate::error::{CoreResult, ErrorView};
use crate::paths;
use crate::paths::{join_path, path_from};
use crate::realm;
use crate::realm::{RealmId, RealmView};
use crate::store;
use crate::text::chars_of;
use std::path::PathBuf;
use vstd::prelude::*;

verus! {

/// The settings of a configuration file.
#[derive(Debug)]
pub struct FileConfig {
    pub bind: Option<String>,
    pub data_dir: Option<PathBuf>,
    pub realm: Option<String>,
    pub event_retention: Option<usize>,
    pub snapshot_retention: Option<usize>,
}

/// The settings of the environment.
#[derive(Debug)]
pub struct EnvConfig {
    pub bind: Option<String>,
    pub data_dir: Option<PathBuf>,
    pub realm: Option<String>,
    pub event_retention: Option<String>,
    pub snapshot_retention: Option<String>,
}

/// The settings of a node.
#[derive(Debug)]
pub struct NodeConfig {
    pub bind: String,
    pub database_path: PathBuf,
    pub realm: RealmId,
    pub event_retention: usize,
    pub snapshot_retention: usize,
}

impl Clone for NodeConfig {
    fn clone(&self) -> (copy: NodeConfig)
        ensures
            copy.bind@ == self.bind@,
            copy.database_path == self.database_path,
            copy.realm@ == self.realm@,
            copy.event_retention == self.event_retention,
            copy.snapshot_retention == self.snapshot_retention,
    {
        NodeConfig {
            bind: self.bind.clone(),
            database_path: self.database_path.clone(),
            realm: self.realm.clone(),
            event_retention: self.event_retention,
            snapshot_retention: self.snapshot_retention,
        }
    }
}

/// The first of two texts that is there, or else the third.
pub open spec fn chosen_text(
    first: Option<String>,
    second: Option<String>,
    default: Seq<char>,
) -> Seq<char> {
    match (first, second) {
        (Some(text), _) => text@,
        (None, Some(text)) => text@,
        (None, None) => default,
    }
}

/// The number that decimal digits write.
pub open spec fn number(digits: Seq<char>) -> nat
    decreases digits.len(),
{
    if digits.len() == 0 {
        0
    } else {
        10 * number(digits.drop_last()) + (digits.last() as u32 - '0' as u32) as nat
    }
}

/// One decimal digit or more.
pub open spec fn are_digits(text: Seq<char>) -> bool {
    &&& text.len() > 0
    &&& forall|i: int| 0 <= i < text.len() ==> '0' <= #[trigger] text[i] <= '9'
}

/// The count that a text writes: decimal digits, after a plus sign or none, of a
/// number that fits.
pub open spec fn parse_count(text: Seq<char>) -> Option<usize> {
    let digits = if text.len() > 0 && text[0] == '+' { text.skip(1) } else { text };
    if are_digits(digits) && number(digits) <= usize::MAX {
        Some(number(digits) as usize)
    } else {
        None
    }
}

/// How much history is kept: what the environment says if it says a count, or
/// else the file, or else the default, and at least one.
pub open spec fn chosen_count(
    from_env: Option<String>,
    from_file: Option<usize>,
    default: usize,
) -> usize {
    let parsed = match from_env {
        Some(text) => parse_count(text@),
        None => None,
    };
    store::at_least_one(
        match (parsed, from_file) {
            (Some(count), _) => count,
            (None, Some(count)) => count,
            (None, None) => default,
        },
    )
}

/// The first of two directories that is there, or else `./var/scg`.
pub open spec fn chosen_directory(first: Option<PathBuf>, second: Option<PathBuf>) -> PathBuf {
    match (first, second) {
        (Some(directory), _) => directory,
        (None, Some(directory)) => directory,
        (None, None) => paths::path_of("./var/scg"@),
    }
}

/// The name of a realm's database file.
pub open spec fn database_file(realm_id: RealmView) -> Seq<char> {
    realm::storage_key(realm_id).map_values(|c: char| if c == ':' { '-' } else { c }) + ".db"@
}

/// The count that a text writes, if it writes one.
pub fn read_count(text: &str) -> (count: Option<usize>)
    ensures
        count == parse_count(text@),
{
    let chars = chars_of(text);
    let start: usize = if chars.len() > 0 && chars[0] == '+' {
        1
    } else {
        0
    };
    let ghost digits = text@.skip(start as int);
    assert(text@.skip(0) =~= text@);
    if chars.len() == start {
        return None;
    }
    let mut value: usize = 0;
    let mut fits: bool = true;
    let mut i: usize = start;
    assert(digits.take(0) =~= Seq::<char>::empty());
    while i < chars.len()
        invariant
            start <= i <= chars.len(),
            chars@ == text@,
            digits == text@.skip(start as int),
            parse_count(text@) == if are_digits(digits) && number(digits) <= usize::MAX {
                Some(number(digits) as usize)
            } else {
                None
            },
            forall|k: int| 0 <= k < i - start ==> '0' <= #[trigger] digits[k] <= '9',
            fits ==> value == number(digits.take(i - start)),
            !fits ==> number(digits.take(i - start)) > usize::MAX,
        decreases chars.len() - i,
    {
        let c: char = chars[i];
        let ghost n = i - start;
        assert(digits[n] == c);
        if !('0' <= c && c <= '9') {
            return None;
        }
        let d: usize = (c as u32 - '0' as u32) as usize;
        assert(digits.take(n + 1).drop_last() =~= digits.take(n));
        assert(digits.take(n + 1).last() == c);
        if fits && value <= usize::MAX / 10 && d <= usize::MAX - value * 10 {
            value = value * 10 + d;
        } else {
            fits = false;
        }
        i += 1;
    }
    assert(digits.take(digits.len() as int) =~= digits);
    if fits {
        Some(value)
    } else {
        None
    }
}

fn choose_text(first: &Option<String>, second: &Option<String>, default: &str) -> (text: String)
    ensures
        text@ == chosen_text(*first, *second, default@),
{
    match first {
        Some(text) => text.clone(),
        None => match second {
            Some(text) => text.clone(),
            None => default.to_owned(),
        },
    }
}

fn choose_count(from_env: &Option<String>, from_file: Option<usize>, default: usize) -> (count: usize)
    ensures
        count == chosen_count(*from_env, from_file, default),
{
    let parsed = match from_env {
        Some(text) => read_count(text.as_str()),
        None => None,
    };
    let count: usize = match parsed {
        Some(count) => count,
        None => match from_file {
            Some(count) => count,
            None => default,
        },
    };
    if count >= 1 {
        count
    } else {
        1
    }
}

/// The name of a realm's database file.
pub fn database_name(realm_id: &RealmId) -> (name: String)
    ensures
        name@ == database_file(realm_id@),
{
    let key = realm_id.storage_key();
    let chars = chars_of(key.as_str());
    let ghost mapped = key@.map_values(|c: char| if c == ':' { '-' } else { c });
    let mut name = String::new();
    for i in 0..chars.len()
        invariant
            chars@ == key@,
            mapped == key@.map_values(|c: char| if c == ':' { '-' } else { c }),
            name@ == mapped.take(i as int),
    {
        let c: char = chars[i];
        name.push(if c == ':' { '-' } else { c });
        assert(name@ =~= mapped.take(i + 1));
    }
    assert(mapped.take(chars@.len() as int) =~= mapped);
    name.append(".db");
    name
}

/// The address to bind to.
pub fn bind_address(env: &EnvConfig, file: &FileConfig) -> (bind: String)
    ensures
        bind@ == chosen_text(env.bind, file.bind, "127.0.0.1:8080"@),
{
    choose_text(&env.bind, &file.bind, "127.0.0.1:8080")
}

impl NodeConfig {
    /// The settings of a node.
    pub fn load(env: EnvConfig, file: FileConfig) -> (config: CoreResult<NodeConfig>)
        ensures
            match config {
                Ok(config) => {
                    &&& realm::parse_realm(chosen_text(env.realm, file.realm, "live"@)) == Ok::<
                        _,
                        ErrorView,
                    >(config.realm@)
                    &&& config.bind@ == chosen_text(env.bind, file.bind, "127.0.0.1:8080"@)
                    &&& config.database_path == paths::joined(
                        chosen_directory(env.data_dir, file.data_dir),
                        database_file(config.realm@),
                    )
                    &&& config.event_retention == chosen_count(
                        env.event_retention,
                        file.event_retention,
                        1000,
                    )
                    &&& config.snapshot_retention == chosen_count(
                        env.snapshot_retention,
                        file.snapshot_retention,
                        20,
                    )
                },
                Err(error) => realm::parse_realm(chosen_text(env.realm, file.realm, "live"@))
                    == Err::<RealmView, _>(error@),
            },
    {
        let bind = bind_address(&env, &file);
        let name = choose_text(&env.realm, &file.realm, "live");
        let realm_id = match RealmId::from_str(name.as_str()) {
            Ok(realm_id) => realm_id,
            Err(error) => {
                return Err(error);
            },
        };
        let event_retention = choose_count(&env.event_retention, file.event_retention, 1000);
        let snapshot_retention = choose_count(&env.snapshot_retention, file.snapshot_retention, 20);
        let directory = match env.data_dir {
            Some(directory) => directory,
            None => match file.data_dir {
                Some(directory) => directory,
                None => path_from("./var/scg"),
            },
        };
        let database_path = join_path(&directory, database_name(&realm_id).as_str());
        Ok(NodeConfig { bind, database_path, realm: realm_id, event_retention, snapshot_retention })
    }
}

} // verus!
