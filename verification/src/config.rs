//! Treasury configuration: the `Treasury.toml` contents, the server's
//! environment-derived settings, and where a treasury's directories live.

use vstd::prelude::*;

verus! {

/// The contents of `Treasury.toml`: optional directory overrides, all
/// relative to the base, and the importer libraries to load at open time.
pub struct TreasuryInfo {
    /// Artifacts directory; `None` means `treasury/artifacts`.
    pub artifacts: Option<String>,
    /// External meta directory; `None` means `treasury/external`.
    pub external: Option<String>,
    /// Temp directory; `None` means the system's.
    pub temp: Option<String>,
    /// Paths of importer libraries to load.
    pub importers: Vec<String>,
}

impl TreasuryInfo {
    /// Builds a configuration from its parts.
    pub fn new(
        artifacts: Option<String>,
        external: Option<String>,
        temp: Option<String>,
        importers: Vec<String>,
    ) -> (r: TreasuryInfo)
        ensures
            r.artifacts == artifacts,
            r.external == external,
            r.temp == temp,
            r.importers == importers,
    {
        TreasuryInfo { artifacts, external, temp, importers }
    }
}

impl Default for TreasuryInfo {
    /// The default configuration: every directory at its default and no
    /// importers.
    fn default() -> (r: TreasuryInfo)
        ensures
            r.artifacts is None,
            r.external is None,
            r.temp is None,
            r.importers@.len() == 0,
    {
        TreasuryInfo { artifacts: None, external: None, temp: None, importers: Vec::new() }
    }
}

/// The server's settings.
pub struct Config {
    /// Seconds to wait after the last connection closes before exiting;
    /// negative means wait forever.
    pub pending_timeout: i32,
}

/// The pending timeout used when none is configured: wait forever.
pub fn default_pending_timeout() -> (r: i32)
    ensures
        r == -1,
{
    -1
}

/// The directories of a treasury: where artifacts, external metas and
/// temporaries live.
pub struct TreasuryPaths {
    /// Artifacts directory.
    pub artifacts: String,
    /// External meta directory.
    pub external: String,
    /// Temp directory, when the configuration names one; `None` means the
    /// system's.
    pub temp: Option<String>,
}

/// Resolves the treasury's directories against its base directory: each
/// configured path, or its default, appended to the base after a
/// separator.
pub fn resolve_treasury_paths(base: &String, info: &TreasuryInfo) -> (r: TreasuryPaths)
    ensures
        r.artifacts@ == base@ + seq!['/'] + (match info.artifacts {
            Some(p) => p@,
            None => "treasury/artifacts"@,
        }),
        r.external@ == base@ + seq!['/'] + (match info.external {
            Some(p) => p@,
            None => "treasury/external"@,
        }),
        match (&r.temp, &info.temp) {
            (Some(t), Some(p)) => t@ == base@ + seq!['/'] + p@,
            (None, None) => true,
            _ => false,
        },
{
    proof {
        reveal_strlit("/");
    }
    let artifacts = match &info.artifacts {
        Some(p) => join_under(base, p.as_str()),
        None => join_under(base, "treasury/artifacts"),
    };
    let external = match &info.external {
        Some(p) => join_under(base, p.as_str()),
        None => join_under(base, "treasury/external"),
    };
    let temp = match &info.temp {
        Some(p) => Some(join_under(base, p.as_str())),
        None => None,
    };
    TreasuryPaths { artifacts, external, temp }
}

/// A path under a directory: the directory, a separator, the name.
pub fn join_under(dir: &String, name: &str) -> (r: String)
    ensures
        r@ == dir@ + seq!['/'] + name@,
{
    proof {
        reveal_strlit("/");
    }
    let mut s = dir.clone();
    s.append("/");
    s.append(name);
    proof {
        assert(s@ =~= dir@ + seq!['/'] + name@);
    }
    s
}

/// Finds the treasury of a directory: the nearest ancestor (the directory
/// itself first) that holds a `Treasury.toml`, and that file's path.
/// `ancestors` lists each ancestor directory innermost first, with whether
/// it holds the configuration file.
pub fn find_treasury_info(ancestors: &Vec<(String, bool)>) -> (r: Option<String>)
    ensures
        match r {
            Some(path) => exists|i: int|
                {
                    &&& 0 <= i < ancestors@.len()
                    &&& (#[trigger] ancestors@[i]).1
                    &&& (forall|j: int| 0 <= j < i ==> !(#[trigger] ancestors@[j]).1)
                    &&& path@ == ancestors@[i].0@ + seq!['/'] + "Treasury.toml"@
                },
            None => forall|i: int| 0 <= i < ancestors@.len() ==> !(#[trigger] ancestors@[i]).1,
        },
{
    proof {
        reveal_strlit("Treasury.toml");
    }
    let mut i: usize = 0;
    while i < ancestors.len()
        invariant
            i <= ancestors@.len(),
            forall|j: int| 0 <= j < i ==> !(#[trigger] ancestors@[j]).1,
        decreases ancestors@.len() - i,
    {
        if ancestors[i].1 {
            let path = join_under(&ancestors[i].0, "Treasury.toml");
            proof {
                let ii = i as int;
                assert((ancestors@[ii]).1 && (forall|j: int|
                    0 <= j < ii ==> !(#[trigger] ancestors@[j]).1) && path@ == ancestors@[ii].0@
                    + seq!['/'] + "Treasury.toml"@);
            }
            return Some(path);
        }
        i = i + 1;
    }
    None
}

} // verus!
