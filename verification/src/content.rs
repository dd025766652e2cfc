//! Upstream content model and the path conventions of the snapshot store.
//!
//! The upstream host addresses files and directories as
//! `{owner}/{repo}/contents/{path}`; snapshot files for one token live in
//! one directory per exchange under `data/{token}`, named by calendar date.

use vstd::prelude::*;
use vstd::string::StrSliceExecFns;
use vstd::string::StringExecFns;

use crate::dates::{CivilDate, spec_date_chars, push_date_chars};
use crate::errors::EngineError;
use crate::stats::MAX_AGG_SOURCES;
use crate::text::{string_push, push_padded, spec_padded};

verus! {

/// A dataset: one repository of one source platform.
#[derive(Debug, Clone, PartialEq, Eq)]
pub struct RepoConfig {
    /// Source platform identifier.
    pub source: String,
    /// Owner or organization.
    pub owner: String,
    /// Repository name.
    pub repo: String,
}

/// The kind of a node of the upstream file tree.  A node is never both a
/// file and a directory.
#[derive(Debug, Clone, Copy, PartialEq, Eq, Structural)]
pub enum ContentKind {
    File,
    Dir,
    /// Anything else the upstream reports (a link, a submodule).
    Other,
}

/// The kind a label of the upstream's content API denotes.
pub open spec fn spec_kind_of_label(s: Seq<char>) -> ContentKind {
    if s == "file"@ {
        ContentKind::File
    } else if s == "dir"@ {
        ContentKind::Dir
    } else {
        ContentKind::Other
    }
}

impl ContentKind {
    /// Read the upstream's kind label.
    pub fn from_label(s: &str) -> (r: ContentKind)
        ensures
            r == spec_kind_of_label(s@),
    {
        if crate::text::str_eq(s, "file") {
            ContentKind::File
        } else if crate::text::str_eq(s, "dir") {
            ContentKind::Dir
        } else {
            ContentKind::Other
        }
    }
}

/// One node of the upstream's file tree.
#[derive(Debug, Clone, PartialEq, Eq)]
pub struct ContentEntry {
    /// Node name.
    pub name: String,
    /// Path within the repository.
    pub path: String,
    /// File or directory.
    pub kind: ContentKind,
    /// Inline payload, when the upstream sent one.
    pub content: Option<String>,
    /// Encoding of the inline payload.
    pub encoding: Option<String>,
    /// Canonical API URL of the node.
    pub url: String,
    /// Browse URL, when present.
    pub html_url: Option<String>,
    /// Direct download URL, when present.
    pub download_url: Option<String>,
}

/// Query parameters of the content endpoint.
#[derive(Debug, Clone, PartialEq, Eq)]
pub struct AggregateQuery {
    /// Whether to combine multiple files.
    pub aggregate: Option<String>,
    /// Page number, 1 to 10000.
    pub page: Option<usize>,
    /// Items per page, 1 to 100.
    pub limit: Option<usize>,
    /// Start date filter (`YYYY-MM-DD`).
    pub start: Option<String>,
    /// End date filter (`YYYY-MM-DD`).
    pub end: Option<String>,
}

impl AggregateQuery {
    /// Whether the paging parameters are within their allowed ranges.
    pub fn validate(&self) -> (r: bool)
        ensures
            r <==> {
                &&& (self.page matches Some(p) ==> 1 <= p <= 10000)
                &&& (self.limit matches Some(l) ==> 1 <= l <= 100)
            },
    {
        let page_ok = match self.page {
            Some(p) => 1 <= p && p <= 10000,
            None => true,
        };
        let limit_ok = match self.limit {
            Some(l) => 1 <= l && l <= 100,
            None => true,
        };
        page_ok && limit_ok
    }
}

/// A path with its leading slashes removed.
pub open spec fn spec_trim_slashes(s: Seq<char>) -> Seq<char>
    decreases s.len(),
{
    if s.len() > 0 && s[0] == '/' {
        spec_trim_slashes(s.drop_first())
    } else {
        s
    }
}

/// The API URL of a path of a dataset.
pub open spec fn spec_contents_url(owner: Seq<char>, repo: Seq<char>, path: Seq<char>) -> Seq<
    char,
> {
    "https://api.github.com/repos/"@ + owner + "/"@ + repo + "/contents/"@ + spec_trim_slashes(
        path,
    )
}

/// Build the API URL for a path of a dataset, with leading slashes of the
/// path removed.
pub fn contents_url(config: &RepoConfig, path: &str) -> (r: String)
    ensures
        r@ == spec_contents_url(config.owner@, config.repo@, path@),
{
    let mut out = String::from_str("https://api.github.com/repos/");
    out.append(config.owner.as_str());
    out.append("/");
    out.append(config.repo.as_str());
    out.append("/contents/");
    let n = path.unicode_len();
    let mut i: usize = 0;
    proof {
        assert(path@.skip(0) =~= path@);
    }
    while i < n && path.get_char(i) == '/'
        invariant
            0 <= i <= n,
            n == path@.len(),
            spec_trim_slashes(path@) == spec_trim_slashes(path@.skip(i as int)),
        decreases n - i,
    {
        proof {
            assert(path@.skip(i as int).drop_first() =~= path@.skip(i + 1));
        }
        i += 1;
    }
    proof {
        assert(spec_trim_slashes(path@.skip(i as int)) == path@.skip(i as int));
    }
    let ghost prefix = out@;
    let mut j = i;
    while j < n
        invariant
            i <= j <= n,
            n == path@.len(),
            out@ == prefix + path@.subrange(i as int, j as int),
        decreases n - j,
    {
        let c = path.get_char(j);
        string_push(&mut out, c);
        proof {
            assert(path@.subrange(i as int, j + 1) =~= path@.subrange(i as int, j as int)
                + seq![path@[j as int]]);
        }
        j += 1;
    }
    proof {
        assert(path@.subrange(i as int, n as int) =~= path@.skip(i as int));
        assert(out@ =~= spec_contents_url(config.owner@, config.repo@, path@));
    }
    out
}

/// The names of the directory-typed entries, in listing order.
pub open spec fn spec_dir_names(s: Seq<ContentEntry>) -> Seq<Seq<char>>
    decreases s.len(),
{
    if s.len() == 0 {
        Seq::empty()
    } else {
        spec_dir_names(s.drop_last()) + if s.last().kind is Dir {
            seq![s.last().name@]
        } else {
            Seq::empty()
        }
    }
}

/// Discover the sub-source directories of an entity from a directory
/// listing: the names of its directory-typed entries, in order, capped at
/// `MAX_AGG_SOURCES`.  A listing without a single directory entry is the
/// user-facing "entity unknown" condition.
pub fn discover_sources(entries: &Vec<ContentEntry>) -> (r: Result<Vec<String>, EngineError>)
    ensures
        r is Ok <==> spec_dir_names(entries@).len() > 0,
        r matches Err(e) ==> e == EngineError::NoSourcesFound,
        r matches Ok(v) ==> {
            &&& v@.len() == vstd::math::min(spec_dir_names(entries@).len() as int, MAX_AGG_SOURCES as int)
            &&& v@.map_values(|nm: String| nm@) == spec_dir_names(entries@).take(v@.len() as int)
        },
{
    let n = entries.len();
    let mut out: Vec<String> = Vec::new();
    let mut i: usize = 0;
    while i < n
        invariant
            0 <= i <= n,
            n == entries@.len(),
            out@.len() == vstd::math::min(
                spec_dir_names(entries@.take(i as int)).len() as int,
                MAX_AGG_SOURCES as int,
            ),
            out@.map_values(|nm: String| nm@) == spec_dir_names(entries@.take(i as int)).take(
                out@.len() as int,
            ),
        decreases n - i,
    {
        proof {
            assert(entries@.take(i + 1).drop_last() =~= entries@.take(i as int));
            assert(entries@.take(i + 1).last() == entries@[i as int]);
        }
        let e = &entries[i];
        if matches!(e.kind, ContentKind::Dir) && out.len() < MAX_AGG_SOURCES {
            let ghost pre = out@;
            out.push(e.name.clone());
            proof {
                assert(out@.map_values(|nm: String| nm@) =~= pre.map_values(|nm: String| nm@)
                    + seq![entries@[i as int].name@]);
                assert(spec_dir_names(entries@.take(i + 1)).take(out@.len() as int)
                    =~= spec_dir_names(entries@.take(i as int)).take(pre.len() as int) + seq![
                    entries@[i as int].name@,
                ]);
            }
        } else {
            proof {
                if entries@[i as int].kind is Dir {
                    assert(spec_dir_names(entries@.take(i + 1)).take(out@.len() as int)
                        =~= spec_dir_names(entries@.take(i as int)).take(out@.len() as int));
                }
            }
        }
        i += 1;
    }
    proof {
        assert(entries@.take(n as int) =~= entries@);
    }
    if out.len() == 0 {
        proof {
            lemma_dir_names_len(entries@);
        }
        Err(EngineError::NoSourcesFound)
    } else {
        Ok(out)
    }
}

/// A capped prefix of the directory names is empty only when there are none.
proof fn lemma_dir_names_len(s: Seq<ContentEntry>)
    ensures
        vstd::math::min(spec_dir_names(s).len() as int, MAX_AGG_SOURCES as int) == 0
            <==> spec_dir_names(s).len() == 0,
{
}

/// What `str::to_lowercase` returns: a function of the characters alone.
pub uninterp spec fn lower_of(s: Seq<char>) -> Seq<char>;

/// Relies on `str::to_lowercase`: the result depends on the characters
/// alone, and an empty text stays empty.
#[verifier::external_body]
pub fn lowercase(s: &str) -> (r: String)
    ensures
        r@ == lower_of(s@),
        s@.len() == 0 ==> r@.len() == 0,
{
    s.to_lowercase()
}

/// The directory of an entity's sub-sources: `data/{entity-lowercased}`.
pub open spec fn spec_token_dir(token_lower: Seq<char>) -> Seq<char> {
    "data/"@ + token_lower
}

/// Build the sub-source directory path of an entity.
pub fn token_dir_path(token: &str) -> (r: String)
    ensures
        r@ == spec_token_dir(lower_of(token@)),
{
    let mut out = String::from_str("data/");
    let low = lowercase(token);
    out.append(low.as_str());
    out
}

/// The snapshot file of one entity, exchange and day:
/// `data/{entity}/{exchange}/{year}/{month}/{year}-{month}-{day}-raw.json`.
pub open spec fn spec_snapshot_path(
    token_lower: Seq<char>,
    exchange: Seq<char>,
    d: CivilDate,
) -> Seq<char> {
    "data/"@ + token_lower + "/"@ + exchange + "/"@ + spec_padded(d.year as nat, 4) + "/"@
        + spec_padded(d.month as nat, 2) + "/"@ + spec_date_chars(d) + "-raw.json"@
}

/// Build the snapshot file path of one entity, exchange and day.
pub fn snapshot_path(token: &str, exchange: &str, d: CivilDate) -> (r: String)
    ensures
        r@ == spec_snapshot_path(lower_of(token@), exchange@, d),
{
    let mut out = String::from_str("data/");
    let low = lowercase(token);
    out.append(low.as_str());
    out.append("/");
    out.append(exchange);
    out.append("/");
    push_padded(&mut out, d.year as u64, 4);
    out.append("/");
    push_padded(&mut out, d.month as u64, 2);
    out.append("/");
    push_date_chars(&mut out, d);
    out.append("-raw.json");
    proof {
        assert(out@ =~= spec_snapshot_path(lower_of(token@), exchange@, d));
    }
    out
}

} // verus!
