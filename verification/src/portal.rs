//! The Factorio mod portal: its records, and the decisions its client makes
//! between requests (queries, URLs, paging, filtering, replies).
use vstd::prelude::*;
use crate::text::{concat2, concat3, concat4, to_string};
use crate::time::{iso8601_view, parse_iso8601, time_le, UtcTime};

verus! {

/// Base URL of the mod API.
pub const MOD_API_BASE: &'static str = "https://mods.factorio.com/api";
/// Base URL of the mod portal.
pub const MOD_BASE: &'static str = "https://mods.factorio.com";
/// Base URL of the authentication service.
pub const AUTH_BASE: &'static str = "https://auth.factorio.com";
/// Base URL of thumbnails.
pub const THUMBNAIL_BASE: &'static str = "https://assets-mod.factorio.com";
/// Base URL of the second version of the mod API.
pub const MOD_API_V2_BASE: &'static str = "https://mods.factorio.com/api/v2";
/// Base URL of GitHub repositories.
pub const GITHUB_BASE: &'static str = "https://github.com/";

/// API credentials.
#[derive(Debug, Clone)]
pub struct Config {
    pub user: String,
    pub token: String,
}

/// One mod. Which fields are present depends on the endpoint: `/api/mods`
/// gives `latest_release` and no `releases`, `/api/mods/{name}` the reverse,
/// and `/api/mods/{name}/full` everything.
#[derive(Debug, Clone)]
pub struct ResultEntry {
    pub name: String,
    pub title: String,
    pub owner: String,
    pub summary: String,
    pub downloads_count: u64,
    pub latest_release: Option<Release>,
    pub releases: Option<Vec<Release>>,
    pub category: Option<String>,
    pub changelog: Option<String>,
    pub created_at: Option<String>,
    pub description: Option<String>,
    pub deprecated: Option<bool>,
    pub deprecated_reason: Option<Vec<String>>,
    pub source_url: Option<String>,
    pub github_path: Option<String>,
    pub homepage: Option<String>,
    pub tags: Option<Vec<Tag>>,
    pub license: Option<Vec<License>>,
    pub updated_at: Option<String>,
    pub last_highlighted_at: Option<String>,
    pub thumbnail: Option<String>,
}

/// A release of a mod.
#[derive(Debug, Clone)]
pub struct Release {
    pub download_url: String,
    pub file_name: String,
    pub info_json: InfoJson,
    pub released_at: String,
    pub version: String,
    pub sha1: String,
    pub feature_flags: Option<Vec<String>>,
}

/// Summary of a release's `info.json`.
#[derive(Debug, Clone)]
pub struct InfoJson {
    pub factorio_version: String,
    pub dependencies: Option<Vec<String>>,
}

/// A license.
#[derive(Debug, Clone)]
pub struct License {
    pub description: String,
    pub id: String,
    pub name: String,
    pub title: String,
    pub url: String,
}

/// A tag: either a bare name or an object with a name.
#[derive(Debug, Clone)]
pub enum Tag {
    Name(String),
    Named { name: String },
}

/// An error reply of the API.
#[derive(Debug, Clone)]
pub struct ErrorResponse {
    pub message: String,
}

/// Paging of a search reply.
#[derive(Debug, Clone)]
pub struct SearchPagination {
    pub count: u64,
    pub page: u64,
    pub page_count: u64,
    pub page_size: u64,
}

/// The parts of a search hit that matched.
#[derive(Debug, Clone)]
pub struct HighlightedFields {
    pub name: String,
    pub owner: String,
    pub summary: String,
    pub title: String,
}

/// One hit of `/api/search`; its `latest_release` is the release's hash.
#[derive(Debug, Clone)]
pub struct SearchResultEntry {
    pub name: String,
    pub title: String,
    pub owner: String,
    pub summary: String,
    pub downloads_count: u64,
    pub latest_release: Option<String>,
    pub latest_release_version: Option<String>,
    pub category: Option<String>,
    pub created_at: Option<String>,
    pub updated_at: Option<String>,
    pub deprecated: Option<bool>,
    pub source_url: Option<String>,
    pub requires_space_age: Option<bool>,
    pub thumbnail: Option<String>,
    pub highlighted_fields: Option<HighlightedFields>,
    pub factorio_versions: Option<Vec<String>>,
    pub tags: Option<Vec<Tag>>,
}

/// The body of a search request, without the credentials.
#[derive(Debug, Clone)]
pub struct SearchQuery {
    pub version: Option<String>,
    pub query: Option<String>,
    pub sort_attribute: Option<String>,
    pub order: Option<String>,
    pub page: Option<u64>,
    pub page_size: Option<u64>,
}

/// The URL of a thumbnail path.
pub open spec fn thumbnail_view(thumbnail: Option<Seq<char>>) -> Option<Seq<char>> {
    match thumbnail {
        Some(t) => Some(THUMBNAIL_BASE@ + t),
        None => None,
    }
}

/// The full URL of a thumbnail path.
fn thumbnail_of(thumbnail: &Option<String>) -> (r: Option<String>)
    ensures
        r.deep_view() == thumbnail_view(thumbnail.deep_view()),
{
    match thumbnail {
        Some(t) => Some(concat2(THUMBNAIL_BASE, t.as_str())),
        None => None,
    }
}

/// The view of a tag: its name.
pub open spec fn tag_name(t: Tag) -> Seq<char> {
    match t {
        Tag::Name(s) => s@,
        Tag::Named { name } => name@,
    }
}

impl Tag {
    /// The tag's name, whichever form it came in.
    pub fn name(&self) -> (r: &str)
        ensures
            r@ == tag_name(*self),
    {
        match self {
            Tag::Name(s) => s.as_str(),
            Tag::Named { name } => name.as_str(),
        }
    }
}

impl ResultEntry {
    /// The full URL of the thumbnail, where there is one.
    pub fn thumbnail_url(&self) -> (r: Option<String>)
        ensures
            r.deep_view() == thumbnail_view(self.thumbnail.deep_view()),
    {
        thumbnail_of(&self.thumbnail)
    }

    /// The full GitHub URL, where `github_path` is present and not empty.
    pub fn github_url(&self) -> (r: Option<String>)
        ensures
            r.deep_view() == match self.github_path {
                Some(p) => if p@.len() > 0 {
                    Some(GITHUB_BASE@ + p@)
                } else {
                    None
                },
                None => None,
            },
    {
        match &self.github_path {
            Some(p) => if p.unicode_len() > 0 {
                Some(concat2(GITHUB_BASE, p.as_str()))
            } else {
                None
            },
            None => None,
        }
    }

    /// `created_at` read as a point in time.
    pub fn created_at_dt(&self) -> (r: Option<UtcTime>)
        ensures
            r == iso8601_view(self.created_at.deep_view()),
    {
        match &self.created_at {
            Some(s) => parse_iso8601(Some(s.as_str())),
            None => parse_iso8601(None),
        }
    }

    /// `updated_at` read as a point in time.
    pub fn updated_at_dt(&self) -> (r: Option<UtcTime>)
        ensures
            r == iso8601_view(self.updated_at.deep_view()),
    {
        match &self.updated_at {
            Some(s) => parse_iso8601(Some(s.as_str())),
            None => parse_iso8601(None),
        }
    }

    /// `latest_release.released_at` read as a point in time.
    pub fn released_at_dt(&self) -> (r: Option<UtcTime>)
        ensures
            r == released_at_view(*self),
    {
        match &self.latest_release {
            Some(rel) => parse_iso8601(Some(rel.released_at.as_str())),
            None => None,
        }
    }
}

/// When the latest release of an entry came out, where it says and reads.
pub open spec fn released_at_view(e: ResultEntry) -> Option<UtcTime> {
    match e.latest_release {
        Some(rel) => iso8601_view(Some(rel.released_at@)),
        None => None,
    }
}

/// When the newest release of an entry came out, where it says and reads: its
/// latest release where the record names one (the list endpoint), else the
/// last of its releases (the single-mod endpoint).
pub open spec fn newest_release_at_view(e: ResultEntry) -> Option<UtcTime> {
    match e.latest_release {
        Some(rel) => iso8601_view(Some(rel.released_at@)),
        None => match e.releases {
            Some(rs) => if rs@.len() > 0 {
                iso8601_view(Some(rs@.last().released_at@))
            } else {
                None
            },
            None => None,
        },
    }
}

impl ResultEntry {
    /// When the newest release came out: the latest release, else the last of
    /// the releases, read as a point in time.
    pub fn newest_release_at(&self) -> (r: Option<UtcTime>)
        ensures
            r == newest_release_at_view(*self),
    {
        match &self.latest_release {
            Some(rel) => parse_iso8601(Some(rel.released_at.as_str())),
            None => match &self.releases {
                Some(rs) => if rs.len() > 0 {
                    parse_iso8601(Some(rs[rs.len() - 1].released_at.as_str()))
                } else {
                    None
                },
                None => None,
            },
        }
    }
}

/// The synthetic release that a search hit stands for: downloaded from
/// `/download/{name}/{hash}`, with the hit's version (or an empty one) and
/// every other text empty.
pub open spec fn synthetic_release(r: Release, name: Seq<char>, hash: Seq<char>, version: Option<String>) -> bool {
    &&& r.download_url@ == seq!['/', 'd', 'o', 'w', 'n', 'l', 'o', 'a', 'd', '/'] + name + seq!['/'] + hash
    &&& r.file_name@ == Seq::<char>::empty()
    &&& r.info_json.factorio_version@ == Seq::<char>::empty()
    &&& r.info_json.dependencies is None
    &&& r.released_at@ == Seq::<char>::empty()
    &&& r.version@ == match version {
        Some(v) => v@,
        None => Seq::<char>::empty(),
    }
    &&& r.sha1@ == Seq::<char>::empty()
    &&& r.feature_flags is None
}

/// `r` is the entry that `into_result_entry` makes of the search hit `s`: the
/// shared fields carried over, a synthetic release where the hit names one,
/// and every field that a search reply lacks left out.
pub open spec fn converted_from(r: ResultEntry, s: SearchResultEntry) -> bool {
    &&& r.name == s.name
    &&& r.title == s.title
    &&& r.owner == s.owner
    &&& r.summary == s.summary
    &&& r.downloads_count == s.downloads_count
    &&& match s.latest_release {
        Some(hash) => r.latest_release matches Some(rel) && synthetic_release(rel, s.name@, hash@, s.latest_release_version),
        None => r.latest_release is None,
    }
    &&& r.releases is None
    &&& r.category == s.category
    &&& r.changelog is None
    &&& r.created_at == s.created_at
    &&& r.description is None
    &&& r.deprecated == s.deprecated
    &&& r.deprecated_reason is None
    &&& r.source_url == s.source_url
    &&& r.github_path is None
    &&& r.homepage is None
    &&& r.tags == s.tags
    &&& r.license is None
    &&& r.updated_at == s.updated_at
    &&& r.last_highlighted_at is None
    &&& r.thumbnail == s.thumbnail
}

impl SearchResultEntry {
    /// Turns a search hit into a `ResultEntry`, with a synthetic release
    /// downloaded from `/download/{name}/{hash}`; fields that a search reply
    /// lacks are `None`.
    pub fn into_result_entry(self) -> (r: ResultEntry)
        ensures
            converted_from(r, self),
    {
        proof {
            reveal_strlit("/download/");
            reveal_strlit("/");
            assert("/download/"@ =~= seq!['/', 'd', 'o', 'w', 'n', 'l', 'o', 'a', 'd', '/']);
            assert("/"@ =~= seq!['/']);
        }
        let synthetic_release = match &self.latest_release {
            Some(hash) => {
                let version = match &self.latest_release_version {
                    Some(v) => v.clone(),
                    None => String::new(),
                };
                let rel = Release {
                        download_url: concat4("/download/", self.name.as_str(), "/", hash.as_str()),
                        file_name: String::new(),
                        info_json: InfoJson { factorio_version: String::new(), dependencies: None },
                        released_at: String::new(),
                        version,
                        sha1: String::new(),
                        feature_flags: None,
                    };
                assert(synthetic_release(rel, self.name@, hash@, self.latest_release_version));
                Some(rel)
            },
            None => None,
        };
        ResultEntry {
            name: self.name,
            title: self.title,
            owner: self.owner,
            summary: self.summary,
            downloads_count: self.downloads_count,
            latest_release: synthetic_release,
            releases: None,
            category: self.category,
            changelog: None,
            created_at: self.created_at,
            description: None,
            deprecated: self.deprecated,
            deprecated_reason: None,
            source_url: self.source_url,
            github_path: None,
            homepage: None,
            tags: self.tags,
            license: None,
            updated_at: self.updated_at,
            last_highlighted_at: None,
            thumbnail: self.thumbnail,
        }
    }

    /// The full URL of the thumbnail, where there is one.
    pub fn thumbnail_url(&self) -> (r: Option<String>)
        ensures
            r.deep_view() == thumbnail_view(self.thumbnail.deep_view()),
    {
        thumbnail_of(&self.thumbnail)
    }
}

// ═══════════════════════════════════════════════════════════════════════════
// Search queries
// ═══════════════════════════════════════════════════════════════════════════

/// A query for the first page of `limit` mods of a game version, sorted by
/// `sort_attribute`, newest first.
pub open spec fn first_page_query(q: SearchQuery, limit: u64, version: Seq<char>, sort_attribute: Seq<char>) -> bool {
    &&& q.version.deep_view() == Some(version)
    &&& q.sort_attribute.deep_view() == Some(sort_attribute)
    &&& q.order.deep_view() == Some(seq!['d', 'e', 's', 'c'])
    &&& q.page_size == Some(limit)
    &&& q.page == Some(1u64)
    &&& q.query is None
}

/// `last_updated_at`
pub open spec fn by_last_updated() -> Seq<char> {
    seq!['l', 'a', 's', 't', '_', 'u', 'p', 'd', 'a', 't', 'e', 'd', '_', 'a', 't']
}

/// `created_at`
pub open spec fn by_created() -> Seq<char> {
    seq!['c', 'r', 'e', 'a', 't', 'e', 'd', '_', 'a', 't']
}

/// A query for one page of a game version's mods, sorted by an attribute, newest first.
fn sorted_query(limit: u64, version: &str, sort_attribute: &str, page: u64) -> (r: SearchQuery)
    ensures
        r.version.deep_view() == Some(version@),
        r.sort_attribute.deep_view() == Some(sort_attribute@),
        r.order.deep_view() == Some(seq!['d', 'e', 's', 'c']),
        r.page_size == Some(limit),
        r.page == Some(page),
        r.query is None,
{
    proof {
        reveal_strlit("desc");
        assert("desc"@ =~= seq!['d', 'e', 's', 'c']);
    }
    SearchQuery {
        version: Some(to_string(version)),
        sort_attribute: Some(to_string(sort_attribute)),
        order: Some(to_string("desc")),
        page_size: Some(limit),
        page: Some(page),
        query: None,
    }
}

/// The query for the `limit` most recently updated mods of a game version.
pub fn recently_updated_query(limit: u64, version: &str) -> (r: SearchQuery)
    ensures
        first_page_query(r, limit, version@, by_last_updated()),
{
    proof {
        reveal_strlit("last_updated_at");
        assert("last_updated_at"@ =~= by_last_updated());
    }
    sorted_query(limit, version, "last_updated_at", 1)
}

/// The query for the `limit` newest mods of a game version.
pub fn newest_mods_query(limit: u64, version: &str) -> (r: SearchQuery)
    ensures
        first_page_query(r, limit, version@, by_created()),
{
    proof {
        reveal_strlit("created_at");
        assert("created_at"@ =~= by_created());
    }
    sorted_query(limit, version, "created_at", 1)
}

/// The page size used to walk recent updates: the one asked for (100 where
/// none is), at most 100.
pub fn updated_since_page_size(page_size: Option<u64>) -> (r: u64)
    ensures
        r == match page_size {
            Some(p) => if p < 100 {
                p
            } else {
                100
            },
            None => 100,
        },
{
    match page_size {
        Some(p) => if p < 100 {
            p
        } else {
            100
        },
        None => 100,
    }
}

/// The query for one page of mods of a game version, most recently updated
/// first.
pub fn updated_since_query(version: &str, page_size: u64, page: u64) -> (r: SearchQuery)
    ensures
        r.version.deep_view() == Some(version@),
        r.sort_attribute.deep_view() == Some(by_last_updated()),
        r.order.deep_view() == Some(seq!['d', 'e', 's', 'c']),
        r.page_size == Some(page_size),
        r.page == Some(page),
        r.query is None,
{
    proof {
        reveal_strlit("last_updated_at");
        assert("last_updated_at"@ =~= by_last_updated());
    }
    sorted_query(page_size, version, "last_updated_at", page)
}

/// Turns every search hit into a `ResultEntry`, in order.
pub fn entries_from_search(results: Vec<SearchResultEntry>) -> (r: Vec<ResultEntry>)
    ensures
        r@.len() == results@.len(),
        forall|i: int| 0 <= i < r@.len() ==> converted_from(#[trigger] r@[i], results@[i]),
{
    let ghost orig = results@;
    let mut rest = results;
    let mut out: Vec<ResultEntry> = Vec::new();
    while rest.len() > 0
        invariant
            out@.len() + rest@.len() == orig.len(),
            rest@ == orig.skip(out@.len() as int),
            forall|i: int| 0 <= i < out@.len() ==> converted_from(#[trigger] out@[i], orig[i]),
        decreases rest@.len(),
    {
        let ghost k = out@.len();
        let hit = rest.remove(0);
        assert(hit == orig[k as int]);
        out.push(hit.into_result_entry());
        assert(rest@ =~= orig.skip(out@.len() as int));
    }
    out
}

// ═══════════════════════════════════════════════════════════════════════════
// Walking the mods updated since a point in time
// ═══════════════════════════════════════════════════════════════════════════

/// A search hit was updated at or after `since` (by a time stamp that reads).
pub open spec fn updated_after(e: SearchResultEntry, since: UtcTime) -> bool {
    match iso8601_view(e.updated_at.deep_view()) {
        Some(t) => time_le(since, t),
        None => false,
    }
}

/// Walking the first `n` hits of a page, with `count` entries already
/// collected and at most `limit` wanted: the indices of the hits taken, in
/// order; whether any hit was updated late enough; and whether the walk
/// stopped because the limit was reached (checked before the walk and after
/// each hit taken, so no hit is taken once `limit` entries are held).
pub open spec fn scan_prefix(
    results: Seq<SearchResultEntry>,
    since: UtcTime,
    limit: int,
    count: int,
    n: int,
) -> (Seq<int>, bool, bool)
    decreases n,
{
    if n <= 0 {
        (Seq::empty(), false, count >= limit)
    } else {
        let prev = scan_prefix(results, since, limit, count, n - 1);
        if prev.2 {
            prev
        } else {
            let take = updated_after(results[n - 1], since);
            let picked = if take {
                prev.0.push(n - 1)
            } else {
                prev.0
            };
            (picked, prev.1 || take, count + picked.len() >= limit)
        }
    }
}

/// The indices below `n` of the hits updated at or after `since`, in order.
pub open spec fn recent_indices(results: Seq<SearchResultEntry>, since: UtcTime, n: int) -> Seq<int>
    decreases n,
{
    if n <= 0 {
        Seq::empty()
    } else if updated_after(results[n - 1], since) {
        recent_indices(results, since, n - 1).push(n - 1)
    } else {
        recent_indices(results, since, n - 1)
    }
}

/// Law: while the limit is out of reach, a page's walk takes exactly the hits
/// updated at or after `since`, in order, and notes a match exactly when
/// there is one; with the limit reached before the page, it takes none.
pub proof fn law_scan_takes_recent_hits(
    results: Seq<SearchResultEntry>,
    since: UtcTime,
    limit: int,
    count: int,
    n: int,
)
    requires
        0 <= n <= results.len(),
    ensures
        count + n < limit ==> {
            let walk = scan_prefix(results, since, limit, count, n);
            &&& walk.0 == recent_indices(results, since, n)
            &&& walk.1 == (recent_indices(results, since, n).len() > 0)
            &&& !walk.2
        },
        count >= limit ==> scan_prefix(results, since, limit, count, n).0.len() == 0,
    decreases n,
{
    if n > 0 {
        law_scan_takes_recent_hits(results, since, limit, count, n - 1);
        if count + n < limit {
            assert(recent_indices(results, since, n - 1).len() <= n - 1) by {
                lemma_recent_indices_len(results, since, n - 1);
            }
        }
    }
}

/// At most `n` hits among the first `n` are recent.
proof fn lemma_recent_indices_len(results: Seq<SearchResultEntry>, since: UtcTime, n: int)
    ensures
        recent_indices(results, since, n).len() <= if n < 0 {
            0
        } else {
            n
        },
    decreases n,
{
    if n > 0 {
        lemma_recent_indices_len(results, since, n - 1);
    }
}

/// The limit on collected entries: `max_size`, or no limit below `u64::MAX`.
pub open spec fn scan_limit(max_size: Option<u64>) -> int {
    match max_size {
        Some(m) => m as int,
        None => u64::MAX as int,
    }
}

/// What to do after a page of recent updates.
#[derive(Debug, Clone, Copy, PartialEq, Eq, Structural)]
pub enum PageOutcome {
    /// Ask for this page next.
    NextPage(u64),
    /// The walk is over.
    Finished,
}

/// Handles one page of the walk over recently updated mods (sorted by update
/// time, newest first): collects, as `ResultEntry`s and in order, the hits
/// updated at or after `since`, taking none once `max_size` entries are held,
/// so that the walk never collects more than `max_size`. The walk ends on an
/// empty page, on a page where no hit was recent enough, once the limit is
/// reached, and on the last page; otherwise it goes on with the next page.
pub fn scan_updated_page(
    since: UtcTime,
    max_size: Option<u64>,
    collected: &mut Vec<ResultEntry>,
    results: Vec<SearchResultEntry>,
    pagination: &SearchPagination,
    page: u64,
) -> (r: PageOutcome)
    requires
        page < u64::MAX,
    ensures
        ({
            let walk = scan_prefix(results@, since, scan_limit(max_size), old(collected)@.len() as int, results@.len() as int);
            &&& final(collected)@.len() == old(collected)@.len() + walk.0.len()
            &&& forall|i: int| 0 <= i < old(collected)@.len() ==> #[trigger] final(collected)@[i] == old(collected)@[i]
            &&& forall|k: int|
                0 <= k < walk.0.len() ==> 0 <= #[trigger] walk.0[k] < results@.len() && converted_from(
                    final(collected)@[old(collected)@.len() + k],
                    results@[walk.0[k]],
                )
            &&& old(collected)@.len() <= scan_limit(max_size) ==> final(collected)@.len() <= scan_limit(max_size)
            &&& r == if results@.len() == 0 || !walk.1 || walk.2 || pagination.page >= pagination.page_count {
                PageOutcome::Finished
            } else {
                PageOutcome::NextPage((page + 1) as u64)
            }
        }),
{
    let ghost orig = results@;
    let ghost start = collected@;
    let ghost limit = scan_limit(max_size);
    let empty = results.len() == 0;
    let limit_exec: u64 = match max_size {
        Some(m) => m,
        None => u64::MAX,
    };
    let mut rest = results;
    let mut page_has_match = false;
    let mut stopped = collected.len() as u64 >= limit_exec;
    while rest.len() > 0
        invariant
            rest@.len() <= orig.len(),
            rest@ == orig.skip(orig.len() - rest@.len()),
            limit == limit_exec as int,
            ({
                let walk = scan_prefix(orig, since, limit, start.len() as int, orig.len() - rest@.len());
                &&& collected@.len() == start.len() + walk.0.len()
                &&& forall|i: int| 0 <= i < start.len() ==> #[trigger] collected@[i] == start[i]
                &&& forall|k: int|
                    0 <= k < walk.0.len() ==> 0 <= #[trigger] walk.0[k] < orig.len() - rest@.len()
                        && converted_from(collected@[start.len() + k], orig[walk.0[k]])
                &&& page_has_match == walk.1
                &&& stopped == walk.2
            }),
            stopped <==> collected@.len() >= limit,
            start.len() <= limit ==> collected@.len() <= limit,
        decreases rest@.len(),
    {
        let ghost n = orig.len() - rest@.len();
        let ghost prev = scan_prefix(orig, since, limit, start.len() as int, n);
        let ghost before = collected@;
        let hit = rest.remove(0);
        assert(hit == orig[n]);
        assert(rest@ =~= orig.skip(n + 1));
        if !stopped {
            let updated = match &hit.updated_at {
                Some(s) => parse_iso8601(Some(s.as_str())),
                None => parse_iso8601(None),
            };
            let take = match updated {
                Some(t) => t.at_or_after(&since),
                None => false,
            };
            assert(take == updated_after(orig[n], since));
            if take {
                page_has_match = true;
                collected.push(hit.into_result_entry());
                assert forall|k: int| 0 <= k < prev.0.push(n).len() implies 0 <= #[trigger] prev.0.push(n)[k] < n + 1
                    && converted_from(collected@[start.len() + k], orig[prev.0.push(n)[k]]) by {
                    if k < prev.0.len() {
                        assert(collected@[start.len() + k] == before[start.len() + k]);
                    }
                }
            }
            stopped = collected.len() as u64 >= limit_exec;
        }
    }
    assert(orig.len() - rest@.len() == orig.len());
    if empty || !page_has_match || stopped || pagination.page >= pagination.page_count {
        PageOutcome::Finished
    } else {
        PageOutcome::NextPage(page + 1)
    }
}

/// Entries whose latest release came out at or after `since`, in order.
/// Only meaningful for entries with a real latest release (from `get_mod` or
/// `get_mod_full`); synthetic ones from a search have no release time.
pub fn filter_updated_since<'a>(entries: &'a [ResultEntry], since: UtcTime) -> (r: Vec<&'a ResultEntry>)
    ensures
        r@.map_values(|x: &ResultEntry| *x) == entries@.filter(|e: ResultEntry| released_at_view(e) matches Some(t) && time_le(since, t)),
{
    let ghost pred = |e: ResultEntry| released_at_view(e) matches Some(t) && time_le(since, t);
    let mut out: Vec<&'a ResultEntry> = Vec::new();
    let mut i: usize = 0;
    while i < entries.len()
        invariant
            0 <= i <= entries.len(),
            pred == (|e: ResultEntry| released_at_view(e) matches Some(t) && time_le(since, t)),
            out@.map_values(|x: &ResultEntry| *x) == entries@.take(i as int).filter(pred),
        decreases entries.len() - i,
    {
        let e = &entries[i];
        proof {
            assert(entries@.take(i + 1) =~= entries@.take(i as int).push(*e));
            entries@.take(i as int).lemma_filter_push(*e, pred);
        }
        let keep = match e.released_at_dt() {
            Some(t) => t.at_or_after(&since),
            None => false,
        };
        if keep {
            let ghost before = out@;
            out.push(e);
            assert(out@.map_values(|x: &ResultEntry| *x) =~= before.map_values(|x: &ResultEntry| *x).push(*e));
        }
        i += 1;
    }
    assert(entries@.take(entries.len() as int) =~= entries@);
    out
}

/// Keeps the entries whose newest release (the latest release, else the last
/// of the releases) came out at or after `since`, in order.
pub fn filter_released_since(entries: Vec<ResultEntry>, since: UtcTime) -> (r: Vec<ResultEntry>)
    ensures
        r@ == entries@.filter(|e: ResultEntry| newest_release_at_view(e) matches Some(t) && time_le(since, t)),
{
    let ghost pred = |e: ResultEntry| newest_release_at_view(e) matches Some(t) && time_le(since, t);
    let ghost orig = entries@;
    let mut rest = entries;
    let mut out: Vec<ResultEntry> = Vec::new();
    while rest.len() > 0
        invariant
            rest@.len() <= orig.len(),
            rest@ == orig.skip(orig.len() - rest@.len()),
            pred == (|e: ResultEntry| newest_release_at_view(e) matches Some(t) && time_le(since, t)),
            out@ == orig.take(orig.len() - rest@.len()).filter(pred),
        decreases rest@.len(),
    {
        let ghost n = orig.len() - rest@.len();
        let e = rest.remove(0);
        proof {
            assert(e == orig[n]);
            assert(rest@ =~= orig.skip(n + 1));
            assert(orig.take(n + 1) =~= orig.take(n).push(e));
            orig.take(n).lemma_filter_push(e, pred);
        }
        let keep = match e.newest_release_at() {
            Some(t) => t.at_or_after(&since),
            None => false,
        };
        if keep {
            out.push(e);
        }
    }
    assert(orig.take(orig.len() as int) =~= orig);
    out
}

// ═══════════════════════════════════════════════════════════════════════════
// Requests and replies
// ═══════════════════════════════════════════════════════════════════════════

/// `/api/mods/{name}`, or `/api/mods/{name}/full` for the full record.
pub fn mod_url(mod_name: &str, full: bool) -> (r: String)
    ensures
        r@ == MOD_API_BASE@ + "/mods/"@ + mod_name@ + if full {
            "/full"@
        } else {
            ""@
        },
{
    if full {
        concat4(MOD_API_BASE, "/mods/", mod_name, "/full")
    } else {
        concat4(MOD_API_BASE, "/mods/", mod_name, "")
    }
}

/// The portal URL of a release's download path.
pub fn download_url(path: &str) -> (r: String)
    ensures
        r@ == MOD_BASE@ + path@,
{
    concat2(MOD_BASE, path)
}

/// The `state` form field of a bookmark toggle: `on` to bookmark, `off` to
/// remove the bookmark.
pub fn bookmark_state(state: bool) -> (r: &'static str)
    ensures
        r@ == if state {
            "on"@
        } else {
            "off"@
        },
{
    if state {
        "on"
    } else {
        "off"
    }
}

/// The `Authorization` header for an API key.
pub fn bearer_header(api_key: &str) -> (r: String)
    ensures
        r@ == "Bearer "@ + api_key@,
{
    concat2("Bearer ", api_key)
}

/// The file name under which a mod's zip is uploaded.
pub fn upload_file_name(mod_name: &str) -> (r: String)
    ensures
        r@ == mod_name@ + ".zip"@,
{
    concat2(mod_name, ".zip")
}

/// The error text for a refused request: `{kind} ({status}): {detail}`, the
/// detail being the API's error message where the reply parsed as one, and
/// the reply's text otherwise.
pub fn api_error_text(kind: &str, status: &str, parsed: &Option<ErrorResponse>, text: &str) -> (r: String)
    ensures
        r@ == kind@ + " ("@ + status@ + "): "@ + match parsed {
            Some(e) => e.message@,
            None => text@,
        },
{
    let detail = match parsed {
        Some(e) => e.message.as_str(),
        None => text,
    };
    let head = concat4(kind, " (", status, "): ");
    concat2(head.as_str(), detail)
}

/// What the login reply holds, read out of its JSON.
#[derive(Debug, Clone)]
pub struct LoginReply {
    /// The `error` field, as JSON text, where present.
    pub error: Option<String>,
    /// The `message` field, where it is a string.
    pub message: Option<String>,
    /// The `token` field where present: its text where it is a string.
    pub token: Option<Option<String>>,
    /// The `username` field where present: its text where it is a string.
    pub username: Option<Option<String>>,
    /// The whole reply as JSON text.
    pub body: String,
}

/// A present field's text, or nothing where it is not a string.
pub open spec fn text_or_empty(f: Option<String>) -> Seq<char> {
    match f {
        Some(s) => s@,
        None => Seq::empty(),
    }
}

/// The text of a field, or the empty text.
fn owned_or_empty(f: &Option<String>) -> (r: String)
    ensures
        r@ == text_or_empty(*f),
{
    match f {
        Some(s) => s.clone(),
        None => String::new(),
    }
}

/// Decides a login from its reply: an `error` field refuses it, with the
/// `message` (or `Unknown error`); a `token` and a `username` together grant
/// it (a field that is not a string counting as empty); anything else is an
/// unknown reply.
pub fn login_outcome(reply: &LoginReply) -> (r: Result<Config, String>)
    ensures
        match reply.error {
            Some(e) => r matches Err(m) && m@ == "登录失败: "@ + e@ + " - "@ + match reply.message {
                Some(msg) => msg@,
                None => "Unknown error"@,
            },
            None => match (reply.token, reply.username) {
                (Some(t), Some(u)) => r matches Ok(c) && c.user@ == text_or_empty(u) && c.token@ == text_or_empty(t),
                _ => r matches Err(m) && m@ == "接收到未知的响应格式: "@ + reply.body@,
            },
        },
{
    match &reply.error {
        Some(e) => {
            let message = match &reply.message {
                Some(m) => m.as_str(),
                None => "Unknown error",
            };
            let head = concat4("登录失败: ", e.as_str(), " - ", message);
            Err(head)
        },
        None => match (&reply.token, &reply.username) {
            (Some(t), Some(u)) => Ok(Config { user: owned_or_empty(u), token: owned_or_empty(t) }),
            _ => Err(concat2("接收到未知的响应格式: ", reply.body.as_str())),
        },
    }
}

/// A reply during the upload of a mod.
#[derive(Debug, Clone)]
pub enum UploadReply {
    /// `init_upload` answered; `ok` only where the request went through with
    /// a success status, `upload_url` the field where it is a string.
    InitUpload { ok: bool, upload_url: Option<String> },
    /// `init_publish` answered: whether with a success status, the
    /// `upload_url` field where it is a string, and the reply's text.
    InitPublish { ok: bool, upload_url: Option<String>, text: String },
    /// The zip was posted: whether with a success status, and the reply's
    /// text.
    Uploaded { ok: bool, text: String },
}

/// The next step of an upload.
#[derive(Debug)]
pub enum UploadAction {
    /// Ask `init_publish` for an upload URL (the mod is not published yet).
    Publish,
    /// Post the zip to this URL.
    Post(String),
    /// The upload is over, with this outcome.
    Done(Result<(), String>),
}

/// What an upload does after a reply: a failed `init_upload` falls back to
/// `init_publish`; a refused `init_publish` ends it; an upload URL that is
/// missing or empty ends it; otherwise the zip is posted there, and the post's
/// status decides the outcome.
pub fn upload_next(reply: &UploadReply) -> (r: UploadAction)
    ensures
        match reply {
            UploadReply::InitUpload { ok, upload_url } => if !*ok {
                r is Publish
            } else if text_or_empty(*upload_url).len() == 0 {
                r matches UploadAction::Done(Err(m)) && m@ == "init_upload 失败：未返回 upload_url"@
            } else {
                r matches UploadAction::Post(u) && u@ == text_or_empty(*upload_url)
            },
            UploadReply::InitPublish { ok, upload_url, text } => if !*ok {
                r matches UploadAction::Done(Err(m)) && m@ == "init_publish 失败: "@ + text@
            } else if text_or_empty(*upload_url).len() == 0 {
                r matches UploadAction::Done(Err(m)) && m@ == "init_publish 失败：未返回 upload_url"@
            } else {
                r matches UploadAction::Post(u) && u@ == text_or_empty(*upload_url)
            },
            UploadReply::Uploaded { ok, text } => if *ok {
                r matches UploadAction::Done(Ok(()))
            } else {
                r matches UploadAction::Done(Err(m)) && m@ == "上传失败: "@ + text@
            },
        },
{
    match reply {
        UploadReply::InitUpload { ok, upload_url } => {
            if !*ok {
                return UploadAction::Publish;
            }
            let url = owned_or_empty(upload_url);
            if url.unicode_len() == 0 {
                UploadAction::Done(Err(to_string("init_upload 失败：未返回 upload_url")))
            } else {
                UploadAction::Post(url)
            }
        },
        UploadReply::InitPublish { ok, upload_url, text } => {
            if !*ok {
                return UploadAction::Done(Err(concat2("init_publish 失败: ", text.as_str())));
            }
            let url = owned_or_empty(upload_url);
            if url.unicode_len() == 0 {
                UploadAction::Done(Err(to_string("init_publish 失败：未返回 upload_url")))
            } else {
                UploadAction::Post(url)
            }
        },
        UploadReply::Uploaded { ok, text } => {
            if *ok {
                UploadAction::Done(Ok(()))
            } else {
                UploadAction::Done(Err(concat2("上传失败: ", text.as_str())))
            }
        },
    }
}

} // verus!
