//! Channel scanning: cached channel listings, detection of videos already
//! stored locally by their duration, and the choice of a storage root.
//!
//! Running the listing tool, listing directories and probing files are left to
//! the caller, which hands their results to the scanner and acts on its answers.
use crate::cache::{Cache, CacheEntry};
use crate::listing::{listing_of, listing_url, listing_url_of, parse_listing, records, VideoMetadata};
use std::path::PathBuf;
use vstd::prelude::*;
use crate::table::KeyedTable;

verus! {

/// Two durations in microseconds match when they differ by less than five seconds.
pub open spec fn within_tolerance(a: u64, b: u64) -> bool {
    a < b + 5_000_000 && b < a + 5_000_000
}

/// The time to live of a scanner's listings, in milliseconds.
pub const LISTING_TTL_MS: u64 = 300_000;

/// Relies on `PathBuf::from`: a path made of the given text.
#[verifier::external_body]
fn path_buf(s: &str) -> PathBuf {
    PathBuf::from(s)
}

/// What a scan of a channel does next.
#[derive(Debug, PartialEq, Eq)]
pub enum ScanStep {
    /// The listing is fresh in the cache: these are the videos.
    Cached(Vec<VideoMetadata>),
    /// The listing tool must be run on this address.
    Fetch(String),
}

/// What the listing tool gave back.
#[derive(Debug, PartialEq, Eq)]
pub struct ListingOutput {
    /// The tool exited with success.
    pub success: bool,
    pub stdout: Vec<u8>,
    /// The diagnostics that the tool wrote, as text.
    pub stderr: String,
}

/// Why a scan or a choice of storage failed.
#[derive(Debug, PartialEq, Eq)]
pub enum ScanError {
    /// The listing tool failed; its diagnostics.
    ListingFailed(String),
    /// None of the storage roots is present.
    NoStorage,
}

impl ScanError {
    /// A description of the failure.
    pub fn message(&self) -> (r: String)
        ensures
            match self {
                ScanError::ListingFailed(d) => r@ == "listing tool failed: "@ + d@,
                ScanError::NoStorage => r@ == "no storage root is available"@,
            },
    {
        match self {
            ScanError::ListingFailed(d) => {
                let mut m = "listing tool failed: ".to_owned();
                m.append(d.as_str());
                m
            },
            ScanError::NoStorage => "no storage root is available".to_owned(),
        }
    }
}

/// The first root, in order, that is marked present; a root without a mark is absent.
pub open spec fn first_present(present: Seq<bool>, n: int) -> Option<int> {
    if exists|i: int| 0 <= i < n && i < present.len() && present[i] {
        Some(choose|i: int| 0 <= i < n && i < present.len() && present[i] && forall|j: int| 0 <= j < i ==> !present[j])
    } else {
        None
    }
}

/// Scans channels, remembers listings for a while, and recognises local copies.
pub struct VideoScanner {
    storage_paths: Vec<String>,
    cache: Cache<Vec<VideoMetadata>>,
    durations: KeyedTable<u64>,
}

impl VideoScanner {
    pub closed spec fn roots(&self) -> Seq<String> {
        self.storage_paths@
    }

    /// The cache of listings, by listing address.
    pub closed spec fn listings(&self) -> Cache<Vec<VideoMetadata>> {
        self.cache
    }

    /// The measured durations of local files, in microseconds, by path.
    pub closed spec fn durations(&self) -> Map<Seq<char>, u64> {
        self.durations@
    }

    pub closed spec fn wf(&self) -> bool {
        self.cache.wf() && self.durations.wf()
    }

    /// The videos that the cache holds for the channel at `channel_url` at `now`.
    pub open spec fn cached_listing(&self, channel_url: Seq<char>, now: int) -> Option<Seq<VideoMetadata>> {
        match self.listings().lookup(listing_url_of(channel_url), now) {
            Some(v) => Some(v@),
            None => None,
        }
    }

    /// The file at position `i` has a measured duration that matches `target`.
    pub open spec fn matches_at(&self, files: Seq<String>, i: int, target: u64) -> bool {
        &&& self.durations().contains_key(files[i]@)
        &&& within_tolerance(self.durations()[files[i]@], target)
    }

    /// A scanner over the given storage roots, in order of priority, with the given cache.
    pub fn with_config(storage_paths: Vec<String>, cache: Cache<Vec<VideoMetadata>>) -> (s: Self)
        requires
            cache.wf(),
        ensures
            s.wf(),
            s.roots() == storage_paths@,
            s.listings() == cache,
            s.durations() == Map::<Seq<char>, u64>::empty(),
    {
        VideoScanner { storage_paths, cache, durations: KeyedTable::new() }
    }

    /// A scanner over the usual storage roots, whose listings stay fresh for five minutes.
    pub fn new() -> (s: Self)
        ensures
            s.wf(),
            s.roots().len() == 3,
            s.roots()[0]@ == "/run/mount/ve_stock_1"@,
            s.roots()[1]@ == "/run/mount/ve_stock_2"@,
            s.roots()[2]@ == "/run/mount/ve_ext_1"@,
            s.listings()@ == Map::<Seq<char>, CacheEntry<Vec<VideoMetadata>>>::empty(),
            s.listings().ttl() == LISTING_TTL_MS,
            s.durations() == Map::<Seq<char>, u64>::empty(),
    {
        let mut roots: Vec<String> = Vec::new();
        roots.push("/run/mount/ve_stock_1".to_owned());
        roots.push("/run/mount/ve_stock_2".to_owned());
        roots.push("/run/mount/ve_ext_1".to_owned());
        let cache = Cache::with_ttl_millis(path_buf("/tmp/ndownload_videos_cache.json"), LISTING_TTL_MS);
        Self::with_config(roots, cache)
    }

    pub fn storage_paths(&self) -> (r: &Vec<String>)
        ensures
            r@ == self.roots(),
    {
        &self.storage_paths
    }

    pub fn cache(&self) -> (r: &Cache<Vec<VideoMetadata>>)
        ensures
            *r == self.listings(),
    {
        &self.cache
    }

    /// The first step of a scan of the channel at `channel_url`, at time `now`:
    /// the cached videos when the listing is fresh, else the address to list.
    pub fn begin_scan_at(&self, channel_url: &str, now: u64) -> (r: ScanStep)
        requires
            self.wf(),
        ensures
            match r {
                ScanStep::Cached(v) => self.cached_listing(channel_url@, now as int) == Some(v@),
                ScanStep::Fetch(u) => self.cached_listing(channel_url@, now as int) is None
                    && u@ == listing_url_of(channel_url@),
            },
    {
        let url = listing_url(channel_url);
        match self.cache.get_at(url.as_str(), now) {
            Some(v) => {
                proof {
                    let w = self.cache.lookup(url@, now as int)->0;
                    assert(v@ =~= w@);
                }
                ScanStep::Cached(v)
            },
            None => ScanStep::Fetch(url),
        }
    }

    /// The first step of a scan, at the current time on the cache's clock.
    pub fn begin_scan(&self, channel_url: &str) -> (r: ScanStep)
        requires
            self.wf(),
        ensures
            exists|now: u64|
                #![trigger self.cached_listing(channel_url@, now as int)]
                now >= self.listings().ttl() && match r {
                    ScanStep::Cached(v) => self.cached_listing(channel_url@, now as int) == Some(v@),
                    ScanStep::Fetch(u) => self.cached_listing(channel_url@, now as int) is None && u@
                        == listing_url_of(channel_url@),
                },
    {
        let now = self.cache.now_millis();
        self.begin_scan_at(channel_url, now)
    }

    /// The last step of a scan of the listing address `url`, at time `now`: when
    /// the tool succeeded, the videos of its output, which the cache then holds
    /// for `url`; when it failed, its diagnostics, and the cache is left as it was.
    pub fn finish_scan_at(&mut self, url: String, output: ListingOutput, now: u64) -> (r: Result<
        Vec<VideoMetadata>,
        ScanError,
    >)
        requires
            old(self).wf(),
        ensures
            final(self).wf(),
            final(self).roots() == old(self).roots(),
            final(self).durations() == old(self).durations(),
            final(self).listings().ttl() == old(self).listings().ttl(),
            output.success ==> match r {
                Ok(v) => {
                    &&& records(v@) == listing_of(output.stdout@)
                    &&& final(self).listings()@.contains_key(url@)
                    &&& final(self).listings()@[url@].value@ == v@
                    &&& final(self).listings()@[url@].inserted_at == now
                    &&& final(self).listings()@.remove(url@) == old(self).listings()@.remove(url@)
                },
                Err(_) => false,
            },
            !output.success ==> r == Err::<Vec<VideoMetadata>, ScanError>(ScanError::ListingFailed(output.stderr))
                && final(self).listings() == old(self).listings(),
    {
        if !output.success {
            return Err(ScanError::ListingFailed(output.stderr));
        }
        let videos = parse_listing(output.stdout.as_slice());
        let stored = videos.clone();
        assert(stored@ =~= videos@);
        let ghost before = self.cache@;
        self.cache.set_at(url, stored, now);
        assert(self.cache@.remove(url@) =~= before.remove(url@));
        Ok(videos)
    }

    /// The last step of a scan, at the current time on the cache's clock.
    pub fn finish_scan(&mut self, url: String, output: ListingOutput) -> (r: Result<Vec<VideoMetadata>, ScanError>)
        requires
            old(self).wf(),
        ensures
            final(self).wf(),
            final(self).roots() == old(self).roots(),
            final(self).durations() == old(self).durations(),
            output.success ==> (r matches Ok(v) && records(v@) == listing_of(output.stdout@)),
            r matches Ok(v) ==> {
                &&& final(self).listings()@.contains_key(url@)
                &&& final(self).listings()@[url@].value@ == v@
                &&& final(self).listings()@[url@].inserted_at >= old(self).listings().ttl()
                &&& final(self).listings()@.remove(url@) == old(self).listings()@.remove(url@)
            },
            !output.success ==> r == Err::<Vec<VideoMetadata>, ScanError>(ScanError::ListingFailed(output.stderr))
                && final(self).listings() == old(self).listings(),
    {
        let now = self.cache.now_millis();
        self.finish_scan_at(url, output, now)
    }

    /// Scans the channel at `channel_url`: the videos of its listing, from the
    /// cache when the listing is fresh there, else from running `list` on the
    /// listing address, whose output the cache then keeps. A failure of the
    /// listing tool is the only error, and leaves the cache as it was.
    pub fn scan_channel_videos<F: FnOnce(&str) -> ListingOutput>(&mut self, channel_url: &str, list: F) -> (r: Result<
        Vec<VideoMetadata>,
        ScanError,
    >)
        requires
            old(self).wf(),
            forall|u: &str| #[trigger] list.requires((u,)),
        ensures
            final(self).wf(),
            final(self).roots() == old(self).roots(),
            final(self).durations() == old(self).durations(),
            r matches Ok(v) ==> ({
                ||| (exists|now: u64|
                    #![trigger old(self).cached_listing(channel_url@, now as int)]
                    now >= old(self).listings().ttl() && old(self).cached_listing(channel_url@, now as int)
                        == Some(v@)) && final(self).listings() == old(self).listings()
                ||| exists|u: &str, out: ListingOutput|
                    #[trigger] list.ensures((u,), out) && u@ == listing_url_of(channel_url@) && out.success
                        && records(v@) == listing_of(out.stdout@)
                        && final(self).listings()@.contains_key(u@) && final(self).listings()@[u@].value@ == v@
                        && final(self).listings()@[u@].inserted_at >= old(self).listings().ttl()
                        && final(self).listings()@.remove(u@)
                        == old(self).listings()@.remove(u@)
            }),
            r matches Err(e) ==> (exists|u: &str, out: ListingOutput|
                #[trigger] list.ensures((u,), out) && u@ == listing_url_of(channel_url@) && !out.success && e
                    == ScanError::ListingFailed(out.stderr)) && final(self).listings() == old(self).listings(),
    {
        let now = self.cache.now_millis();
        match self.begin_scan_at(channel_url, now) {
            ScanStep::Cached(v) => Ok(v),
            ScanStep::Fetch(url) => {
                let output = list(url.as_str());
                let ghost out = output;
                let r = self.finish_scan_at(url, output, now);
                assert(r matches Ok(v) ==> out.success && records(v@) == listing_of(out.stdout@));
                r
            },
        }
    }

    /// Forgets every cached listing.
    pub fn clear_listings(&mut self)
        requires
            old(self).wf(),
        ensures
            final(self).wf(),
            final(self).listings()@ == Map::<Seq<char>, CacheEntry<Vec<VideoMetadata>>>::empty(),
            final(self).listings().ttl() == old(self).listings().ttl(),
            final(self).listings().file() == old(self).listings().file(),
            final(self).roots() == old(self).roots(),
            final(self).durations() == old(self).durations(),
    {
        self.cache.clear();
    }

    /// The measured duration of the file at `path`, in microseconds, if it was measured.
    pub fn known_duration(&self, path: &str) -> (r: Option<u64>)
        requires
            self.wf(),
        ensures
            r == self.durations().get(path@) ,
    {
        let k = path.to_owned();
        match self.durations.get(&k) {
            Some(d) => Some(*d),
            None => None,
        }
    }

    /// Remembers the measured duration of the file at `path`, in microseconds.
    pub fn record_duration(&mut self, path: String, duration_us: u64)
        requires
            old(self).wf(),
        ensures
            final(self).wf(),
            final(self).durations() == old(self).durations().insert(path@, duration_us),
            final(self).roots() == old(self).roots(),
            final(self).listings() == old(self).listings(),
    {
        self.durations.insert(path, duration_us);
    }

    /// The directories that may hold the videos of a channel: the channel's name
    /// under each storage root, in order.
    pub fn channel_dirs(&self, channel_name: &str) -> (r: Vec<String>)
        ensures
            r@.len() == self.roots().len(),
            forall|i: int|
                0 <= i < r@.len() ==> #[trigger] r@[i]@ == self.roots()[i]@ + "/"@ + channel_name@,
    {
        let mut out: Vec<String> = Vec::new();
        let mut i: usize = 0;
        while i < self.storage_paths.len()
            invariant
                0 <= i <= self.roots().len(),
                out@.len() == i,
                forall|j: int| 0 <= j < i ==> #[trigger] out@[j]@ == self.roots()[j]@ + "/"@ + channel_name@,
            decreases self.roots().len() - i,
        {
            let mut d = self.storage_paths[i].clone();
            d.append("/");
            d.append(channel_name);
            out.push(d);
            i = i + 1;
        }
        out
    }

    /// The first of `files` whose measured duration is within five seconds of
    /// `target_us`; files that were never measured are passed over. Nothing
    /// matches a video of unknown duration.
    pub fn is_video_downloaded(&self, files: &Vec<String>, target_us: Option<u64>) -> (r: Option<String>)
        requires
            self.wf(),
        ensures
            target_us is None ==> r is None,
            target_us is Some ==> match r {
                Some(p) => exists|i: int|
                    0 <= i < files@.len() && files@[i] == p && self.matches_at(files@, i, target_us->0)
                        && forall|j: int| 0 <= j < i ==> !self.matches_at(files@, j, target_us->0),
                None => forall|i: int| 0 <= i < files@.len() ==> !self.matches_at(files@, i, target_us->0),
            },
    {
        let t = match target_us {
            Some(t) => t,
            None => return None,
        };
        let mut i: usize = 0;
        while i < files.len()
            invariant
                self.wf(),
                target_us == Some(t),
                0 <= i <= files@.len(),
                forall|j: int| 0 <= j < i ==> !self.matches_at(files@, j, t),
            decreases files@.len() - i,
        {
            match self.durations.get(&files[i]) {
                Some(d) => {
                    let d = *d;
                    let close = if d >= t {
                        d - t < 5_000_000
                    } else {
                        t - d < 5_000_000
                    };
                    if close {
                        let p = files[i].clone();
                        assert(self.matches_at(files@, i as int, t));
                        assert(files@[i as int] == p);
                        return Some(p);
                    }
                },
                None => {},
            }
            i = i + 1;
        }
        None
    }

    /// The first storage root, in order of priority, that `present` marks as
    /// present on disk; a root without a mark counts as absent.
    pub fn find_best_storage_path(&self, present: &Vec<bool>) -> (r: Result<String, ScanError>)
        ensures
            match first_present(present@, self.roots().len() as int) {
                Some(i) => r matches Ok(p) && p == self.roots()[i],
                None => r matches Err(ScanError::NoStorage),
            },
    {
        let n = self.storage_paths.len();
        let mut i: usize = 0;
        while i < n && i < present.len()
            invariant
                n == self.roots().len(),
                0 <= i <= n,
                forall|j: int| 0 <= j < i && j < present@.len() ==> !present@[j],
            decreases n - i,
        {
            if present[i] {
                proof {
                    let w = choose|w: int|
                        0 <= w < n && w < present@.len() && present@[w] && forall|j: int| 0 <= j < w ==> !present@[j];
                    if w < i {
                    } else if w > i {
                        assert(!present@[i as int]);
                    }
                }
                return Ok(self.storage_paths[i].clone());
            }
            i = i + 1;
        }
        Err(ScanError::NoStorage)
    }
}

/// Once the listing of a channel's address was stored at time `t`, a scan of
/// that channel begun before `t` plus the time to live is answered from the
/// cache with the same videos, so the listing tool is not run again.
pub proof fn lemma_scan_dedup(s: VideoScanner, channel_url: Seq<char>, videos: Seq<VideoMetadata>, t: u64, now: int)
    requires
        s.listings()@.contains_key(listing_url_of(channel_url)),
        s.listings()@[listing_url_of(channel_url)].value@ == videos,
        s.listings()@[listing_url_of(channel_url)].inserted_at == t,
        t <= now < t + s.listings().ttl(),
    ensures
        s.cached_listing(channel_url, now) == Some(videos),
{
}

/// With no storage root present none is chosen; with exactly one present, that
/// one is chosen whatever the others are.
pub proof fn lemma_storage_fallback(present: Seq<bool>, n: int, k: int)
    ensures
        (forall|i: int| 0 <= i < present.len() ==> !present[i]) ==> first_present(present, n) is None,
        (0 <= k < n && k < present.len() && present[k] && forall|i: int|
            0 <= i < present.len() && i != k ==> !present[i]) ==> first_present(present, n) == Some(k),
{
    if 0 <= k < n && k < present.len() && present[k] && forall|i: int|
        0 <= i < present.len() && i != k ==> !present[i] {
        assert(forall|j: int| 0 <= j < k ==> !present[j]);
        let w = choose|i: int| 0 <= i < n && i < present.len() && present[i] && forall|j: int| 0 <= j < i ==> !present[j];
        assert(w == k);
    }
}

} // verus!
