//! The link resolver: given a track on one service, find its identity on
//! another through the link-matching API's response, and cache what came
//! back.
//!
//! The HTTP call itself happens outside; this module owns the request's
//! meaning: which platform a service tag names, how a response is read,
//! and for how long an answer may be reused.

use vstd::prelude::*;
use vstd::string::StringExecFns;

use crate::engine::{Resolution, ResolutionView};
use crate::strutil::str_eq;
use crate::track::clone_string;

verus! {

/// Seconds a successful resolution stays cached.
pub const CACHE_TTL_SECONDS: i64 = 86400;

/// Seconds an `Unmatched` answer stays cached, so an absent track is not
/// asked for again at once.
pub const NEGATIVE_CACHE_TTL_SECONDS: i64 = 3600;

/// The kind of entity a response describes.
#[derive(Clone, Copy, PartialEq, Eq, Structural, Debug)]
pub enum EntityType {
    Song,
    Album,
}

/// The platforms the link-matching API speaks of.
#[derive(Clone, Copy, PartialEq, Eq, Structural, Debug)]
pub enum Platform {
    Spotify,
    Itunes,
    AppleMusic,
    Youtube,
    YoutubeMusic,
    Google,
    GoogleStore,
    Pandora,
    Deezer,
    Tidal,
    AmazonStore,
    AmazonMusic,
    Soundcloud,
    Napster,
    Yandex,
    Spinrilla,
    Audius,
    Audiomack,
    Anghami,
    Boomplay,
}

/// The API providers that power matches.
#[derive(Clone, Copy, PartialEq, Eq, Structural, Debug)]
pub enum APIProvider {
    Spotify,
    Itunes,
    Youtube,
    Google,
    Pandora,
    Deezer,
    Tidal,
    Amazon,
    Soundcloud,
    Napster,
    Yandex,
    Spinrilla,
    Audius,
    Audiomack,
    Anghami,
    Boomplay,
}

/// One platform's link in a response.
pub struct Link {
    pub entity_unique_id: String,
    pub url: String,
    pub native_app_uri_mobile: Option<String>,
    pub native_app_uri_desktop: Option<String>,
}

/// One streaming entity in a response.
pub struct Entity {
    pub id: String,
    pub entity_type: EntityType,
    pub title: Option<String>,
    pub artist_name: Option<String>,
    pub thumbnail_url: Option<String>,
    pub thumbnail_width: Option<u32>,
    pub thumbnail_height: Option<u32>,
    pub api_provider: APIProvider,
    pub platforms: Vec<Platform>,
}

/// A parsed link-matching response: the entity the request named, and the
/// per-platform links and entities, as association lists.
pub struct LinksResponse {
    pub entity_unique_id: String,
    pub user_country: String,
    pub page_url: String,
    pub links_by_platform: Vec<(Platform, Link)>,
    pub entities_by_unique_id: Vec<(String, Entity)>,
}

/// The platform a target service tag names, if the resolver supports it.
pub open spec fn spec_platform_for_service(service: Seq<char>) -> Option<Platform> {
    if service == "youtube_music"@ {
        Some(Platform::YoutubeMusic)
    } else if service == "apple_music"@ {
        Some(Platform::AppleMusic)
    } else if service == "deezer"@ {
        Some(Platform::Deezer)
    } else if service == "tidal"@ {
        Some(Platform::Tidal)
    } else if service == "amazon_music"@ {
        Some(Platform::AmazonMusic)
    } else {
        None
    }
}

/// Map a target service tag onto its platform.
pub fn platform_for_service(service: &str) -> (r: Option<Platform>)
    ensures
        r == spec_platform_for_service(service@),
{
    if str_eq(service, "youtube_music") {
        Some(Platform::YoutubeMusic)
    } else if str_eq(service, "apple_music") {
        Some(Platform::AppleMusic)
    } else if str_eq(service, "deezer") {
        Some(Platform::Deezer)
    } else if str_eq(service, "tidal") {
        Some(Platform::Tidal)
    } else if str_eq(service, "amazon_music") {
        Some(Platform::AmazonMusic)
    } else {
        None
    }
}

/// The first link of a platform in a response's association list.
pub open spec fn spec_find_link(links: Seq<(Platform, Link)>, p: Platform) -> Option<int>
    decreases links.len(),
{
    if links.len() == 0 {
        None
    } else if links.first().0 == p {
        Some(0int)
    } else {
        match spec_find_link(links.drop_first(), p) {
            Some(i) => Some(i + 1),
            None => None,
        }
    }
}

/// The first entity stored under a unique id.
pub open spec fn spec_find_entity(entities: Seq<(Seq<char>, Entity)>, id: Seq<char>) -> Option<
    int,
>
    decreases entities.len(),
{
    if entities.len() == 0 {
        None
    } else if entities.first().0 == id {
        Some(0int)
    } else {
        match spec_find_entity(entities.drop_first(), id) {
            Some(i) => Some(i + 1),
            None => None,
        }
    }
}

/// The id association list of a response, as models.
pub open spec fn entities_of(r: LinksResponse) -> Seq<(Seq<char>, Entity)> {
    r.entities_by_unique_id@.map_values(|e: (String, Entity)| (e.0@, e.1))
}

impl LinksResponse {
    /// The index of the first link of a platform.
    pub fn find_link(&self, p: Platform) -> (r: Option<usize>)
        ensures
            r matches Some(i) ==> spec_find_link(self.links_by_platform@, p) == Some(i as int),
            r is None ==> spec_find_link(self.links_by_platform@, p) is None,
    {
        let ghost links = self.links_by_platform@;
        let mut i: usize = 0;
        proof {
            assert(links.skip(0) =~= links);
        }
        while i < self.links_by_platform.len()
            invariant
                i <= links.len(),
                links == self.links_by_platform@,
                spec_find_link(links, p) == match spec_find_link(links.skip(i as int), p) {
                    Some(k) => Some(k + i),
                    None => None,
                },
            decreases links.len() - i,
        {
            proof {
                assert(links.skip(i as int).first() == links[i as int]);
                assert(links.skip(i as int).drop_first() =~= links.skip(i + 1));
            }
            if self.links_by_platform[i].0 == p {
                return Some(i);
            }
            i += 1;
        }
        None
    }

    /// The index of the entity stored under a unique id.
    pub fn find_entity(&self, id: &str) -> (r: Option<usize>)
        ensures
            r matches Some(i) ==> spec_find_entity(entities_of(*self), id@) == Some(i as int),
            r is None ==> spec_find_entity(entities_of(*self), id@) is None,
    {
        let ghost entities = entities_of(*self);
        let mut i: usize = 0;
        proof {
            assert(entities.skip(0) =~= entities);
        }
        while i < self.entities_by_unique_id.len()
            invariant
                i <= entities.len(),
                entities == entities_of(*self),
                spec_find_entity(entities, id@) == match spec_find_entity(
                    entities.skip(i as int),
                    id@,
                ) {
                    Some(k) => Some(k + i),
                    None => None,
                },
            decreases entities.len() - i,
        {
            proof {
                assert(entities.skip(i as int).first() == entities[i as int]);
                assert(entities.skip(i as int).drop_first() =~= entities.skip(i + 1));
            }
            if str_eq(self.entities_by_unique_id[i].0.as_str(), id) {
                return Some(i);
            }
            i += 1;
        }
        None
    }
}

/// What reading a response resolves a track to, for a target service.
pub open spec fn spec_resolve_from_response(r: LinksResponse, target_service: Seq<char>)
    -> ResolutionView {
    match spec_platform_for_service(target_service) {
        None => ResolutionView::Unmatched,
        Some(p) => match spec_find_link(r.links_by_platform@, p) {
            None => ResolutionView::Unmatched,
            Some(i) => {
                let link = r.links_by_platform@[i].1;
                match spec_find_entity(entities_of(r), link.entity_unique_id@) {
                    Some(k) => {
                        let entity = entities_of(r)[k].1;
                        ResolutionView::Match { external_id: entity.id@, url: link.url@ }
                    },
                    None => ResolutionView::Match {
                        external_id: "unknown_"@ + target_service,
                        url: link.url@,
                    },
                }
            },
        },
    }
}

/// Read a response for a target service: the first link whose platform is
/// the target's yields a match, carrying the linked entity's id on that
/// platform; a response without one is `Unmatched`.  A link whose entity
/// is missing from the response still matches, by its URL alone.
pub fn resolve_from_response(response: &LinksResponse, target_service: &str) -> (r: Resolution)
    ensures
        r@ == spec_resolve_from_response(*response, target_service@),
{
    let p = match platform_for_service(target_service) {
        Some(p) => p,
        None => {
            return Resolution::Unmatched;
        },
    };
    let li = match response.find_link(p) {
        Some(i) => i,
        None => {
            return Resolution::Unmatched;
        },
    };
    proof {
        lemma_find_link_in_range(response.links_by_platform@, p);
    }
    let link = &response.links_by_platform[li].1;
    match response.find_entity(link.entity_unique_id.as_str()) {
        Some(k) => {
            proof {
                lemma_find_entity_in_range(entities_of(*response), link.entity_unique_id@);
            }
            Resolution::Match {
                external_id: clone_string(&response.entities_by_unique_id[k].1.id),
                url: clone_string(&link.url),
            }
        },
        None => Resolution::Match {
            external_id: String::from_str("unknown_").concat(target_service),
            url: clone_string(&link.url),
        },
    }
}

/// A found link index lies in range.
proof fn lemma_find_link_in_range(links: Seq<(Platform, Link)>, p: Platform)
    ensures
        spec_find_link(links, p) matches Some(i) ==> 0 <= i < links.len() && links[i].0 == p,
    decreases links.len(),
{
    if links.len() > 0 && links.first().0 != p {
        lemma_find_link_in_range(links.drop_first(), p);
        assert forall|i: int| spec_find_link(links, p) == Some(i) implies 0 <= i < links.len()
            && links[i].0 == p by {
            assert(links.drop_first()[i - 1] == links[i]);
        }
    }
}

/// A found entity index lies in range.
proof fn lemma_find_entity_in_range(entities: Seq<(Seq<char>, Entity)>, id: Seq<char>)
    ensures
        spec_find_entity(entities, id) matches Some(i) ==> 0 <= i < entities.len()
            && entities[i].0 == id,
    decreases entities.len(),
{
    if entities.len() > 0 && entities.first().0 != id {
        lemma_find_entity_in_range(entities.drop_first(), id);
        assert forall|i: int| spec_find_entity(entities, id) == Some(i) implies 0 <= i
            < entities.len() && entities[i].0 == id by {
            assert(entities.drop_first()[i - 1] == entities[i]);
        }
    }
}

/// How an HTTP failure of the link-matching call counts: server-side
/// trouble is transient and may succeed later; a plain not-found is no
/// match; any other client-side status is permanent.
pub fn classify_http_status(status: u16) -> (r: Resolution)
    ensures
        status >= 500 ==> r@ == (ResolutionView::Failure {
            transient: true,
            reason: spec_status_reason(),
        }),
        status == 404 ==> r@ == ResolutionView::Unmatched,
        status < 500 && status != 404 ==> r@ == (ResolutionView::Failure {
            transient: false,
            reason: spec_status_reason(),
        }),
{
    if status >= 500 {
        Resolution::Failure { transient: true, reason: status_reason() }
    } else if status == 404 {
        Resolution::Unmatched
    } else {
        Resolution::Failure { transient: false, reason: status_reason() }
    }
}

/// The reason text a failed lookup carries.
pub open spec fn spec_status_reason() -> Seq<char> {
    "link lookup failed"@
}

/// True of the characters the URL sanitizer strips.
pub open spec fn spec_is_angle(c: char) -> bool {
    c == '<' || c == '>'
}

/// A text with leading angle brackets dropped.
pub open spec fn spec_trim_front(s: Seq<char>) -> Seq<char>
    decreases s.len(),
{
    if s.len() > 0 && spec_is_angle(s.first()) {
        spec_trim_front(s.drop_first())
    } else {
        s
    }
}

/// A text with trailing angle brackets dropped.
pub open spec fn spec_trim_back(s: Seq<char>) -> Seq<char>
    decreases s.len(),
{
    if s.len() > 0 && spec_is_angle(s.last()) {
        spec_trim_back(s.drop_last())
    } else {
        s
    }
}

/// A URL value with extraneous angle brackets stripped from both ends.
pub open spec fn spec_trim_angle_brackets(s: Seq<char>) -> Seq<char> {
    spec_trim_back(spec_trim_front(s))
}

/// Strip extraneous `<` and `>` from both ends of a URL value, which some
/// responses wrap the URL in.
pub fn trim_angle_brackets(s: &str) -> (r: String)
    ensures
        r@ == spec_trim_angle_brackets(s@),
{
    let n = s.unicode_len();
    let mut lo: usize = 0;
    proof {
        assert(s@.skip(0) =~= s@);
    }
    while lo < n
        invariant
            n == s@.len(),
            lo <= n,
            spec_trim_front(s@) == spec_trim_front(s@.skip(lo as int)),
        ensures
            lo <= n,
            n == s@.len(),
            spec_trim_front(s@) == s@.skip(lo as int),
        decreases n - lo,
    {
        let c = s.get_char(lo);
        if c == '<' || c == '>' {
            proof {
                assert(s@.skip(lo as int).first() == s@[lo as int]);
                assert(s@.skip(lo as int).drop_first() =~= s@.skip(lo + 1));
            }
            lo += 1;
        } else {
            proof {
                assert(s@.skip(lo as int).first() == s@[lo as int]);
            }
            break ;
        }
    }
    let mut hi: usize = n;
    proof {
        assert(s@.skip(lo as int) =~= s@.subrange(lo as int, n as int));
    }
    while hi > lo
        invariant
            n == s@.len(),
            lo <= hi <= n,
            spec_trim_front(s@) == s@.skip(lo as int),
            spec_trim_back(s@.subrange(lo as int, hi as int)) == spec_trim_back(
                s@.skip(lo as int),
            ),
        ensures
            lo <= hi <= n,
            n == s@.len(),
            spec_trim_back(s@.skip(lo as int)) == s@.subrange(lo as int, hi as int),
        decreases hi,
    {
        let c = s.get_char(hi - 1);
        if c == '<' || c == '>' {
            proof {
                let cur = s@.subrange(lo as int, hi as int);
                assert(cur.last() == s@[hi - 1]);
                assert(cur.drop_last() =~= s@.subrange(lo as int, hi - 1));
            }
            hi -= 1;
        } else {
            proof {
                let cur = s@.subrange(lo as int, hi as int);
                assert(cur.last() == s@[hi - 1]);
            }
            break ;
        }
    }
    let out = s.substring_char(lo, hi);
    out.to_owned()
}

/// What one cacheable answer is stored under: the source identity and the
/// target service it was resolved for.
pub struct CacheEntry {
    pub src_service: String,
    pub src_external_id: String,
    pub dst_service: String,
    pub outcome: Resolution,
    pub cached_at: i64,
}

/// The key of a cache entry, as models.
pub open spec fn cache_key(e: CacheEntry) -> (Seq<char>, Seq<char>, Seq<char>) {
    (e.src_service@, e.src_external_id@, e.dst_service@)
}

/// The entries a cache holds.
pub open spec fn cache_of(c: ResolverCache) -> Seq<CacheEntry> {
    c.entries@
}

/// The entry stored under a key, if any.
pub open spec fn spec_cache_lookup(
    entries: Seq<CacheEntry>,
    key: (Seq<char>, Seq<char>, Seq<char>),
) -> Option<int> {
    if exists|i: int| 0 <= i < entries.len() && cache_key(#[trigger] entries[i]) == key {
        Some(choose|i: int| 0 <= i < entries.len() && cache_key(#[trigger] entries[i]) == key)
    } else {
        None
    }
}

/// How long an answer may be served from the cache: a match for a day, an
/// absent track for an hour.
pub open spec fn spec_cache_ttl(outcome: ResolutionView) -> int {
    match outcome {
        ResolutionView::Unmatched => NEGATIVE_CACHE_TTL_SECONDS as int,
        _ => CACHE_TTL_SECONDS as int,
    }
}

/// An entry still fresh at `now`.
pub open spec fn spec_cache_fresh(e: CacheEntry, now: i64) -> bool {
    now - e.cached_at < spec_cache_ttl(e.outcome@)
}

/// Cache invariant: one entry per key.
pub open spec fn cache_wf(c: ResolverCache) -> bool {
    let entries = cache_of(c);
    forall|i: int, k: int|
        0 <= i < k < entries.len() ==> cache_key(#[trigger] entries[i]) != cache_key(
            #[trigger] entries[k],
        )
}

/// The per-process resolution cache.
pub struct ResolverCache {
    pub entries: Vec<CacheEntry>,
}

impl ResolverCache {
    /// An empty cache.
    pub fn new() -> (c: ResolverCache)
        ensures
            cache_wf(c),
            cache_of(c).len() == 0,
    {
        ResolverCache { entries: Vec::new() }
    }

    /// The index of the key's entry.
    fn find_entry(&self, src_service: &str, src_external_id: &str, dst_service: &str) -> (r:
        Option<usize>)
        ensures
            r matches Some(i) ==> i < cache_of(*self).len() && cache_key(
                cache_of(*self)[i as int],
            ) == (src_service@, src_external_id@, dst_service@),
            r is None ==> spec_cache_lookup(
                cache_of(*self),
                (src_service@, src_external_id@, dst_service@),
            ) is None,
    {
        let ghost entries = cache_of(*self);
        let mut i: usize = 0;
        while i < self.entries.len()
            invariant
                i <= entries.len(),
                entries == cache_of(*self),
                forall|k: int|
                    0 <= k < i ==> cache_key(#[trigger] entries[k]) != (
                        src_service@,
                        src_external_id@,
                        dst_service@,
                    ),
            decreases entries.len() - i,
        {
            if str_eq(self.entries[i].src_service.as_str(), src_service) && str_eq(
                self.entries[i].src_external_id.as_str(),
                src_external_id,
            ) && str_eq(self.entries[i].dst_service.as_str(), dst_service) {
                return Some(i);
            }
            i += 1;
        }
        None
    }

    /// The cached answer for a key, if one is stored and still fresh.
    pub fn get(&self, src_service: &str, src_external_id: &str, dst_service: &str, now: i64) -> (r:
        Option<Resolution>)
        requires
            cache_wf(*self),
        ensures
            spec_cache_get_post(
                cache_of(*self),
                (src_service@, src_external_id@, dst_service@),
                now,
                r,
            ),
    {
        match self.find_entry(src_service, src_external_id, dst_service) {
            Some(i) => {
                proof {
                    lemma_cache_unique(
                        cache_of(*self),
                        (src_service@, src_external_id@, dst_service@),
                        i as int,
                    );
                }
                let e = &self.entries[i];
                let ttl = match &e.outcome {
                    Resolution::Unmatched => NEGATIVE_CACHE_TTL_SECONDS,
                    _ => CACHE_TTL_SECONDS,
                };
                if (now as i128) - (e.cached_at as i128) < (ttl as i128) {
                    Some(duplicate_resolution(&e.outcome))
                } else {
                    None
                }
            },
            None => None,
        }
    }

    /// Remember the answer for a key, replacing any older entry of it.
    pub fn put(
        &mut self,
        src_service: &str,
        src_external_id: &str,
        dst_service: &str,
        outcome: Resolution,
        now: i64,
    )
        requires
            cache_wf(*old(self)),
        ensures
            cache_wf(*final(self)),
            spec_cache_put_post(
                cache_of(*old(self)),
                cache_of(*final(self)),
                (src_service@, src_external_id@, dst_service@),
                outcome@,
                now,
            ),
    {
        let ghost key = (src_service@, src_external_id@, dst_service@);
        let ghost ov = outcome@;
        let entry = CacheEntry {
            src_service: src_service.to_owned(),
            src_external_id: src_external_id.to_owned(),
            dst_service: dst_service.to_owned(),
            outcome,
            cached_at: now,
        };
        let ghost pre = cache_of(*self);
        match self.find_entry(src_service, src_external_id, dst_service) {
            Some(i) => {
                self.entries[i] = entry;
                proof {
                    let post = cache_of(*self);
                    assert(post =~= pre.update(i as int, post[i as int]));
                    assert forall|a: int, b: int|
                        0 <= a < b < post.len() implies cache_key(#[trigger] post[a])
                        != cache_key(#[trigger] post[b]) by {
                        assert(cache_key(post[a]) == cache_key(pre[a]));
                        assert(cache_key(post[b]) == cache_key(pre[b]));
                    }
                    lemma_cache_unique(post, key, i as int);
                }
            },
            None => {
                self.entries.push(entry);
                proof {
                    let post = cache_of(*self);
                    assert(post =~= pre.push(post[post.len() - 1]));
                    assert forall|a: int| 0 <= a < pre.len() implies cache_key(#[trigger] pre[a])
                        != key by {
                        if cache_key(pre[a]) == key {
                            assert(exists|j: int|
                                0 <= j < pre.len() && cache_key(#[trigger] pre[j]) == key);
                        }
                    }
                    assert forall|a: int, b: int|
                        0 <= a < b < post.len() implies cache_key(#[trigger] post[a])
                        != cache_key(#[trigger] post[b]) by {
                        if b == post.len() - 1 {
                            assert(post[a] == pre[a]);
                        } else {
                            assert(post[a] == pre[a] && post[b] == pre[b]);
                        }
                    }
                    lemma_cache_unique(post, key, post.len() - 1);
                }
            },
        }
    }
}

/// What `get` guarantees: an answer comes only from the key's fresh
/// entry, and a fresh entry is always served.
pub open spec fn spec_cache_get_post(
    entries: Seq<CacheEntry>,
    key: (Seq<char>, Seq<char>, Seq<char>),
    now: i64,
    r: Option<Resolution>,
) -> bool {
    match spec_cache_lookup(entries, key) {
        None => r is None,
        Some(i) => {
            if spec_cache_fresh(entries[i], now) {
                r matches Some(o) && o@ == entries[i].outcome@
            } else {
                r is None
            }
        },
    }
}

/// What `put` guarantees: the key's one entry now carries the answer and
/// the write time.
pub open spec fn spec_cache_put_post(
    pre: Seq<CacheEntry>,
    post: Seq<CacheEntry>,
    key: (Seq<char>, Seq<char>, Seq<char>),
    outcome: ResolutionView,
    now: i64,
) -> bool {
    match spec_cache_lookup(post, key) {
        Some(i) => {
            &&& post[i].outcome@ == outcome
            &&& post[i].cached_at == now
            &&& post.len() == if spec_cache_lookup(pre, key) is Some {
                pre.len()
            } else {
                pre.len() + 1
            }
        },
        None => false,
    }
}

/// Copy a resolution; the copy models the same outcome.
pub fn duplicate_resolution(r: &Resolution) -> (out: Resolution)
    ensures
        out@ == r@,
{
    match r {
        Resolution::NotNeeded => Resolution::NotNeeded,
        Resolution::Match { external_id, url } => Resolution::Match {
            external_id: clone_string(external_id),
            url: clone_string(url),
        },
        Resolution::Unmatched => Resolution::Unmatched,
        Resolution::Failure { transient, reason } => Resolution::Failure {
            transient: *transient,
            reason: clone_string(reason),
        },
    }
}

/// When entry `i` is the key's one entry, the lookup lands on it.
proof fn lemma_cache_unique(
    entries: Seq<CacheEntry>,
    key: (Seq<char>, Seq<char>, Seq<char>),
    i: int,
)
    requires
        0 <= i < entries.len(),
        cache_key(entries[i]) == key,
        forall|a: int, b: int|
            0 <= a < b < entries.len() ==> cache_key(#[trigger] entries[a]) != cache_key(
                #[trigger] entries[b],
            ),
    ensures
        spec_cache_lookup(entries, key) == Some(i),
{
    let j = choose|j: int| 0 <= j < entries.len() && cache_key(#[trigger] entries[j]) == key;
    if i != j {
        if i < j {
            assert(cache_key(entries[i]) != cache_key(entries[j]));
        } else {
            assert(cache_key(entries[j]) != cache_key(entries[i]));
        }
    }
}

/// The reason text a failed lookup carries.
fn status_reason() -> (r: String)
    ensures
        r@ == spec_status_reason(),
{
    String::from_str("link lookup failed")
}

} // verus!
